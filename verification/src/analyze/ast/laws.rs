//! What holds of every parse: it goes on token by token, and operators that bind tighter come first.

use vstd::prelude::*;

use crate::analyze::ast::parse;
use crate::analyze::ast::parse::{Outcome, ParseState, ParsedV, SourceV};
use crate::analyze::ast::{ExprV, FnDefV, ItemV, StmtV};
use crate::analyze::lex::token;
use crate::analyze::lex::token::{Keyword, Operator, TokenV};
use crate::analyze::{ErrorV, Span, TextRange};

verus! {

/// Of the same tokens no more are left than before, and what was reported stays reported.
pub open spec fn not_behind(st: ParseState, later: ParseState) -> bool {
    &&& later.toks.toks == st.toks.toks
    &&& later.left() <= st.left()
    &&& st.errs.is_prefix_of(later.errs)
}

/// What came out is an end of parsing, or was parsed without going back.
pub open spec fn stays<A>(st: ParseState, out: Outcome<A>) -> bool {
    match out {
        Outcome::Done(_, later) => not_behind(st, later),
        Outcome::Wrong(_, later) => not_behind(st, later),
        Outcome::Abort => true,
    }
}

/// What came out is an end of parsing, or at least one token was taken for it.
pub open spec fn onward<A>(st: ParseState, out: Outcome<A>) -> bool {
    match out {
        Outcome::Done(_, later) => not_behind(st, later) && later.ahead_of(st),
        Outcome::Wrong(_, later) => not_behind(st, later) && later.ahead_of(st),
        Outcome::Abort => true,
    }
}

/// Nothing was reported on the way to what came out.
pub open spec fn quiet<A>(st: ParseState, out: Outcome<A>) -> bool {
    match out {
        Outcome::Done(_, later) => later.errs == st.errs,
        Outcome::Wrong(_, later) => later.errs == st.errs,
        Outcome::Abort => true,
    }
}

proof fn lemma_moved(st: ParseState)
    ensures
        not_behind(st, st.moved()),
        st.current() is Some ==> st.moved().ahead_of(st),
        st.moved().errs == st.errs,
{
}

proof fn lemma_path_rest(src: SourceV, st: ParseState, start: usize)
    ensures
        stays(st, parse::path_rest(src, st, start)),
        quiet(st, parse::path_rest(src, st, start)),
    decreases st.left(),
{
    lemma_moved(st);
    lemma_moved(st.moved());
    if st.is_at(TokenV::PathSeparator) {
        match parse::expected_ident(src, st.moved(), "expected identifier"@) {
            Outcome::Done(_, st1) => lemma_path_rest(src, st1, start),
            _ => {},
        }
    }
}

proof fn lemma_type_at(src: SourceV, st: ParseState)
    ensures
        onward(st, parse::type_at(src, st)),
        quiet(st, parse::type_at(src, st)),
    decreases st.left(),
{
    lemma_moved(st);
    lemma_moved(st.moved());
    if st.current() is Some {
        let (tok, range) = st.current()->0;
        if tok == TokenV::Operator(Operator::Star) {
            lemma_type_at(src, st.moved());
        } else if tok is Ident {
            lemma_path_rest(src, st.moved(), range.start);
        }
    }
}

proof fn lemma_single_at(src: SourceV, st: ParseState)
    ensures
        onward(st, parse::single_at(src, st)),
        quiet(st, parse::single_at(src, st)),
    decreases st.left(), 1int,
{
    lemma_moved(st);
    if st.current() is Some {
        let (tok, range) = st.current()->0;
        lemma_operand_at(src, tok, range, st.moved());
        match parse::operand_at(src, tok, range, st.moved()) {
            Outcome::Done(expr, st1) => {
                lemma_moved(st1);
                lemma_type_at(src, st1.moved());
            },
            _ => {},
        }
    }
}

proof fn lemma_operand_at(src: SourceV, tok: TokenV, range: TextRange, st: ParseState)
    ensures
        stays(st, parse::operand_at(src, tok, range, st)),
        quiet(st, parse::operand_at(src, tok, range, st)),
    decreases st.left(), 3int,
{
    lemma_moved(st);
    match tok {
        TokenV::Operator(Operator::Minus) => lemma_single_at(src, st),
        TokenV::Operator(Operator::Not) => lemma_single_at(src, st),
        TokenV::Ident(_) => lemma_ident_at(src, range.start, st),
        TokenV::LeftParenthesis => {
            law_expr_moves_on(src, st);
            match parse::expr_at(src, st) {
                Outcome::Done(_, st1) => lemma_moved(st1),
                _ => {},
            }
        },
        TokenV::Keyword(Keyword::SizeOf) => {
            lemma_type_at(src, st.moved());
            match parse::type_at(src, st.moved()) {
                Outcome::Done(_, st1) => lemma_moved(st1),
                _ => {},
            }
        },
        TokenV::LeftBracket => {
            lemma_type_at(src, st);
            match parse::type_at(src, st) {
                Outcome::Done(_, st1) => {
                    lemma_moved(st1);
                    lemma_moved(st1.moved());
                    lemma_moved(st1.moved().moved());
                },
                _ => {},
            }
        },
        _ => {},
    }
}

proof fn lemma_ident_at(src: SourceV, start: usize, st: ParseState)
    ensures
        stays(st, parse::ident_at(src, start, st)),
        quiet(st, parse::ident_at(src, start, st)),
    decreases st.left(), 2int,
{
    lemma_path_rest(src, st, start);
    match parse::path_rest(src, st, start) {
        Outcome::Done(_, st1) => {
            lemma_moved(st1);
            let st2 = st1.moved();
            if st1.is_at(TokenV::LeftParenthesis) && st2.ahead_of(st) {
                lemma_args_at(src, st2, Seq::empty());
                match parse::args_at(src, st2, Seq::empty()) {
                    Outcome::Done(_, st3) => lemma_moved(st3),
                    _ => {},
                }
            } else if st1.is_at(TokenV::LeftBracket) && st2.ahead_of(st) {
                law_expr_moves_on(src, st2);
                match parse::expr_at(src, st2) {
                    Outcome::Done(_, st3) => lemma_moved(st3),
                    _ => {},
                }
            }
        },
        _ => {},
    }
}

proof fn lemma_args_at(src: SourceV, st: ParseState, args: Seq<ExprV<ParsedV>>)
    ensures
        stays(st, parse::args_at(src, st, args)),
        quiet(st, parse::args_at(src, st, args)),
    decreases st.left(), 3int,
{
    lemma_moved(st);
    let st1 = if args.len() == 0 {
        st
    } else {
        st.moved()
    };
    law_expr_moves_on(src, st1);
    match parse::expr_at(src, st1) {
        Outcome::Done(arg, st2) => if st2.ahead_of(st) {
            lemma_args_at(src, st2, args.push(arg));
        },
        _ => {},
    }
}

/// Parsing an expression takes at least one token, whether or not the expression is in error, and
/// never goes back. It reports nothing by itself.
pub proof fn law_expr_moves_on(src: SourceV, st: ParseState)
    ensures
        onward(st, parse::expr_at(src, st)),
        quiet(st, parse::expr_at(src, st)),
    decreases st.left(), 2int,
{
    lemma_single_at(src, st);
    match parse::single_at(src, st) {
        Outcome::Done(lhs, st1) => {
            lemma_moved(st1);
            let st2 = st1.moved();
            if st1.current() is Some && (st1.current()->0).0 is Operator {
                lemma_single_at(src, st2);
                law_expr_moves_on(src, st2);
                match parse::single_at(src, st2) {
                    Outcome::Done(_, st3) => {
                        lemma_moved(st3);
                        law_expr_moves_on(src, st3.moved());
                    },
                    _ => {},
                }
            }
        },
        _ => {},
    }
}

proof fn lemma_semicolon(src: SourceV, st: ParseState)
    ensures
        onward(st, parse::semicolon(src, st)),
{
    lemma_moved(st);
}

proof fn lemma_behind_semicolon(st: ParseState)
    ensures
        not_behind(st, parse::behind_semicolon(st)),
        parse::behind_semicolon(st).errs == st.errs,
    decreases st.left(),
{
    lemma_moved(st);
    if st.current() is Some && (st.current()->0).0 != TokenV::Semicolon {
        lemma_behind_semicolon(st.moved());
    }
}

proof fn lemma_ended_expr(src: SourceV, st: ParseState)
    ensures
        onward(st, parse::ended_expr(src, st)),
{
    law_expr_moves_on(src, st);
    match parse::expr_at(src, st) {
        Outcome::Done(_, st1) => lemma_semicolon(src, st1),
        _ => {},
    }
}

proof fn lemma_expr_stmt(src: SourceV, range: TextRange, st: ParseState)
    ensures
        onward(st, parse::expr_stmt(src, range, st)),
{
    law_expr_moves_on(src, st);
    match parse::expr_at(src, st) {
        Outcome::Done(_, st1) => {
            lemma_moved(st1);
            lemma_ended_expr(src, st1.moved());
        },
        _ => {},
    }
}

/// Parsing a statement takes at least one token, whether or not the statement is in error, and never
/// goes back. What was reported stays reported.
pub proof fn law_stmt_moves_on(src: SourceV, st: ParseState)
    ensures
        onward(st, parse::stmt_at(src, st)),
    decreases st.left(), 0int,
{
    lemma_moved(st);
    if st.current() is Some {
        let (tok, range) = st.current()->0;
        match tok {
            TokenV::Keyword(keyword) => {
                lemma_ended_expr(src, st.moved());
                lemma_guarded_at(src, st.moved());
            },
            _ => lemma_expr_stmt(src, range, st),
        }
    }
}

proof fn lemma_guarded_at(src: SourceV, st: ParseState)
    ensures
        onward(st, parse::guarded_at(src, st)),
    decreases st.left(), 3int,
{
    law_expr_moves_on(src, st);
    match parse::expr_at(src, st) {
        Outcome::Done(_, st1) => if st1.ahead_of(st) {
            lemma_block_at(src, st1);
        },
        _ => {},
    }
}

proof fn lemma_block_at(src: SourceV, st: ParseState)
    ensures
        onward(st, parse::block_at(src, st)),
    decreases st.left(), 2int,
{
    lemma_moved(st);
    if st.current() is Some {
        lemma_stmts_at(src, st.moved(), Seq::empty());
    }
}

proof fn lemma_stmts_at(src: SourceV, st: ParseState, stmts: Seq<StmtV<ParsedV>>)
    ensures
        onward(st, parse::stmts_at(src, st, stmts)),
    decreases st.left(), 1int,
{
    lemma_moved(st);
    law_stmt_moves_on(src, st);
    match parse::stmt_at(src, st) {
        Outcome::Done(stmt, st1) => if st1.ahead_of(st) {
            lemma_stmts_at(src, st1, stmts.push(stmt));
        },
        Outcome::Wrong(e, st1) => {
            lemma_behind_semicolon(st1.reported(e));
            let st2 = parse::behind_semicolon(st1.reported(e));
            if st2.ahead_of(st) {
                lemma_stmts_at(src, st2, stmts);
            }
        },
        _ => {},
    }
}

proof fn lemma_decl_args_at(src: SourceV, st: ParseState, args: Seq<(Seq<char>, ParsedV, Span)>)
    ensures
        stays(st, parse::decl_args_at(src, st, args)),
    decreases st.left(),
{
    lemma_moved(st);
    lemma_moved(st.moved());
    let st1 = st.moved().moved();
    match st.current() {
        Some((TokenV::Ident(name), range)) => {
            lemma_type_at(src, st1);
            match parse::type_at(src, st1) {
                Outcome::Done(typ, st2) => {
                    lemma_moved(st2);
                    if st2.last_end() is Some {
                        let all = args.push(
                            (name, typ, src.between(range.start, st2.last_end()->0)),
                        );
                        if st2.ahead_of(st) {
                            lemma_decl_args_at(src, st2, all);
                        }
                        if st2.moved().ahead_of(st) {
                            lemma_decl_args_at(src, st2.moved(), all);
                        }
                    }
                },
                _ => {},
            }
        },
        _ => {},
    }
}

proof fn lemma_signature_at(src: SourceV, st: ParseState)
    ensures
        onward(st, parse::signature_at(src, st)),
{
    lemma_moved(st);
    let st1 = st.moved();
    lemma_decl_args_at(src, st1, Seq::empty());
    match parse::decl_args_at(src, st1, Seq::empty()) {
        Outcome::Done(_, st2) => {
            lemma_moved(st2);
            lemma_moved(st2.moved());
            lemma_type_at(src, st2.moved().moved());
        },
        _ => {},
    }
}

proof fn lemma_function_at(src: SourceV, start: usize, st: ParseState)
    ensures
        onward(st, parse::function_at(src, start, st)),
{
    lemma_moved(st);
    if st.current() is Some {
        let (tok, range) = st.current()->0;
        let st1 = match tok {
            TokenV::Ident(_) => st.moved(),
            _ => st.moved().reported(
                ErrorV::unexpected_token(src.span(range), "expected function name"@),
            ),
        };
        lemma_signature_at(src, st1);
        match parse::signature_at(src, st1) {
            Outcome::Done(_, st2) => {
                lemma_moved(st2);
                lemma_block_at(src, st2);
            },
            _ => {},
        }
    }
}

proof fn lemma_fields_at(src: SourceV, st: ParseState, fields: Seq<(Seq<char>, ParsedV, Span)>)
    ensures
        stays(st, parse::fields_at(src, st, fields)),
    decreases st.left(),
{
    lemma_moved(st);
    lemma_moved(st.moved());
    let st2 = st.moved().moved();
    match st.current() {
        Some((TokenV::Ident(name), range)) => {
            lemma_type_at(src, st2);
            match parse::type_at(src, st2) {
                Outcome::Done(typ, st3) => {
                    lemma_moved(st3);
                    let st4 = if st3.is_at(TokenV::Comma) {
                        st3.moved()
                    } else {
                        st3
                    };
                    if st3.last_end() is Some && st4.ahead_of(st) {
                        let end = st3.last_end()->0;
                        lemma_fields_at(
                            src,
                            st4,
                            fields.push((name, typ, src.between(range.start, end))),
                        );
                    }
                },
                _ => {},
            }
        },
        _ => {},
    }
}

proof fn lemma_struct_at(src: SourceV, st: ParseState)
    ensures
        onward(st, parse::struct_at(src, st)),
{
    lemma_moved(st);
    lemma_moved(st.moved());
    let st2 = st.moved().moved();
    lemma_fields_at(src, st2, Seq::empty());
    match parse::fields_at(src, st2, Seq::empty()) {
        Outcome::Done(_, st3) => lemma_moved(st3),
        _ => {},
    }
}

proof fn lemma_functions_at(src: SourceV, st: ParseState, functions: Seq<FnDefV<ParsedV>>)
    ensures
        stays(st, parse::functions_at(src, st, functions)),
    decreases st.left(),
{
    lemma_moved(st);
    if st.is_at(TokenV::Keyword(Keyword::Function)) {
        let start = (st.current()->0).1.start;
        lemma_function_at(src, start, st.moved());
        match parse::function_at(src, start, st.moved()) {
            Outcome::Done(ItemV::Function(def), st1) => if st1.ahead_of(st) {
                lemma_functions_at(src, st1, functions.push(def));
            },
            _ => {},
        }
    }
}

proof fn lemma_impl_at(src: SourceV, st: ParseState)
    ensures
        onward(st, parse::impl_at(src, st)),
{
    lemma_moved(st);
    lemma_moved(st.moved());
    let st2 = st.moved().moved();
    lemma_functions_at(src, st2, Seq::empty());
    match parse::functions_at(src, st2, Seq::empty()) {
        Outcome::Done(_, st3) => lemma_moved(st3),
        _ => {},
    }
}

proof fn lemma_memory_at(src: SourceV, st: ParseState)
    ensures
        onward(st, parse::memory_at(src, st)),
{
    lemma_moved(st);
    lemma_moved(st.moved());
    let st2 = st.moved().moved();
    lemma_type_at(src, st2);
    match parse::type_at(src, st2) {
        Outcome::Done(_, st3) => lemma_semicolon(src, st3),
        _ => {},
    }
}

proof fn lemma_import_at(src: SourceV, st: ParseState)
    ensures
        onward(st, parse::import_at(src, st)),
{
    lemma_moved(st);
    if st.current() is Some {
        let start = (st.current()->0).1.start;
        lemma_path_rest(src, st.moved(), start);
        match parse::path_rest(src, st.moved(), start) {
            Outcome::Done(_, st2) => lemma_semicolon(src, st2),
            _ => {},
        }
    }
}

/// Parsing what stands at the top level of a file takes at least one token, whether or not it is in
/// error, and never goes back. What was reported stays reported. So a file is parsed to its end,
/// unless parsing cannot go on.
pub proof fn law_entry_moves_on(src: SourceV, st: ParseState)
    ensures
        onward(st, parse::entry_at(src, st)),
{
    lemma_moved(st);
    if st.current() is Some {
        let (tok, range) = st.current()->0;
        let st1 = st.moved();
        lemma_moved(st1);
        lemma_semicolon(src, st1.moved());
        match tok {
            TokenV::Keyword(Keyword::Function) => lemma_function_at(src, range.start, st1),
            TokenV::Keyword(Keyword::Memory) => lemma_memory_at(src, st1),
            TokenV::Keyword(Keyword::Struct) => lemma_struct_at(src, st1),
            TokenV::Keyword(Keyword::Impl) => lemma_impl_at(src, st1),
            TokenV::Keyword(Keyword::Use) => lemma_import_at(src, st1),
            _ => {},
        }
    }
}

/// An operator between two operands, which are whole expressions.
pub open spec fn is_infix(op: Operator) -> bool {
    op != Operator::Not && op != Operator::Dot
}

/// Of two operators between operands, of which the second and the third are one token each, the one that
/// binds tighter comes first. If they bind alike, it is the second.
pub proof fn law_precedence(
    src: SourceV,
    st: ParseState,
    a: ExprV<ParsedV>,
    first: Operator,
    b: ExprV<ParsedV>,
    second: Operator,
    c: ExprV<ParsedV>,
    before: ParseState,
    between: ParseState,
    behind: ParseState,
)
    requires
        is_infix(first) && is_infix(second),
        parse::single_at(src, st) == Outcome::Done(a, before),
        before.current() matches Some((TokenV::Operator(op), _)) && op == first,
        parse::single_at(src, before.moved()) == Outcome::Done(b, between),
        between == before.moved().moved(),
        between.current() matches Some((TokenV::Operator(op), _)) && op == second,
        parse::single_at(src, between.moved()) == Outcome::Done(c, behind),
        behind == between.moved().moved(),
        !(behind.current() matches Some((TokenV::Operator(_), _))),
    ensures
        parse::expr_at(src, st) matches Outcome::Done(e, later) && later == behind && (
        if token::binding(second) < token::binding(first) {
            exists|ab: ExprV<ParsedV>|
                parse::bound(first, a, b) == Some(ab.inner) && Some(e.inner) == #[trigger] parse::bound(
                    second,
                    ab,
                    c,
                )
        } else {
            exists|bc: ExprV<ParsedV>|
                parse::bound(second, b, c) == Some(bc.inner) && Some(e.inner) == #[trigger] parse::bound(
                    first,
                    a,
                    bc,
                )
        }),
{
    lemma_single_at(src, st);
    lemma_moved(before);
    lemma_single_at(src, before.moved());
    lemma_moved(between);
    let rest = parse::expr_at(src, between.moved());
    assert(rest == Outcome::Done(c, behind));
    assert(parse::operator_behind(before.moved()) == Some(second));
    if token::binding(second) < token::binding(first) {
        let ab = parse::untyped(parse::bound(first, a, b)->0, src.between(0, 1));
        assert(parse::bound(second, ab, c) is Some);
    } else {
        let bc = parse::untyped(
            parse::bound(second, b, c)->0,
            src.between(b.span.range.start, c.span.range.end),
        );
        assert(parse::operator_behind(between.moved()) is None);
        assert(parse::expr_at(src, before.moved()) == Outcome::Done(bc, behind));
        assert(parse::bound(first, a, bc) is Some);
    }
}

} // verus!
