//! Builds the syntax tree of a source file from its tokens.

use vstd::prelude::*;

use crate::analyze::ast;
use crate::analyze::ast::{
    ArithmeticOp, Assignable, AssignableV, AstV, Binding, CompareOp, Copied, ExprInner, ExprInnerV, ExprV,
    Expression, FnDef, FnDefV, FnPtr, FnPtrV, Item, ItemV, LogicalOp, Statement, StmtV, AST,
};
use crate::analyze::lex;
use crate::analyze::lex::token;
use crate::analyze::lex::token::{Keyword, Operator, Token, TokenV};
use crate::analyze::lex::{Tokens, TokensV};
use crate::analyze::semantics::types;
use crate::analyze::semantics::types::{ParsedType, ParsedTypeV, Primitive, Sign};
use crate::analyze::{Error, ErrorCode, ErrorContext, ErrorV, FileId, Span, TextRange};
use crate::text;

verus! {

/// A type as it was parsed, with the place where it is written.
pub type Parsed = (ParsedType, Span);

/// What a [`Parsed`] says.
pub type ParsedV = (ParsedTypeV, Span);

/// What parsing has before it and behind it: tokens, and the errors reported so far.
#[verifier::ext_equal]
pub struct ParseState {
    pub toks: TokensV,
    pub errs: Seq<ErrorV>,
}

impl ParseState {
    pub open spec fn current(self) -> Option<(TokenV, TextRange)> {
        self.toks.current()
    }

    pub open spec fn is_at(self, t: TokenV) -> bool {
        self.current() is Some && (self.current()->0).0 == t
    }

    pub open spec fn moved(self) -> ParseState {
        ParseState { toks: self.toks.moved(), ..self }
    }

    pub open spec fn reported(self, e: ErrorV) -> ParseState {
        ParseState { errs: self.errs.push(e), ..self }
    }

    pub open spec fn left(self) -> nat {
        self.toks.left()
    }

    /// Fewer tokens are left than in `earlier`.
    pub open spec fn ahead_of(self, earlier: ParseState) -> bool {
        self.left() < earlier.left()
    }

    /// Where the last token ends.
    pub open spec fn last_end(self) -> Option<usize> {
        match self.toks.last() {
            Some(t) => Some(t.1.end),
            None => None,
        }
    }
}

/// What does not change while a file is parsed: its text and its number.
pub struct SourceV {
    pub text: Seq<char>,
    pub file: FileId,
}

impl SourceV {
    pub open spec fn span(self, range: TextRange) -> Span {
        Span { file: self.file, range }
    }

    pub open spec fn between(self, start: usize, end: usize) -> Span {
        Span { file: self.file, range: TextRange { start, end } }
    }
}

/// The result of parsing something: a value, an error, or nothing, where parsing cannot go on
/// (the tokens came to an end, a constant cannot be negated, a path cannot be cut out of the text,
/// an operator cannot be applied).
pub enum Outcome<A> {
    Done(A, ParseState),
    Wrong(ErrorV, ParseState),
    Abort,
}

pub open spec fn took(st: ParseState) -> Outcome<(TokenV, TextRange)> {
    match st.current() {
        Some(t) => Outcome::Done(t, st.moved()),
        None => Outcome::Abort,
    }
}

/// The next token is `want`.
pub open spec fn expected(src: SourceV, st: ParseState, want: TokenV, message: Seq<char>) -> Outcome<
    (),
> {
    match st.current() {
        Some(t) => if t.0 == want {
            Outcome::Done((), st.moved())
        } else {
            Outcome::Wrong(ErrorV::unexpected_token(src.span(t.1), message), st.moved())
        },
        None => Outcome::Abort,
    }
}

/// The next token is an identifier.
pub open spec fn expected_ident(src: SourceV, st: ParseState, message: Seq<char>) -> Outcome<()> {
    match st.current() {
        Some(t) => if t.0 is Ident {
            Outcome::Done((), st.moved())
        } else {
            Outcome::Wrong(ErrorV::unexpected_token(src.span(t.1), message), st.moved())
        },
        None => Outcome::Abort,
    }
}

pub open spec fn missing_semicolon(src: SourceV, pos: usize) -> ErrorV {
    ErrorV::at(src.between(pos, (pos + 1) as usize)).coded(ErrorCode::MissingSemicolon).says(
        "expected semicolon"@,
    ).label(src.between((pos - 1) as usize, pos), "insert the semicolon dummy"@)
}

/// The next token is a semicolon. Another token is taken all the same, and reported.
pub open spec fn semicolon(src: SourceV, st: ParseState) -> Outcome<()> {
    if st.is_at(TokenV::Semicolon) {
        Outcome::Done((), st.moved())
    } else if st.moved().current() is Some && st.current() is Some {
        let pos = (st.current()->0).1.start;
        if 0 < pos < usize::MAX {
            Outcome::Done((), st.moved().reported(missing_semicolon(src, pos)))
        } else {
            Outcome::Abort
        }
    } else {
        Outcome::Abort
    }
}

/// Behind the next semicolon.
pub open spec fn behind_semicolon(st: ParseState) -> ParseState
    decreases st.left(),
{
    match st.current() {
        None => st.moved(),
        Some(t) => if t.0 == TokenV::Semicolon {
            st.moved()
        } else {
            behind_semicolon(st.moved())
        },
    }
}

/// The rest of a path that begins at `start` and of which one name was taken.
pub open spec fn path_rest(src: SourceV, st: ParseState, start: usize) -> Outcome<Seq<char>>
    decreases st.left(),
{
    if st.is_at(TokenV::PathSeparator) {
        match expected_ident(src, st.moved(), "expected identifier"@) {
            Outcome::Done(_, st1) => if st1.ahead_of(st) {
                path_rest(src, st1, start)
            } else {
                Outcome::Abort
            },
            Outcome::Wrong(e, st1) => Outcome::Wrong(e, st1),
            Outcome::Abort => Outcome::Abort,
        }
    } else {
        match st.last_end() {
            None => Outcome::Abort,
            Some(end) => match lex::byte_slice(src.text, start as int, end as int) {
                Some(path) => Outcome::Done(path, st),
                None => Outcome::Abort,
            },
        }
    }
}

/// A type that begins at `start` and ends with the last token.
pub open spec fn typed(src: SourceV, start: usize, typ: ParsedTypeV, st: ParseState) -> Outcome<
    ParsedV,
> {
    match st.last_end() {
        Some(end) => Outcome::Done((typ, src.between(start, end)), st),
        None => Outcome::Abort,
    }
}

pub open spec fn type_at(src: SourceV, st: ParseState) -> Outcome<ParsedV>
    decreases st.left(),
{
    match st.current() {
        None => Outcome::Abort,
        Some((tok, range)) => {
            let st1 = st.moved();
            if tok == TokenV::Operator(Operator::Star) {
                match type_at(src, st1) {
                    Outcome::Done(t, st2) => typed(
                        src,
                        range.start,
                        ParsedTypeV::Pointer(Box::new(t.0)),
                        st2,
                    ),
                    Outcome::Wrong(e, st2) => Outcome::Wrong(e, st2),
                    Outcome::Abort => Outcome::Abort,
                }
            } else if tok is Ident {
                match path_rest(src, st1, range.start) {
                    Outcome::Done(path, st2) => typed(
                        src,
                        range.start,
                        types::parsed_type(path),
                        st2,
                    ),
                    Outcome::Wrong(e, st2) => Outcome::Wrong(e, st2),
                    Outcome::Abort => Outcome::Abort,
                }
            } else if tok == TokenV::LeftParenthesis && st1.is_at(TokenV::RightParenthesis) {
                typed(src, range.start, ParsedTypeV::Primitive(Primitive::Unit), st1.moved())
            } else {
                Outcome::Wrong(ErrorV::unexpected_token(src.span(range), "expected type"@), st1)
            }
        },
    }
}

/// An expression whose type is not known yet.
pub open spec fn untyped(inner: ExprInnerV<ParsedV>, span: Span) -> ExprV<ParsedV> {
    ExprV { inner, typ: None, span }
}

pub open spec fn arithmetic(op: Operator) -> Option<ArithmeticOp> {
    if op == Operator::Modulo {
        Some(ArithmeticOp::Mod)
    } else {
        token::arithmetic_of(op)
    }
}

pub open spec fn comparison(op: Operator) -> Option<CompareOp> {
    match op {
        Operator::Equal => Some(CompareOp::Equal),
        Operator::NotEqual => Some(CompareOp::NotEqual),
        Operator::Less => Some(CompareOp::Less),
        Operator::LessOrEqual => Some(CompareOp::LessOrEqual),
        Operator::Greater => Some(CompareOp::Greater),
        Operator::GreaterOrEqual => Some(CompareOp::GreaterOrEqual),
        _ => None,
    }
}

/// An operator applied to two operands. `None` for negation, which has one, and for access to
/// what is no member name.
pub open spec fn bound(op: Operator, lhs: ExprV<ParsedV>, rhs: ExprV<ParsedV>) -> Option<
    ExprInnerV<ParsedV>,
> {
    if arithmetic(op) is Some {
        Some(ExprInnerV::Arithmetic(Box::new(lhs), Box::new(rhs), arithmetic(op)->0, None))
    } else if comparison(op) is Some {
        Some(ExprInnerV::Comparison(Box::new(lhs), Box::new(rhs), comparison(op)->0, None))
    } else if op == Operator::And {
        Some(ExprInnerV::Logical(Box::new(lhs), Box::new(rhs), LogicalOp::And))
    } else if op == Operator::Or {
        Some(ExprInnerV::Logical(Box::new(lhs), Box::new(rhs), LogicalOp::Or))
    } else if op == Operator::Dot && rhs.inner is Ident {
        Some(ExprInnerV::MemberAccess(Box::new(lhs), rhs.inner->Ident_0, None))
    } else {
        None
    }
}

/// Two operands with an operator between them.
pub open spec fn joined(
    src: SourceV,
    op: Operator,
    lhs: ExprV<ParsedV>,
    rhs: ExprV<ParsedV>,
    st: ParseState,
) -> Outcome<ExprV<ParsedV>> {
    match bound(op, lhs, rhs) {
        Some(inner) => Outcome::Done(
            untyped(inner, src.between(lhs.span.range.start, rhs.span.range.end)),
            st,
        ),
        None => Outcome::Abort,
    }
}

/// The operator behind the next token.
pub open spec fn operator_behind(st: ParseState) -> Option<Operator> {
    match st.toks.next() {
        Some((TokenV::Operator(op), _)) => Some(op),
        _ => None,
    }
}

/// An expression. Operators are grouped to the right, unless the next one binds less tightly.
pub open spec fn expr_at(src: SourceV, st: ParseState) -> Outcome<ExprV<ParsedV>>
    decreases st.left(), 2int,
{
    match single_at(src, st) {
        Outcome::Wrong(e, st1) => Outcome::Wrong(e, st1),
        Outcome::Abort => Outcome::Abort,
        Outcome::Done(lhs, st1) => match st1.current() {
            Some((TokenV::Operator(op), _)) => {
                let st2 = st1.moved();
                let next = operator_behind(st2);
                if !st2.ahead_of(st) {
                    Outcome::Abort
                } else if next is Some && token::binding(next->0) < token::binding(op) {
                    match single_at(src, st2) {
                        Outcome::Wrong(e, st3) => Outcome::Wrong(e, st3),
                        Outcome::Abort => Outcome::Abort,
                        Outcome::Done(rhs, st3) => match bound(op, lhs, rhs) {
                            None => Outcome::Abort,
                            Some(inner) => if st3.moved().ahead_of(st) {
                                match expr_at(src, st3.moved()) {
                                    Outcome::Wrong(e, st4) => Outcome::Wrong(e, st4),
                                    Outcome::Abort => Outcome::Abort,
                                    Outcome::Done(rest, st4) => joined(
                                        src,
                                        next->0,
                                        untyped(inner, src.between(0, 1)),
                                        rest,
                                        st4,
                                    ),
                                }
                            } else {
                                Outcome::Abort
                            },
                        },
                    }
                } else {
                    match expr_at(src, st2) {
                        Outcome::Wrong(e, st3) => Outcome::Wrong(e, st3),
                        Outcome::Abort => Outcome::Abort,
                        Outcome::Done(rhs, st3) => joined(src, op, lhs, rhs, st3),
                    }
                }
            },
            _ => Outcome::Done(lhs, st1),
        },
    }
}

/// An operand, and the type it is cast to, if it is.
pub open spec fn single_at(src: SourceV, st: ParseState) -> Outcome<ExprV<ParsedV>>
    decreases st.left(), 1int,
{
    match st.current() {
        None => Outcome::Abort,
        Some((tok, range)) => match operand_at(src, tok, range, st.moved()) {
            Outcome::Wrong(e, st1) => Outcome::Wrong(e, st1),
            Outcome::Abort => Outcome::Abort,
            Outcome::Done(expr, st1) => cast(src, expr, st1),
        },
    }
}

/// An expression, cast if `as` follows.
pub open spec fn cast(src: SourceV, expr: ExprV<ParsedV>, st: ParseState) -> Outcome<
    ExprV<ParsedV>,
> {
    if st.is_at(TokenV::Keyword(Keyword::As)) {
        match type_at(src, st.moved()) {
            Outcome::Wrong(e, st1) => Outcome::Wrong(e, st1),
            Outcome::Abort => Outcome::Abort,
            Outcome::Done(typ, st1) => match st1.last_end() {
                None => Outcome::Abort,
                Some(end) => Outcome::Done(
                    untyped(
                        ExprInnerV::Cast(Box::new(expr), typ),
                        src.between(expr.span.range.start, end),
                    ),
                    st1,
                ),
            },
        }
    } else {
        Outcome::Done(expr, st)
    }
}

/// The two's complement of a number.
pub open spec fn negative(n: u64) -> u64 {
    if n == 0 {
        0
    } else {
        (0x1_0000_0000_0000_0000 - n) as u64
    }
}

/// A minus sign at `range` in front of an expression. A constant is negated right away.
pub open spec fn negated(
    src: SourceV,
    range: TextRange,
    expr: ExprV<ParsedV>,
    st: ParseState,
) -> Outcome<ExprV<ParsedV>> {
    match expr.inner {
        ExprInnerV::Const(n, typ) => if typ is Some && types::primitive_sign(typ->0) == Some(
            Sign::Unsigned,
        ) {
            Outcome::Wrong(
                ErrorV::simple(
                    src.span(range),
                    "cannot negate an unsigned integer"@,
                    "negate operator not applicable to type "@ + types::primitive_name(typ->0),
                ),
                st,
            )
        } else if n == 0x8000_0000_0000_0000 {
            Outcome::Abort
        } else {
            Outcome::Done(
                untyped(ExprInnerV::Const(negative(n), Some(Primitive::I64)), src.span(range)),
                st,
            )
        },
        _ => Outcome::Done(untyped(ExprInnerV::Negate(Box::new(expr)), src.span(range)), st),
    }
}

/// A variable behind the token at `range`.
pub open spec fn variable_behind(
    src: SourceV,
    range: TextRange,
    message: Seq<char>,
    st: ParseState,
) -> Outcome<(Seq<char>, usize)> {
    match st.current() {
        None => Outcome::Abort,
        Some((tok, var_range)) => match tok {
            TokenV::Ident(var) => Outcome::Done((var, var_range.end), st.moved()),
            _ => Outcome::Wrong(
                ErrorV::at(src.span(range)).says(message).label(
                    src.span(var_range),
                    "expected variable"@,
                ),
                st.moved(),
            ),
        },
    }
}

/// The operand that begins with the token `tok`, which was taken.
pub open spec fn operand_at(
    src: SourceV,
    tok: TokenV,
    range: TextRange,
    st: ParseState,
) -> Outcome<ExprV<ParsedV>>
    decreases st.left(), 3int,
{
    match tok {
        TokenV::Number(n, typ) => Outcome::Done(
            untyped(ExprInnerV::Const(n, typ), src.span(range)),
            st,
        ),
        TokenV::Reference => match variable_behind(src, range, "invalid pointer"@, st) {
            Outcome::Wrong(e, st1) => Outcome::Wrong(e, st1),
            Outcome::Abort => Outcome::Abort,
            Outcome::Done((var, end), st1) => Outcome::Done(
                untyped(ExprInnerV::Pointer(var), src.between(range.start, end)),
                st1,
            ),
        },
        TokenV::Operator(Operator::Star) => match variable_behind(
            src,
            range,
            "invalid pointer deref"@,
            st,
        ) {
            Outcome::Wrong(e, st1) => Outcome::Wrong(e, st1),
            Outcome::Abort => Outcome::Abort,
            Outcome::Done((var, end), st1) => Outcome::Done(
                untyped(ExprInnerV::Deref(var, None), src.between(range.start, end)),
                st1,
            ),
        },
        TokenV::Operator(Operator::Minus) => match single_at(src, st) {
            Outcome::Wrong(e, st1) => Outcome::Wrong(e, st1),
            Outcome::Abort => Outcome::Abort,
            Outcome::Done(expr, st1) => negated(src, range, expr, st1),
        },
        TokenV::Operator(Operator::Not) => match single_at(src, st) {
            Outcome::Wrong(e, st1) => Outcome::Wrong(e, st1),
            Outcome::Abort => Outcome::Abort,
            Outcome::Done(expr, st1) => Outcome::Done(
                untyped(ExprInnerV::Not(Box::new(expr)), src.span(range)),
                st1,
            ),
        },
        TokenV::Ident(_) => ident_at(src, range.start, st),
        TokenV::Character(c) => Outcome::Done(
            untyped(ExprInnerV::Character(c), src.span(range)),
            st,
        ),
        TokenV::String(s) => Outcome::Done(untyped(ExprInnerV::String(s), src.span(range)), st),
        TokenV::Bool(b) => Outcome::Done(untyped(ExprInnerV::Bool(b), src.span(range)), st),
        TokenV::LeftParenthesis => match expr_at(src, st) {
            Outcome::Wrong(e, st1) => Outcome::Wrong(e, st1),
            Outcome::Abort => Outcome::Abort,
            Outcome::Done(expr, st1) => match expected(
                src,
                st1,
                TokenV::RightParenthesis,
                "expected closing parenthesis"@,
            ) {
                Outcome::Wrong(e, st2) => Outcome::Wrong(e, st2),
                Outcome::Abort => Outcome::Abort,
                Outcome::Done(_, st2) => Outcome::Done(expr, st2),
            },
        },
        TokenV::Keyword(Keyword::SizeOf) => sizeof_at(src, range.start, st),
        TokenV::LeftBracket => construct_at(src, st),
        _ => Outcome::Wrong(
            ErrorV::unexpected_token(src.span(range), "invalid expression"@),
            st,
        ),
    }
}

/// A type in parentheses, behind a `sizeof` that begins at `start`.
pub open spec fn sizeof_at(src: SourceV, start: usize, st: ParseState) -> Outcome<ExprV<ParsedV>> {
    match expected(src, st, TokenV::LeftParenthesis, "expected opening parenthesis"@) {
        Outcome::Wrong(e, st1) => Outcome::Wrong(e, st1),
        Outcome::Abort => Outcome::Abort,
        Outcome::Done(_, st1) => match type_at(src, st1) {
            Outcome::Wrong(e, st2) => Outcome::Wrong(e, st2),
            Outcome::Abort => Outcome::Abort,
            Outcome::Done(typ, st2) => match expected(
                src,
                st2,
                TokenV::RightParenthesis,
                "expected closing parentehsis"@,
            ) {
                Outcome::Wrong(e, st3) => Outcome::Wrong(e, st3),
                Outcome::Abort => Outcome::Abort,
                Outcome::Done(_, st3) => match st3.last_end() {
                    None => Outcome::Abort,
                    Some(end) => Outcome::Done(
                        untyped(ExprInnerV::SizeOf(typ), src.between(start, end)),
                        st3,
                    ),
                },
            },
        },
    }
}

/// A type in brackets, of which the opening one was taken, and a pair of braces.
pub open spec fn construct_at(src: SourceV, st: ParseState) -> Outcome<ExprV<ParsedV>> {
    match st.last_end() {
        None => Outcome::Abort,
        Some(end) => if end == 0 {
            Outcome::Abort
        } else {
            match type_at(src, st) {
                Outcome::Wrong(e, st1) => Outcome::Wrong(e, st1),
                Outcome::Abort => Outcome::Abort,
                Outcome::Done(typ, st1) => match construct_rest(src, st1) {
                    Outcome::Wrong(e, st2) => Outcome::Wrong(e, st2),
                    Outcome::Abort => Outcome::Abort,
                    Outcome::Done(last, st2) => Outcome::Done(
                        untyped(
                            ExprInnerV::Construct { typ, fields: Seq::empty() },
                            src.between((end - 1) as usize, last),
                        ),
                        st2,
                    ),
                },
            }
        },
    }
}

pub open spec fn construct_rest(src: SourceV, st: ParseState) -> Outcome<usize> {
    match expected(src, st, TokenV::RightBracket, "expected closing bracket"@) {
        Outcome::Wrong(e, st1) => Outcome::Wrong(e, st1),
        Outcome::Abort => Outcome::Abort,
        Outcome::Done(_, st1) => match expected(
            src,
            st1,
            TokenV::LeftCurlyBracket,
            "expected opening brace"@,
        ) {
            Outcome::Wrong(e, st2) => Outcome::Wrong(e, st2),
            Outcome::Abort => Outcome::Abort,
            Outcome::Done(_, st2) => match expected(
                src,
                st2,
                TokenV::RightCurlyBracket,
                "expected closeing brace"@,
            ) {
                Outcome::Wrong(e, st3) => Outcome::Wrong(e, st3),
                Outcome::Abort => Outcome::Abort,
                Outcome::Done(_, st3) => match st3.last_end() {
                    None => Outcome::Abort,
                    Some(end) => Outcome::Done(end, st3),
                },
            },
        },
    }
}

/// Ends an expression that begins at `start` with a closing token.
pub open spec fn closed_by(
    src: SourceV,
    start: usize,
    inner: ExprInnerV<ParsedV>,
    st: ParseState,
    close: TokenV,
    message: Seq<char>,
) -> Outcome<ExprV<ParsedV>> {
    match expected(src, st, close, message) {
        Outcome::Wrong(e, st1) => Outcome::Wrong(e, st1),
        Outcome::Abort => Outcome::Abort,
        Outcome::Done(_, st1) => match st1.last_end() {
            None => Outcome::Abort,
            Some(end) => Outcome::Done(untyped(inner, src.between(start, end)), st1),
        },
    }
}

/// A variable, a call or an access by index. Its first name begins at `start` and was taken.
pub open spec fn ident_at(src: SourceV, start: usize, st: ParseState) -> Outcome<ExprV<ParsedV>>
    decreases st.left(), 2int,
{
    match path_rest(src, st, start) {
        Outcome::Wrong(e, st1) => Outcome::Wrong(e, st1),
        Outcome::Abort => Outcome::Abort,
        Outcome::Done(name, st1) => match st1.last_end() {
            None => Outcome::Abort,
            Some(end) => {
                let ident = untyped(ExprInnerV::Ident(name), src.between(start, end));
                let st2 = st1.moved();
                if st1.is_at(TokenV::LeftParenthesis) {
                    if st2.ahead_of(st) {
                        match args_at(src, st2, Seq::empty()) {
                            Outcome::Wrong(e, st3) => Outcome::Wrong(e, st3),
                            Outcome::Abort => Outcome::Abort,
                            Outcome::Done(args, st3) => closed_by(
                                src,
                                start,
                                ExprInnerV::FnCall(FnPtrV::Expr(Box::new(ident)), args),
                                st3,
                                TokenV::RightParenthesis,
                                "expected closing parenthesis"@,
                            ),
                        }
                    } else {
                        Outcome::Abort
                    }
                } else if st1.is_at(TokenV::LeftBracket) {
                    if st2.ahead_of(st) {
                        match expr_at(src, st2) {
                            Outcome::Wrong(e, st3) => Outcome::Wrong(e, st3),
                            Outcome::Abort => Outcome::Abort,
                            Outcome::Done(index, st3) => closed_by(
                                src,
                                start,
                                ExprInnerV::Index {
                                    data: Box::new(ident),
                                    index: Box::new(index),
                                    val_size: None,
                                },
                                st3,
                                TokenV::RightBracket,
                                "expected closing bracket"@,
                            ),
                        }
                    } else {
                        Outcome::Abort
                    }
                } else {
                    Outcome::Done(ident, st1)
                }
            },
        },
    }
}

/// The arguments of a call, behind those in `args`, up to the closing parenthesis.
pub open spec fn args_at(src: SourceV, st: ParseState, args: Seq<ExprV<ParsedV>>) -> Outcome<
    Seq<ExprV<ParsedV>>,
>
    decreases st.left(), 3int,
{
    if st.is_at(TokenV::RightParenthesis) {
        Outcome::Done(args, st)
    } else {
        let comma = if args.len() == 0 {
            Outcome::Done((), st)
        } else {
            expected(src, st, TokenV::Comma, "expected comma"@)
        };
        match comma {
            Outcome::Wrong(e, st1) => Outcome::Wrong(e, st1),
            Outcome::Abort => Outcome::Abort,
            Outcome::Done(_, st1) => match expr_at(src, st1) {
                Outcome::Wrong(e, st2) => Outcome::Wrong(e, st2),
                Outcome::Abort => Outcome::Abort,
                Outcome::Done(arg, st2) => if st2.ahead_of(st) {
                    args_at(src, st2, args.push(arg))
                } else {
                    Outcome::Abort
                },
            },
        }
    }
}

/// What can be assigned to.
pub open spec fn target(inner: ExprInnerV<ParsedV>) -> Option<AssignableV<ParsedV>> {
    match inner {
        ExprInnerV::Ident(var) => Some(AssignableV::Var(var)),
        ExprInnerV::Deref(var, None) => Some(AssignableV::Ptr(var, None)),
        ExprInnerV::Index { data, index, val_size } => Some(
            AssignableV::Index { data: *data, index: *index, val_size },
        ),
        ExprInnerV::MemberAccess(parent, member, _) => Some(
            AssignableV::MemberAccess(*parent, member),
        ),
        _ => None,
    }
}

/// An expression with a semicolon behind it.
pub open spec fn ended_expr(src: SourceV, st: ParseState) -> Outcome<ExprV<ParsedV>> {
    match expr_at(src, st) {
        Outcome::Wrong(e, st1) => Outcome::Wrong(e, st1),
        Outcome::Abort => Outcome::Abort,
        Outcome::Done(expr, st1) => match semicolon(src, st1) {
            Outcome::Wrong(e, st2) => Outcome::Wrong(e, st2),
            Outcome::Abort => Outcome::Abort,
            Outcome::Done(_, st2) => Outcome::Done(expr, st2),
        },
    }
}

/// An assignment of what follows to `lhs`, by the operator `op`.
pub open spec fn assignment(
    src: SourceV,
    var_span: Span,
    lhs: ExprV<ParsedV>,
    op: Option<Operator>,
    op_range: TextRange,
    st: ParseState,
) -> Outcome<StmtV<ParsedV>> {
    match target(lhs.inner) {
        None => Outcome::Wrong(
            ErrorV::simple(
                lhs.span,
                "invalid assignment"@,
                "only variables, derefs, indexing and member access allowed"@,
            ),
            st,
        ),
        Some(var) => match ended_expr(src, st) {
            Outcome::Wrong(e, st1) => Outcome::Wrong(e, st1),
            Outcome::Abort => Outcome::Abort,
            Outcome::Done(rhs, st1) => match op {
                None => Outcome::Done(StmtV::Assign { var, expr: rhs, var_span }, st1),
                Some(op) => match token::arithmetic_of(op) {
                    None => Outcome::Wrong(
                        ErrorV::simple(
                            src.span(op_range),
                            "invalid assign operator"@,
                            "expected +=, -=, *= or /="@,
                        ),
                        st1,
                    ),
                    Some(arith) => Outcome::Done(
                        StmtV::Assign {
                            var,
                            expr: untyped(
                                ExprInnerV::Arithmetic(Box::new(lhs), Box::new(rhs), arith, None),
                                src.between(lhs.span.range.start, rhs.span.range.end),
                            ),
                            var_span,
                        },
                        st1,
                    ),
                },
            },
        },
    }
}

/// The declaration of `lhs` with the value that follows.
pub open spec fn declaration(
    src: SourceV,
    var_span: Span,
    lhs: ExprV<ParsedV>,
    st: ParseState,
) -> Outcome<StmtV<ParsedV>> {
    match lhs.inner {
        ExprInnerV::Ident(var) => match ended_expr(src, st) {
            Outcome::Wrong(e, st1) => Outcome::Wrong(e, st1),
            Outcome::Abort => Outcome::Abort,
            Outcome::Done(expr, st1) => Outcome::Done(
                StmtV::Declare { var, expr, var_span, explicit_type: None },
                st1,
            ),
        },
        _ => Outcome::Wrong(
            ErrorV::simple(
                lhs.span,
                "invalid assignment"@,
                "only variables are allowed in assignments"@,
            ),
            st,
        ),
    }
}

/// A statement that begins with an expression.
pub open spec fn expr_stmt(src: SourceV, range: TextRange, st: ParseState) -> Outcome<
    StmtV<ParsedV>,
> {
    match expr_at(src, st) {
        Outcome::Wrong(e, st1) => Outcome::Wrong(e, st1),
        Outcome::Abort => Outcome::Abort,
        Outcome::Done(expr, st1) => match st1.current() {
            None => Outcome::Abort,
            Some((tok, tok_range)) => match tok {
                TokenV::Semicolon => Outcome::Done(StmtV::Expr(expr), st1.moved()),
                TokenV::Assign(op) => assignment(
                    src,
                    src.span(range),
                    expr,
                    op,
                    tok_range,
                    st1.moved(),
                ),
                TokenV::Declare => declaration(src, src.span(range), expr, st1.moved()),
                _ => Outcome::Wrong(
                    ErrorV::unexpected_token(src.span(tok_range), "expected ';', '=' or ':='"@),
                    st1.moved(),
                ),
            },
        },
    }
}

pub open spec fn stmt_at(src: SourceV, st: ParseState) -> Outcome<StmtV<ParsedV>>
    decreases st.left(), 0int,
{
    match st.current() {
        None => Outcome::Abort,
        Some((tok, range)) => match tok {
            TokenV::Keyword(keyword) => keyword_at(src, keyword, range, st.moved()),
            _ => expr_stmt(src, range, st),
        },
    }
}

/// The statement that begins with a keyword, which was taken.
pub open spec fn keyword_at(src: SourceV, keyword: Keyword, range: TextRange, st: ParseState) -> Outcome<
    StmtV<ParsedV>,
>
    decreases st.left(), 4int,
{
    match keyword {
        Keyword::Return => match ended_expr(src, st) {
            Outcome::Wrong(e, st1) => Outcome::Wrong(e, st1),
            Outcome::Abort => Outcome::Abort,
            Outcome::Done(expr, st1) => Outcome::Done(StmtV::Return(expr), st1),
        },
        Keyword::If => match guarded_at(src, st) {
            Outcome::Wrong(e, st1) => Outcome::Wrong(e, st1),
            Outcome::Abort => Outcome::Abort,
            Outcome::Done((guard, body), st1) => Outcome::Done(StmtV::If { guard, body }, st1),
        },
        Keyword::While => match guarded_at(src, st) {
            Outcome::Wrong(e, st1) => Outcome::Wrong(e, st1),
            Outcome::Abort => Outcome::Abort,
            Outcome::Done((guard, body), st1) => Outcome::Done(
                StmtV::WhileLoop { guard, body },
                st1,
            ),
        },
        _ => Outcome::Wrong(
            ErrorV::unexpected_token(src.span(range), "unexpected keyword"@),
            st,
        ),
    }
}

/// An expression and a block.
pub open spec fn guarded_at(src: SourceV, st: ParseState) -> Outcome<
    (ExprV<ParsedV>, Seq<StmtV<ParsedV>>),
>
    decreases st.left(), 3int,
{
    match expr_at(src, st) {
        Outcome::Wrong(e, st1) => Outcome::Wrong(e, st1),
        Outcome::Abort => Outcome::Abort,
        Outcome::Done(guard, st1) => if st1.ahead_of(st) {
            match block_at(src, st1) {
                Outcome::Wrong(e, st2) => Outcome::Wrong(e, st2),
                Outcome::Abort => Outcome::Abort,
                Outcome::Done(body, st2) => Outcome::Done((guard, body), st2),
            }
        } else {
            Outcome::Abort
        },
    }
}

pub open spec fn block_at(src: SourceV, st: ParseState) -> Outcome<Seq<StmtV<ParsedV>>>
    decreases st.left(), 2int,
{
    match expected(src, st, TokenV::LeftCurlyBracket, "expected block"@) {
        Outcome::Wrong(e, st1) => Outcome::Wrong(e, st1),
        Outcome::Abort => Outcome::Abort,
        Outcome::Done(_, st1) => stmts_at(src, st1, Seq::empty()),
    }
}

/// The statements of a block, behind those in `stmts`. A statement that is in error is reported
/// and left out, up to the next semicolon.
pub open spec fn stmts_at(src: SourceV, st: ParseState, stmts: Seq<StmtV<ParsedV>>) -> Outcome<
    Seq<StmtV<ParsedV>>,
>
    decreases st.left(), 1int,
{
    if st.current() is None {
        Outcome::Abort
    } else if st.is_at(TokenV::RightCurlyBracket) {
        Outcome::Done(stmts, st.moved())
    } else {
        match stmt_at(src, st) {
            Outcome::Done(stmt, st1) => if st1.ahead_of(st) {
                stmts_at(src, st1, stmts.push(stmt))
            } else {
                Outcome::Abort
            },
            Outcome::Wrong(e, st1) => {
                let st2 = behind_semicolon(st1.reported(e));
                if st2.ahead_of(st) {
                    stmts_at(src, st2, stmts)
                } else {
                    Outcome::Abort
                }
            },
            Outcome::Abort => Outcome::Abort,
        }
    }
}

/// The arguments of a declaration, behind those in `args`.
pub open spec fn decl_args_at(
    src: SourceV,
    st: ParseState,
    args: Seq<(Seq<char>, ParsedV, Span)>,
) -> Outcome<Seq<(Seq<char>, ParsedV, Span)>>
    decreases st.left(),
{
    match st.current() {
        Some((TokenV::Ident(name), range)) => match expected(
            src,
            st.moved(),
            TokenV::Colon,
            "expected colon and argument type"@,
        ) {
            Outcome::Wrong(e, st1) => Outcome::Wrong(e, st1),
            Outcome::Abort => Outcome::Abort,
            Outcome::Done(_, st1) => match type_at(src, st1) {
                Outcome::Wrong(e, st2) => Outcome::Wrong(e, st2),
                Outcome::Abort => Outcome::Abort,
                Outcome::Done(typ, st2) => match st2.last_end() {
                    None => Outcome::Abort,
                    Some(end) => {
                        let comma = if st2.is_at(TokenV::RightParenthesis) {
                            Outcome::Done((), st2)
                        } else {
                            expected(src, st2, TokenV::Comma, "expected comma"@)
                        };
                        match comma {
                            Outcome::Wrong(e, st3) => Outcome::Wrong(e, st3),
                            Outcome::Abort => Outcome::Abort,
                            Outcome::Done(_, st3) => if st3.ahead_of(st) {
                                decl_args_at(
                                    src,
                                    st3,
                                    args.push((name, typ, src.between(range.start, end))),
                                )
                            } else {
                                Outcome::Abort
                            },
                        }
                    },
                },
            },
        },
        _ => Outcome::Done(args, st),
    }
}

/// The type behind an arrow, or the unit type where there is none.
pub open spec fn ret_at(src: SourceV, st: ParseState) -> Outcome<ParsedV> {
    if st.is_at(TokenV::Arrow) {
        type_at(src, st.moved())
    } else {
        match st.current() {
            None => Outcome::Abort,
            Some((_, range)) => if range.start == usize::MAX {
                Outcome::Abort
            } else {
                Outcome::Done(
                    (
                        ParsedTypeV::Primitive(Primitive::Unit),
                        src.between(range.start, (range.start + 1) as usize),
                    ),
                    st,
                )
            },
        }
    }
}

/// The arguments of a function in parentheses, and its type.
pub open spec fn signature_at(src: SourceV, st: ParseState) -> Outcome<
    (Seq<(Seq<char>, ParsedV, Span)>, ParsedV),
> {
    match expected(src, st, TokenV::LeftParenthesis, "expected opening parenthesis"@) {
        Outcome::Wrong(e, st1) => Outcome::Wrong(e, st1),
        Outcome::Abort => Outcome::Abort,
        Outcome::Done(_, st1) => match decl_args_at(src, st1, Seq::empty()) {
            Outcome::Wrong(e, st2) => Outcome::Wrong(e, st2),
            Outcome::Abort => Outcome::Abort,
            Outcome::Done(args, st2) => match expected(
                src,
                st2,
                TokenV::RightParenthesis,
                "expected argument or closing parenthesis"@,
            ) {
                Outcome::Wrong(e, st3) => Outcome::Wrong(e, st3),
                Outcome::Abort => Outcome::Abort,
                Outcome::Done(_, st3) => match ret_at(src, st3) {
                    Outcome::Wrong(e, st4) => Outcome::Wrong(e, st4),
                    Outcome::Abort => Outcome::Abort,
                    Outcome::Done(ret, st4) => Outcome::Done((args, ret), st4),
                },
            },
        },
    }
}

/// A function whose keyword begins at `start` and was taken.
pub open spec fn function_at(src: SourceV, start: usize, st: ParseState) -> Outcome<
    ItemV<ParsedV>,
> {
    match st.current() {
        None => Outcome::Abort,
        Some((tok, range)) => {
            let (name, st1) = match tok {
                TokenV::Ident(name) => (name, st.moved()),
                _ => (
                    "???"@,
                    st.moved().reported(
                        ErrorV::unexpected_token(src.span(range), "expected function name"@),
                    ),
                ),
            };
            match signature_at(src, st1) {
                Outcome::Wrong(e, st2) => Outcome::Wrong(e, st2),
                Outcome::Abort => Outcome::Abort,
                Outcome::Done((args, ret_type), st2) => match st2.last_end() {
                    None => Outcome::Abort,
                    Some(end) => {
                        let decl_span = src.between(start, end);
                        if st2.is_at(TokenV::Semicolon) {
                            Outcome::Done(
                                ItemV::ForwardDecl { name, args, ret_type, decl_span },
                                st2.moved(),
                            )
                        } else {
                            match block_at(src, st2) {
                                Outcome::Wrong(e, st3) => Outcome::Wrong(e, st3),
                                Outcome::Abort => Outcome::Abort,
                                Outcome::Done(body, st3) => Outcome::Done(
                                    ItemV::Function(
                                        FnDefV { name, args, body, decl_span, ret_type },
                                    ),
                                    st3,
                                ),
                            }
                        }
                    },
                },
            }
        },
    }
}

/// The name behind a keyword.
pub open spec fn name_at(src: SourceV, message: Seq<char>, label: Seq<char>, st: ParseState) -> Outcome<
    (Seq<char>, TextRange),
> {
    match st.current() {
        None => Outcome::Abort,
        Some((tok, range)) => match tok {
            TokenV::Ident(name) => Outcome::Done((name, range), st.moved()),
            _ => Outcome::Wrong(ErrorV::simple(src.span(range), message, label), st.moved()),
        },
    }
}

/// The fields of a struct, behind those in `fields`, up to the closing bracket.
pub open spec fn fields_at(
    src: SourceV,
    st: ParseState,
    fields: Seq<(Seq<char>, ParsedV, Span)>,
) -> Outcome<Seq<(Seq<char>, ParsedV, Span)>>
    decreases st.left(),
{
    if st.is_at(TokenV::RightCurlyBracket) {
        Outcome::Done(fields, st)
    } else {
        match name_at(src, "invalid struct field"@, "expected field name"@, st) {
            Outcome::Wrong(e, st1) => Outcome::Wrong(e, st1),
            Outcome::Abort => Outcome::Abort,
            Outcome::Done((name, range), st1) => match expected(
                src,
                st1,
                TokenV::Colon,
                "expected colon"@,
            ) {
                Outcome::Wrong(e, st2) => Outcome::Wrong(e, st2),
                Outcome::Abort => Outcome::Abort,
                Outcome::Done(_, st2) => match type_at(src, st2) {
                    Outcome::Wrong(e, st3) => Outcome::Wrong(e, st3),
                    Outcome::Abort => Outcome::Abort,
                    Outcome::Done(typ, st3) => match st3.last_end() {
                        None => Outcome::Abort,
                        Some(end) => {
                            let st4 = if st3.is_at(TokenV::Comma) {
                                st3.moved()
                            } else {
                                st3
                            };
                            if st4.ahead_of(st) {
                                fields_at(
                                    src,
                                    st4,
                                    fields.push((name, typ, src.between(range.start, end))),
                                )
                            } else {
                                Outcome::Abort
                            }
                        },
                    },
                },
            },
        }
    }
}

pub open spec fn struct_at(src: SourceV, st: ParseState) -> Outcome<ItemV<ParsedV>> {
    match name_at(src, "invalid struct definition"@, "expected type name"@, st) {
        Outcome::Wrong(e, st1) => Outcome::Wrong(e, st1),
        Outcome::Abort => Outcome::Abort,
        Outcome::Done((name, range), st1) => match expected(
            src,
            st1,
            TokenV::LeftCurlyBracket,
            "expected opening curly bracket"@,
        ) {
            Outcome::Wrong(e, st2) => Outcome::Wrong(e, st2),
            Outcome::Abort => Outcome::Abort,
            Outcome::Done(_, st2) => match fields_at(src, st2, Seq::empty()) {
                Outcome::Wrong(e, st3) => Outcome::Wrong(e, st3),
                Outcome::Abort => Outcome::Abort,
                Outcome::Done(fields, st3) => match expected(
                    src,
                    st3,
                    TokenV::RightCurlyBracket,
                    "expected closing curly bracket"@,
                ) {
                    Outcome::Wrong(e, st4) => Outcome::Wrong(e, st4),
                    Outcome::Abort => Outcome::Abort,
                    Outcome::Done(_, st4) => Outcome::Done(
                        ItemV::Struct { name, decl_span: src.span(range), fields },
                        st4,
                    ),
                },
            },
        },
    }
}

/// The functions of an implementation, behind those in `functions`.
pub open spec fn functions_at(src: SourceV, st: ParseState, functions: Seq<FnDefV<ParsedV>>) -> Outcome<
    Seq<FnDefV<ParsedV>>,
>
    decreases st.left(),
{
    if st.is_at(TokenV::Keyword(Keyword::Function)) {
        let start = (st.current()->0).1.start;
        match function_at(src, start, st.moved()) {
            Outcome::Wrong(e, st1) => Outcome::Wrong(e, st1),
            Outcome::Abort => Outcome::Abort,
            Outcome::Done(item, st1) => match item {
                ItemV::Function(def) => if st1.ahead_of(st) {
                    functions_at(src, st1, functions.push(def))
                } else {
                    Outcome::Abort
                },
                _ => match st1.last_end() {
                    None => Outcome::Abort,
                    Some(end) => Outcome::Wrong(
                        ErrorV::simple(
                            src.between(start, end),
                            "invalid function definition"@,
                            "only function implementations allowed"@,
                        ),
                        st1,
                    ),
                },
            },
        }
    } else {
        Outcome::Done(functions, st)
    }
}

pub open spec fn impl_at(src: SourceV, st: ParseState) -> Outcome<ItemV<ParsedV>> {
    match name_at(src, "invalid struct definition"@, "expected type name"@, st) {
        Outcome::Wrong(e, st1) => Outcome::Wrong(e, st1),
        Outcome::Abort => Outcome::Abort,
        Outcome::Done((name, _), st1) => match expected(
            src,
            st1,
            TokenV::LeftCurlyBracket,
            "expected opening curly bracket"@,
        ) {
            Outcome::Wrong(e, st2) => Outcome::Wrong(e, st2),
            Outcome::Abort => Outcome::Abort,
            Outcome::Done(_, st2) => match functions_at(src, st2, Seq::empty()) {
                Outcome::Wrong(e, st3) => Outcome::Wrong(e, st3),
                Outcome::Abort => Outcome::Abort,
                Outcome::Done(functions, st3) => match expected(
                    src,
                    st3,
                    TokenV::RightCurlyBracket,
                    "expected closing curly bracket"@,
                ) {
                    Outcome::Wrong(e, st4) => Outcome::Wrong(e, st4),
                    Outcome::Abort => Outcome::Abort,
                    Outcome::Done(_, st4) => Outcome::Done(
                        ItemV::Impl { struct_name: name, functions },
                        st4,
                    ),
                },
            },
        },
    }
}

pub open spec fn memory_at(src: SourceV, st: ParseState) -> Outcome<ItemV<ParsedV>> {
    match name_at(src, "invalid memory statement"@, "expected identifier"@, st) {
        Outcome::Wrong(e, st1) => Outcome::Wrong(e, st1),
        Outcome::Abort => Outcome::Abort,
        Outcome::Done((name, _), st1) => match expected(
            src,
            st1,
            TokenV::Colon,
            "expected memory segment type"@,
        ) {
            Outcome::Wrong(e, st2) => Outcome::Wrong(e, st2),
            Outcome::Abort => Outcome::Abort,
            Outcome::Done(_, st2) => match type_at(src, st2) {
                Outcome::Wrong(e, st3) => Outcome::Wrong(e, st3),
                Outcome::Abort => Outcome::Abort,
                Outcome::Done(typ, st3) => match semicolon(src, st3) {
                    Outcome::Wrong(e, st4) => Outcome::Wrong(e, st4),
                    Outcome::Abort => Outcome::Abort,
                    Outcome::Done(_, st4) => Outcome::Done(
                        ItemV::MemorySegment { name, typ },
                        st4,
                    ),
                },
            },
        },
    }
}

/// A name with a semicolon behind it.
pub open spec fn ended_name(src: SourceV, message: Seq<char>, label: Seq<char>, st: ParseState) -> Outcome<
    (Seq<char>, TextRange),
> {
    match name_at(src, message, label, st) {
        Outcome::Wrong(e, st1) => Outcome::Wrong(e, st1),
        Outcome::Abort => Outcome::Abort,
        Outcome::Done(name, st1) => match semicolon(src, st1) {
            Outcome::Wrong(e, st2) => Outcome::Wrong(e, st2),
            Outcome::Abort => Outcome::Abort,
            Outcome::Done(_, st2) => Outcome::Done(name, st2),
        },
    }
}

/// What stands at the top level of a file.
pub enum EntryV {
    Item(ItemV<ParsedV>),
    Import(Seq<char>, Span),
    Package(Seq<char>),
    Module(Seq<char>, Span),
}

pub open spec fn import_at(src: SourceV, st: ParseState) -> Outcome<EntryV> {
    match st.current() {
        None => Outcome::Abort,
        Some((_, range)) => match expected_ident(src, st, "expected path to package item"@) {
            Outcome::Wrong(e, st1) => Outcome::Wrong(e, st1),
            Outcome::Abort => Outcome::Abort,
            Outcome::Done(_, st1) => match path_rest(src, st1, range.start) {
                Outcome::Wrong(e, st2) => Outcome::Wrong(e, st2),
                Outcome::Abort => Outcome::Abort,
                Outcome::Done(path, st2) => match semicolon(src, st2) {
                    Outcome::Wrong(e, st3) => Outcome::Wrong(e, st3),
                    Outcome::Abort => Outcome::Abort,
                    Outcome::Done(_, st3) => match st3.last_end() {
                        None => Outcome::Abort,
                        Some(end) => if end == 0 {
                            Outcome::Abort
                        } else {
                            Outcome::Done(
                                EntryV::Import(path, src.between(range.start, (end - 1) as usize)),
                                st3,
                            )
                        },
                    },
                },
            },
        },
    }
}

pub open spec fn module_at(src: SourceV, st: ParseState) -> Outcome<EntryV> {
    match ended_name(src, "unexpected token"@, "expected module identifier"@, st) {
        Outcome::Wrong(e, st1) => Outcome::Wrong(e, st1),
        Outcome::Abort => Outcome::Abort,
        Outcome::Done((name, range), st1) => match st1.last_end() {
            None => Outcome::Abort,
            Some(end) => Outcome::Done(EntryV::Module(name, src.between(range.start, end)), st1),
        },
    }
}

/// An item as an entry of a file.
pub open spec fn entry_of(item: Outcome<ItemV<ParsedV>>) -> Outcome<EntryV> {
    match item {
        Outcome::Wrong(e, st) => Outcome::Wrong(e, st),
        Outcome::Abort => Outcome::Abort,
        Outcome::Done(item, st) => Outcome::Done(EntryV::Item(item), st),
    }
}

pub open spec fn entry_at(src: SourceV, st: ParseState) -> Outcome<EntryV> {
    match st.current() {
        None => Outcome::Abort,
        Some((tok, range)) => {
            let st1 = st.moved();
            match tok {
                TokenV::Keyword(Keyword::Function) => entry_of(function_at(src, range.start, st1)),
                TokenV::Keyword(Keyword::Extern) => match ended_name(
                    src,
                    "unexpected token"@,
                    "expected library name"@,
                    st1,
                ) {
                    Outcome::Wrong(e, st2) => Outcome::Wrong(e, st2),
                    Outcome::Abort => Outcome::Abort,
                    Outcome::Done((name, _), st2) => Outcome::Done(
                        EntryV::Item(ItemV::ExternLib(name)),
                        st2,
                    ),
                },
                TokenV::Keyword(Keyword::Memory) => entry_of(memory_at(src, st1)),
                TokenV::Keyword(Keyword::Struct) => entry_of(struct_at(src, st1)),
                TokenV::Keyword(Keyword::Impl) => entry_of(impl_at(src, st1)),
                TokenV::Keyword(Keyword::Use) => import_at(src, st1),
                TokenV::Keyword(Keyword::Package) => match ended_name(
                    src,
                    "unexpected token"@,
                    "expected package identifier"@,
                    st1,
                ) {
                    Outcome::Wrong(e, st2) => Outcome::Wrong(e, st2),
                    Outcome::Abort => Outcome::Abort,
                    Outcome::Done((name, _), st2) => Outcome::Done(EntryV::Package(name), st2),
                },
                TokenV::Keyword(Keyword::Module) => module_at(src, st1),
                TokenV::Keyword(_) => Outcome::Wrong(
                    ErrorV::unexpected_token(
                        src.span(range),
                        "expected function or extern import"@,
                    ),
                    st1,
                ),
                _ => Outcome::Wrong(
                    ErrorV::unexpected_token(src.span(range), "expected keyword"@),
                    st1,
                ),
            }
        },
    }
}

/// The tree with one more entry.
pub open spec fn entered(tree: AstV<ParsedV>, entry: EntryV) -> AstV<ParsedV> {
    match entry {
        EntryV::Item(item) => AstV { items: tree.items.push(item), ..tree },
        EntryV::Import(path, span) => AstV { imports: tree.imports.push((path, span)), ..tree },
        EntryV::Package(name) => AstV { package: Some(name), ..tree },
        EntryV::Module(name, span) => AstV { modules: tree.modules.push((name, span)), ..tree },
    }
}

/// The tree of a file of which `tree` was built, with the errors that are reported. An entry that
/// is in error is reported and left out. `None` where parsing cannot go on.
pub open spec fn entries_at(src: SourceV, st: ParseState, tree: AstV<ParsedV>) -> Option<
    (AstV<ParsedV>, Seq<ErrorV>),
>
    decreases st.left(),
{
    if st.current() is None {
        Some((tree, st.errs))
    } else {
        match entry_at(src, st) {
            Outcome::Done(entry, st1) => if st1.ahead_of(st) {
                entries_at(src, st1, entered(tree, entry))
            } else {
                None
            },
            Outcome::Wrong(e, st1) => if st1.ahead_of(st) {
                entries_at(src, st1.reported(e), tree)
            } else {
                None
            },
            Outcome::Abort => None,
        }
    }
}

/// The tree of a file with the given tokens, and the errors that are reported.
pub open spec fn parsing(toks: TokensV, text: Seq<char>, file: FileId) -> Option<
    (AstV<ParsedV>, Seq<ErrorV>),
> {
    entries_at(
        SourceV { text, file },
        ParseState { toks, errs: Seq::empty() },
        AstV::<ParsedV>::empty(),
    )
}

/// Why something was not parsed.
pub enum Fail {
    /// The program is in error.
    Error(Error),
    /// Parsing cannot go on.
    Abort,
}

/// What stands at the top level of a file.
enum Entry {
    Item(Item<Parsed>),
    Import(String, Span),
    Package(String),
    Module(String, Span),
}

impl Entry {
    spec fn view(&self) -> EntryV {
        match self {
            Entry::Item(item) => EntryV::Item(item.view()),
            Entry::Import(path, span) => EntryV::Import(path@, *span),
            Entry::Package(name) => EntryV::Package(name@),
            Entry::Module(name, span) => EntryV::Module(name@, *span),
        }
    }
}

/// Parses the tokens of one source file.
pub struct Parser<'s> {
    tokens: Tokens,
    source: &'s str,
    file: FileId,
    errs: ErrorContext,
}

/// What a call on `before` gave is what `out` says, and it went no token back.
pub open spec fn yields<X, A>(
    before: Parser,
    after: Parser,
    r: Result<X, Fail>,
    out: Outcome<A>,
    value: spec_fn(X) -> A,
) -> bool {
    &&& after.wf()
    &&& after.src() == before.src()
    &&& after.st().left() <= before.st().left()
    &&& match r {
        Ok(x) => out == Outcome::Done(value(x), after.st()),
        Err(Fail::Error(e)) => out == Outcome::Wrong::<A>(e@, after.st()),
        Err(Fail::Abort) => out is Abort,
    }
}

/// What a call on `before` gave is what `out` says, and it took a token.
pub open spec fn takes<X, A>(
    before: Parser,
    after: Parser,
    r: Result<X, Fail>,
    out: Outcome<A>,
    value: spec_fn(X) -> A,
) -> bool {
    &&& yields(before, after, r, out, value)
    &&& out is Abort || after.st().ahead_of(before.st())
}

impl<'s> Parser<'s> {
    pub closed spec fn st(self) -> ParseState {
        ParseState { toks: self.tokens@, errs: self.errs@ }
    }

    pub closed spec fn src(self) -> SourceV {
        SourceV { text: self.source@, file: self.file }
    }

    pub closed spec fn wf(self) -> bool {
        self.tokens@.wf()
    }

    pub fn new(tokens: Tokens, source: &'s str, file: FileId) -> (r: Parser<'s>)
        requires
            tokens@.wf(),
        ensures
            r.wf(),
            r.st() == (ParseState { toks: tokens@, errs: Seq::empty() }),
            r.src() == (SourceV { text: source@, file }),
    {
        Parser { tokens, source, file, errs: ErrorContext::new() }
    }

    /// Parses a file. What is in error is reported and left out of the tree.
    pub fn parse(
        tokens: Tokens,
        source: &'s str,
        file: FileId,
        err_ctx: &mut ErrorContext,
    ) -> (r: Result<AST<Parsed>, ()>)
        requires
            tokens@.wf(),
            parsing(tokens@, source@, file) is Some,
        ensures
            r matches Ok(tree) && tree.view() == (parsing(tokens@, source@, file)->0).0,
            final(err_ctx)@ == old(err_ctx)@ + (parsing(tokens@, source@, file)->0).1,
    {
        match Parser::try_parse(tokens, source, file, err_ctx) {
            Some(tree) => Ok(tree),
            None => Err(()),
        }
    }

    /// As [`Parser::parse`], for any tokens: `None`, with nothing reported, where parsing cannot
    /// go on.
    pub fn try_parse(
        tokens: Tokens,
        source: &'s str,
        file: FileId,
        err_ctx: &mut ErrorContext,
    ) -> (r: Option<AST<Parsed>>)
        requires
            tokens@.wf(),
        ensures
            match parsing(tokens@, source@, file) {
                Some((tree, errs)) => {
                    &&& r matches Some(t) && t.view() == tree
                    &&& final(err_ctx)@ == old(err_ctx)@ + errs
                },
                None => r is None && final(err_ctx)@ == old(err_ctx)@,
            },
    {
        let ghost toks = tokens@;
        let ghost out = parsing(toks, source@, file);
        let mut parser = Parser::new(tokens, source, file);
        let mut tree: AST<Parsed> = AST::new();
        while parser.tokens.current().is_some()
            invariant
                parser.wf(),
                err_ctx@ == old(err_ctx)@,
                toks == tokens@,
                out == parsing(toks, source@, file),
                entries_at(parser.src(), parser.st(), tree.view()) == out,
            decreases parser.st().left(),
        {
            let ghost before = tree.view();
            let ghost st = parser.st();
            match parser.parse_item() {
                Ok(Entry::Item(item)) => tree.add_item(item),
                Ok(Entry::Import(path, span)) => {
                    tree.imports.push((path, span));
                    proof {
                        assert(tree.view() =~= entered(before, EntryV::Import(path@, span)));
                    }
                },
                Ok(Entry::Package(name)) => {
                    tree.package = Some(name);
                    proof {
                        assert(tree.view() =~= entered(before, EntryV::Package(name@)));
                    }
                },
                Ok(Entry::Module(name, span)) => {
                    tree.modules.push((name, span));
                    proof {
                        assert(tree.view() =~= entered(before, EntryV::Module(name@, span)));
                    }
                },
                Err(Fail::Error(err)) => parser.errs.report(err),
                Err(Fail::Abort) => {
                    return None;
                },
            }
        }
        err_ctx.absorb(&mut parser.errs);
        Some(tree)
    }

    fn span(&self, range: TextRange) -> (r: Span)
        ensures
            r == self.src().span(range),
    {
        Span { file: self.file, range }
    }

    fn between(&self, start: usize, end: usize) -> (r: Span)
        ensures
            r == self.src().between(start, end),
    {
        Span { file: self.file, range: TextRange { start, end } }
    }

    fn is_at(&self, token: &Token) -> (r: bool)
        ensures
            r == self.st().is_at(token@),
    {
        match self.tokens.current() {
            Some(t) => t.0.same(token),
            None => false,
        }
    }

    fn move_one(&mut self)
        requires
            old(self).wf(),
        ensures
            final(self).wf(),
            final(self).src() == old(self).src(),
            final(self).st() == old(self).st().moved(),
    {
        self.tokens.move_one();
    }

    fn report(&mut self, error: Error)
        requires
            old(self).wf(),
        ensures
            final(self).wf(),
            final(self).src() == old(self).src(),
            final(self).st() == old(self).st().reported(error@),
    {
        self.errs.report(error);
    }

    fn last_token_end(&self) -> (r: Result<usize, Fail>)
        ensures
            match self.st().last_end() {
                Some(end) => r == Ok::<usize, Fail>(end),
                None => r == Err::<usize, Fail>(Fail::Abort),
            },
    {
        match self.tokens.last() {
            Some(t) => Ok(t.1.end),
            None => Err(Fail::Abort),
        }
    }

    fn expect_take_current(&mut self) -> (r: Result<(Token, TextRange), Fail>)
        requires
            old(self).wf(),
        ensures
            takes(
                *old(self),
                *final(self),
                r,
                took(old(self).st()),
                |t: (Token, TextRange)| (t.0@, t.1),
            ),
    {
        match self.tokens.take_current() {
            Some(t) => Ok(t),
            None => Err(Fail::Abort),
        }
    }

    fn expect_token(&mut self, token: Token, message: &str) -> (r: Result<(), Fail>)
        requires
            old(self).wf(),
        ensures
            takes(
                *old(self),
                *final(self),
                r,
                expected(old(self).src(), old(self).st(), token@, message@),
                |u: ()| u,
            ),
    {
        let t = self.expect_take_current()?;
        if !t.0.same(&token) {
            return Err(Fail::Error(Error::unexpected_token(self.span(t.1), message)));
        }
        Ok(())
    }

    fn expect_ident(&mut self, message: &str) -> (r: Result<(), Fail>)
        requires
            old(self).wf(),
        ensures
            takes(
                *old(self),
                *final(self),
                r,
                expected_ident(old(self).src(), old(self).st(), message@),
                |u: ()| u,
            ),
    {
        let t = self.expect_take_current()?;
        match t.0 {
            Token::Ident(_) => Ok(()),
            _ => Err(Fail::Error(Error::unexpected_token(self.span(t.1), message))),
        }
    }

    fn expect_semicolon(&mut self) -> (r: Result<(), Fail>)
        requires
            old(self).wf(),
        ensures
            takes(
                *old(self),
                *final(self),
                r,
                semicolon(old(self).src(), old(self).st()),
                |u: ()| u,
            ),
    {
        match self.tokens.take_current() {
            None => Err(Fail::Abort),
            Some(t) => {
                if !t.0.same(&Token::Semicolon) {
                    if self.tokens.current().is_none() {
                        return Err(Fail::Abort);
                    }
                    let pos = t.1.start;
                    if pos == 0 || pos == usize::MAX {
                        return Err(Fail::Abort);
                    }
                    let error = Error::at(self.between(pos, pos + 1)).with_code(
                        ErrorCode::MissingSemicolon,
                    ).with_message("expected semicolon").with_label(
                        self.between(pos - 1, pos),
                        "insert the semicolon dummy",
                    );
                    self.report(error);
                }
                Ok(())
            },
        }
    }

    fn find_semicolon(&mut self)
        requires
            old(self).wf(),
        ensures
            final(self).wf(),
            final(self).src() == old(self).src(),
            final(self).st() == behind_semicolon(old(self).st()),
            final(self).st().left() <= old(self).st().left(),
    {
        loop
            invariant_except_break
                behind_semicolon(self.st()) == behind_semicolon(old(self).st()),
            invariant
                self.wf(),
                self.src() == old(self).src(),
                self.st().left() <= old(self).st().left(),
            ensures
                self.st() == behind_semicolon(old(self).st()),
            decreases self.st().left(),
        {
            match self.tokens.take_current() {
                None => {
                    break;
                },
                Some(t) => {
                    if t.0.same(&Token::Semicolon) {
                        break;
                    }
                },
            }
        }
    }

    fn parse_rest_of_path(&mut self, path_start: usize) -> (r: Result<String, Fail>)
        requires
            old(self).wf(),
        ensures
            yields(
                *old(self),
                *final(self),
                r,
                path_rest(old(self).src(), old(self).st(), path_start),
                |s: String| s@,
            ),
    {
        while self.is_at(&Token::PathSeparator)
            invariant
                self.wf(),
                self.src() == old(self).src(),
                self.st().left() <= old(self).st().left(),
                path_rest(self.src(), self.st(), path_start) == path_rest(
                    old(self).src(),
                    old(self).st(),
                    path_start,
                ),
            decreases self.st().left(),
        {
            self.move_one();
            self.expect_ident("expected identifier")?;
        }
        let end = self.last_token_end()?;
        match lex::slice_bytes(self.source, path_start, end) {
            Some(path) => Ok(path),
            None => Err(Fail::Abort),
        }
    }

    fn parse_type(&mut self) -> (r: Result<Parsed, Fail>)
        requires
            old(self).wf(),
        ensures
            takes(
                *old(self),
                *final(self),
                r,
                type_at(old(self).src(), old(self).st()),
                |p: Parsed| p@,
            ),
        decreases old(self).st().left(),
    {
        let (token, range) = self.expect_take_current()?;
        let parsed_type = match token {
            Token::Operator(Operator::Star) => {
                let inner = self.parse_type()?;
                ParsedType::Pointer(Box::new(inner.0))
            },
            Token::Ident(_) => {
                let path = self.parse_rest_of_path(range.start)?;
                ParsedType::read(path.as_str())
            },
            _ => {
                if token.same(&Token::LeftParenthesis) && self.is_at(&Token::RightParenthesis) {
                    self.move_one();
                    ParsedType::Primitive(Primitive::Unit)
                } else {
                    return Err(
                        Fail::Error(Error::unexpected_token(self.span(range), "expected type")),
                    );
                }
            },
        };
        let end = self.last_token_end()?;
        Ok((parsed_type, self.between(range.start, end)))
    }

    /// Parses an expression.
    pub fn parse_expr(&mut self) -> (r: Result<Expression<Parsed>, Fail>)
        requires
            old(self).wf(),
        ensures
            takes(
                *old(self),
                *final(self),
                r,
                expr_at(old(self).src(), old(self).st()),
                |e: Expression<Parsed>| e.view(),
            ),
        decreases old(self).st().left(), 2int,
    {
        let lhs = self.parse_single_expr()?;
        let op = match self.tokens.current() {
            Some((Token::Operator(op), _)) => *op,
            _ => {
                return Ok(lhs);
            },
        };
        self.move_one();
        let next = match self.tokens.peek() {
            Some((Token::Operator(next), _)) => Some(*next),
            _ => None,
        };
        let (op, lhs) = match next {
            Some(next) => {
                if next.precedence() < op.precedence() {
                    let rhs = self.parse_single_expr()?;
                    let inner = match self.bind_expr(op, lhs, rhs) {
                        Some(inner) => inner,
                        None => {
                            return Err(Fail::Abort);
                        },
                    };
                    self.move_one();
                    (next, Expression { inner, typ: None, span: self.between(0, 1) })
                } else {
                    (op, lhs)
                }
            },
            None => (op, lhs),
        };
        let rhs = self.parse_expr()?;
        let span = self.between(lhs.span.range.start, rhs.span.range.end);
        match self.bind_expr(op, lhs, rhs) {
            Some(inner) => Ok(Expression { inner, typ: None, span }),
            None => Err(Fail::Abort),
        }
    }

    /// Applies an operator to two operands.
    fn bind_expr(&self, op: Operator, lhs: Expression<Parsed>, rhs: Expression<Parsed>) -> (r: Option<
        ExprInner<Parsed>,
    >)
        ensures
            match r {
                Some(inner) => bound(op, lhs.view(), rhs.view()) == Some(inner.view()),
                None => bound(op, lhs.view(), rhs.view()) is None,
            },
    {
        let arith = match op {
            Operator::Plus => Some(ArithmeticOp::Add),
            Operator::Minus => Some(ArithmeticOp::Sub),
            Operator::Star => Some(ArithmeticOp::Mul),
            Operator::Slash => Some(ArithmeticOp::Div),
            Operator::Modulo => Some(ArithmeticOp::Mod),
            _ => None,
        };
        if let Some(arith) = arith {
            return Some(ExprInner::Arithmetic(Box::new(lhs), Box::new(rhs), arith, None));
        }
        let compare = match op {
            Operator::Equal => Some(CompareOp::Equal),
            Operator::NotEqual => Some(CompareOp::NotEqual),
            Operator::Less => Some(CompareOp::Less),
            Operator::LessOrEqual => Some(CompareOp::LessOrEqual),
            Operator::Greater => Some(CompareOp::Greater),
            Operator::GreaterOrEqual => Some(CompareOp::GreaterOrEqual),
            _ => None,
        };
        if let Some(compare) = compare {
            return Some(ExprInner::Comparison(Box::new(lhs), Box::new(rhs), compare, None));
        }
        match op {
            Operator::And => Some(
                ExprInner::Logical(Box::new(lhs), Box::new(rhs), LogicalOp::And),
            ),
            Operator::Or => Some(ExprInner::Logical(Box::new(lhs), Box::new(rhs), LogicalOp::Or)),
            Operator::Dot => match rhs.inner {
                ExprInner::Ident(member) => Some(
                    ExprInner::MemberAccess(Box::new(lhs), member, None),
                ),
                _ => None,
            },
            _ => None,
        }
    }

    fn parse_single_expr(&mut self) -> (r: Result<Expression<Parsed>, Fail>)
        requires
            old(self).wf(),
        ensures
            takes(
                *old(self),
                *final(self),
                r,
                single_at(old(self).src(), old(self).st()),
                |e: Expression<Parsed>| e.view(),
            ),
        decreases old(self).st().left(), 1int,
    {
        let (token, range) = self.expect_take_current()?;
        let expr = self.parse_operand(token, range)?;
        if self.is_at(&Token::Keyword(Keyword::As)) {
            self.move_one();
            let typ = self.parse_type()?;
            let end = self.last_token_end()?;
            let span = self.between(expr.span.range.start, end);
            return Ok(Expression { inner: ExprInner::Cast(Box::new(expr), typ), typ: None, span });
        }
        Ok(expr)
    }

    fn parse_variable_behind(&mut self, range: TextRange, message: &str) -> (r: Result<
        (String, usize),
        Fail,
    >)
        requires
            old(self).wf(),
        ensures
            takes(
                *old(self),
                *final(self),
                r,
                variable_behind(old(self).src(), range, message@, old(self).st()),
                |v: (String, usize)| (v.0@, v.1),
            ),
    {
        let (token, var_range) = self.expect_take_current()?;
        match token {
            Token::Ident(var) => Ok((var, var_range.end)),
            _ => Err(
                Fail::Error(
                    Error::at(self.span(range)).with_message(message).with_label(
                        self.span(var_range),
                        "expected variable",
                    ),
                ),
            ),
        }
    }

    fn literal(&self, inner: ExprInner<Parsed>, range: TextRange) -> (r: Expression<Parsed>)
        ensures
            r.view() == untyped(inner.view(), self.src().span(range)),
    {
        Expression { inner, typ: None, span: self.span(range) }
    }

    /// Parses the operand that begins with `token`.
    fn parse_operand(&mut self, token: Token, range: TextRange) -> (r: Result<
        Expression<Parsed>,
        Fail,
    >)
        requires
            old(self).wf(),
        ensures
            yields(
                *old(self),
                *final(self),
                r,
                operand_at(old(self).src(), token@, range, old(self).st()),
                |e: Expression<Parsed>| e.view(),
            ),
        decreases old(self).st().left(), 3int,
    {
        match token {
            Token::Number(num, explicit_type) => Ok(
                self.literal(ExprInner::Const(num, explicit_type), range),
            ),
            Token::Reference => {
                let (var, end) = self.parse_variable_behind(range, "invalid pointer")?;
                Ok(
                    Expression {
                        inner: ExprInner::Pointer(var),
                        typ: None,
                        span: self.between(range.start, end),
                    },
                )
            },
            Token::Operator(Operator::Star) => {
                let (var, end) = self.parse_variable_behind(range, "invalid pointer deref")?;
                Ok(
                    Expression {
                        inner: ExprInner::Deref(var, None),
                        typ: None,
                        span: self.between(range.start, end),
                    },
                )
            },
            Token::Operator(Operator::Minus) => {
                let expr = self.parse_single_expr()?;
                self.negate_expr(range, expr)
            },
            Token::Operator(Operator::Not) => {
                let expr = self.parse_single_expr()?;
                Ok(self.literal(ExprInner::Not(Box::new(expr)), range))
            },
            Token::Ident(_) => self.parse_ident_expr(range.start),
            Token::Character(c) => Ok(self.literal(ExprInner::Character(c), range)),
            Token::String(s) => Ok(self.literal(ExprInner::String(s), range)),
            Token::Bool(b) => Ok(self.literal(ExprInner::Bool(b), range)),
            Token::LeftParenthesis => {
                let expr = self.parse_expr()?;
                self.expect_token(Token::RightParenthesis, "expected closing parenthesis")?;
                Ok(expr)
            },
            Token::Keyword(Keyword::SizeOf) => {
                self.expect_token(Token::LeftParenthesis, "expected opening parenthesis")?;
                let typ = self.parse_type()?;
                self.expect_token(Token::RightParenthesis, "expected closing parentehsis")?;
                let end = self.last_token_end()?;
                Ok(
                    Expression {
                        inner: ExprInner::SizeOf(typ),
                        typ: None,
                        span: self.between(range.start, end),
                    },
                )
            },
            Token::LeftBracket => self.parse_construct(),
            _ => Err(Fail::Error(Error::unexpected_token(self.span(range), "invalid expression"))),
        }
    }

    /// Puts a minus sign in front of an expression.
    fn negate_expr(&mut self, range: TextRange, expr: Expression<Parsed>) -> (r: Result<
        Expression<Parsed>,
        Fail,
    >)
        requires
            old(self).wf(),
        ensures
            yields(
                *old(self),
                *final(self),
                r,
                negated(old(self).src(), range, expr.view(), old(self).st()),
                |e: Expression<Parsed>| e.view(),
            ),
            *final(self) == *old(self),
    {
        match expr.inner {
            ExprInner::Const(number, explicit_type) => {
                if let Some(typ) = explicit_type {
                    if let Some(Sign::Unsigned) = typ.sign() {
                        let label = text::join2(
                            "negate operator not applicable to type ",
                            typ.name(),
                        );
                        return Err(
                            Fail::Error(
                                Error::simple(
                                    self.span(range),
                                    "cannot negate an unsigned integer",
                                    label.as_str(),
                                ),
                            ),
                        );
                    }
                }
                if number == 0x8000_0000_0000_0000 {
                    return Err(Fail::Abort);
                }
                let value: u64 = if number == 0 {
                    0
                } else {
                    u64::MAX - number + 1
                };
                Ok(self.literal(ExprInner::Const(value, Some(Primitive::I64)), range))
            },
            _ => Ok(self.literal(ExprInner::Negate(Box::new(expr)), range)),
        }
    }

    fn parse_construct(&mut self) -> (r: Result<Expression<Parsed>, Fail>)
        requires
            old(self).wf(),
        ensures
            takes(
                *old(self),
                *final(self),
                r,
                construct_at(old(self).src(), old(self).st()),
                |e: Expression<Parsed>| e.view(),
            ),
    {
        let end = self.last_token_end()?;
        if end == 0 {
            return Err(Fail::Abort);
        }
        let typ = self.parse_type()?;
        self.expect_token(Token::RightBracket, "expected closing bracket")?;
        self.expect_token(Token::LeftCurlyBracket, "expected opening brace")?;
        self.expect_token(Token::RightCurlyBracket, "expected closeing brace")?;
        let last = self.last_token_end()?;
        let fields: Vec<(String, Expression<Parsed>)> = Vec::new();
        let inner = ExprInner::Construct { typ, fields };
        proof {
            assert(inner.view()->fields =~= Seq::empty());
        }
        Ok(Expression { inner, typ: None, span: self.between(end - 1, last) })
    }

    fn parse_ident_expr(&mut self, ident_start: usize) -> (r: Result<Expression<Parsed>, Fail>)
        requires
            old(self).wf(),
        ensures
            yields(
                *old(self),
                *final(self),
                r,
                ident_at(old(self).src(), ident_start, old(self).st()),
                |e: Expression<Parsed>| e.view(),
            ),
        decreases old(self).st().left(), 2int,
    {
        let name = self.parse_rest_of_path(ident_start)?;
        let end = self.last_token_end()?;
        let ident = Expression {
            inner: ExprInner::Ident(name),
            typ: None,
            span: self.between(ident_start, end),
        };
        proof {
            assert(ident.view() == untyped(
                ExprInnerV::Ident(name@),
                self.src().between(ident_start, end),
            ));
        }
        if self.is_at(&Token::LeftParenthesis) {
            self.move_one();
            let args = self.parse_call_args()?;
            let inner = ExprInner::FnCall(FnPtr::Expr(Box::new(ident)), args);
            proof {
                assert(inner.view()->FnCall_1 =~= ast::expr_views(args@));
            }
            self.expect_token(Token::RightParenthesis, "expected closing parenthesis")?;
            let end = self.last_token_end()?;
            Ok(Expression { inner, typ: None, span: self.between(ident_start, end) })
        } else if self.is_at(&Token::LeftBracket) {
            self.move_one();
            let index = self.parse_expr()?;
            self.expect_token(Token::RightBracket, "expected closing bracket")?;
            let end = self.last_token_end()?;
            Ok(
                Expression {
                    inner: ExprInner::Index {
                        data: Box::new(ident),
                        index: Box::new(index),
                        val_size: None,
                    },
                    typ: None,
                    span: self.between(ident_start, end),
                },
            )
        } else {
            Ok(ident)
        }
    }

    fn parse_call_args(&mut self) -> (r: Result<Vec<Expression<Parsed>>, Fail>)
        requires
            old(self).wf(),
        ensures
            yields(
                *old(self),
                *final(self),
                r,
                args_at(old(self).src(), old(self).st(), Seq::empty()),
                |v: Vec<Expression<Parsed>>| ast::expr_views(v@),
            ),
        decreases old(self).st().left(), 3int,
    {
        let mut args: Vec<Expression<Parsed>> = Vec::new();
        proof {
            assert(ast::expr_views(args@) =~= Seq::empty());
        }
        while !self.is_at(&Token::RightParenthesis)
            invariant
                self.wf(),
                self.src() == old(self).src(),
                self.st().left() <= old(self).st().left(),
                args_at(self.src(), self.st(), ast::expr_views(args@)) == args_at(
                    old(self).src(),
                    old(self).st(),
                    Seq::empty(),
                ),
            decreases self.st().left(),
        {
            if args.len() > 0 {
                self.expect_token(Token::Comma, "expected comma")?;
            }
            let ghost before = ast::expr_views(args@);
            let arg = self.parse_expr()?;
            args.push(arg);
            proof {
                assert(ast::expr_views(args@) =~= before.push(arg.view()));
            }
        }
        Ok(args)
    }

    fn parse_ended_expr(&mut self) -> (r: Result<Expression<Parsed>, Fail>)
        requires
            old(self).wf(),
        ensures
            takes(
                *old(self),
                *final(self),
                r,
                ended_expr(old(self).src(), old(self).st()),
                |e: Expression<Parsed>| e.view(),
            ),
    {
        let expr = self.parse_expr()?;
        self.expect_semicolon()?;
        Ok(expr)
    }

    fn parse_assign(
        &mut self,
        var_range: TextRange,
        lhs: Expression<Parsed>,
        op: Option<Operator>,
        op_range: TextRange,
    ) -> (r: Result<Statement<Parsed>, Fail>)
        requires
            old(self).wf(),
        ensures
            yields(
                *old(self),
                *final(self),
                r,
                assignment(
                    old(self).src(),
                    old(self).src().span(var_range),
                    lhs.view(),
                    op,
                    op_range,
                    old(self).st(),
                ),
                |s: Statement<Parsed>| s.view(),
            ),
    {
        let var = match assign_target(&lhs.inner) {
            Some(var) => var,
            None => {
                return Err(
                    Fail::Error(
                        Error::simple(
                            lhs.span,
                            "invalid assignment",
                            "only variables, derefs, indexing and member access allowed",
                        ),
                    ),
                );
            },
        };
        let rhs = self.parse_ended_expr()?;
        let var_span = self.span(var_range);
        match op {
            None => Ok(Statement::Assign { var, expr: rhs, var_span }),
            Some(op) => match op.as_arithmetic() {
                None => Err(
                    Fail::Error(
                        Error::simple(
                            self.span(op_range),
                            "invalid assign operator",
                            "expected +=, -=, *= or /=",
                        ),
                    ),
                ),
                Some(arith) => {
                    let span = self.between(lhs.span.range.start, rhs.span.range.end);
                    let expr = Expression {
                        inner: ExprInner::Arithmetic(Box::new(lhs), Box::new(rhs), arith, None),
                        typ: None,
                        span,
                    };
                    Ok(Statement::Assign { var, expr, var_span })
                },
            },
        }
    }

    fn parse_expr_stmt(&mut self, range: TextRange) -> (r: Result<Statement<Parsed>, Fail>)
        requires
            old(self).wf(),
        ensures
            takes(
                *old(self),
                *final(self),
                r,
                expr_stmt(old(self).src(), range, old(self).st()),
                |s: Statement<Parsed>| s.view(),
            ),
    {
        let expr = self.parse_expr()?;
        let (token, token_range) = self.expect_take_current()?;
        match token {
            Token::Semicolon => Ok(Statement::Expr(expr)),
            Token::Assign(op) => self.parse_assign(range, expr, op, token_range),
            Token::Declare => match expr.inner {
                ExprInner::Ident(var) => {
                    let rvalue = self.parse_ended_expr()?;
                    Ok(
                        Statement::Declare {
                            var,
                            expr: rvalue,
                            var_span: self.span(range),
                            explicit_type: None,
                        },
                    )
                },
                _ => Err(
                    Fail::Error(
                        Error::simple(
                            expr.span,
                            "invalid assignment",
                            "only variables are allowed in assignments",
                        ),
                    ),
                ),
            },
            _ => Err(
                Fail::Error(
                    Error::unexpected_token(self.span(token_range), "expected ';', '=' or ':='"),
                ),
            ),
        }
    }

    fn parse_statement(&mut self) -> (r: Result<Statement<Parsed>, Fail>)
        requires
            old(self).wf(),
        ensures
            takes(
                *old(self),
                *final(self),
                r,
                stmt_at(old(self).src(), old(self).st()),
                |s: Statement<Parsed>| s.view(),
            ),
        decreases old(self).st().left(), 0int,
    {
        let (keyword, range) = match self.tokens.current() {
            None => {
                return Err(Fail::Abort);
            },
            Some((Token::Keyword(keyword), range)) => (Some(*keyword), *range),
            Some((_, range)) => (None, *range),
        };
        match keyword {
            Some(keyword) => {
                self.move_one();
                self.parse_keyword(keyword, range)
            },
            None => self.parse_expr_stmt(range),
        }
    }

    fn parse_keyword(&mut self, keyword: Keyword, range: TextRange) -> (r: Result<
        Statement<Parsed>,
        Fail,
    >)
        requires
            old(self).wf(),
        ensures
            yields(
                *old(self),
                *final(self),
                r,
                keyword_at(old(self).src(), keyword, range, old(self).st()),
                |s: Statement<Parsed>| s.view(),
            ),
        decreases old(self).st().left(), 4int,
    {
        match keyword {
            Keyword::Return => {
                let expr = self.parse_ended_expr()?;
                Ok(Statement::Return(expr))
            },
            Keyword::If => {
                let guard = self.parse_expr()?;
                let body = self.parse_block()?;
                let stmt = Statement::If { guard, body };
                proof {
                    assert(stmt.view()->If_body =~= ast::stmt_views(body@));
                }
                Ok(stmt)
            },
            Keyword::While => {
                let guard = self.parse_expr()?;
                let body = self.parse_block()?;
                let stmt = Statement::WhileLoop { guard, body };
                proof {
                    assert(stmt.view()->WhileLoop_body =~= ast::stmt_views(body@));
                }
                Ok(stmt)
            },
            _ => Err(Fail::Error(Error::unexpected_token(self.span(range), "unexpected keyword"))),
        }
    }

    fn parse_block(&mut self) -> (r: Result<Vec<Statement<Parsed>>, Fail>)
        requires
            old(self).wf(),
        ensures
            takes(
                *old(self),
                *final(self),
                r,
                block_at(old(self).src(), old(self).st()),
                |v: Vec<Statement<Parsed>>| ast::stmt_views(v@),
            ),
        decreases old(self).st().left(), 2int,
    {
        self.expect_token(Token::LeftCurlyBracket, "expected block")?;
        let ghost st1 = self.st();
        let mut statements: Vec<Statement<Parsed>> = Vec::new();
        proof {
            assert(ast::stmt_views(statements@) =~= Seq::empty());
        }
        loop
            invariant
                self.wf(),
                self.src() == old(self).src(),
                self.st().left() <= st1.left(),
                st1.ahead_of(old(self).st()),
                block_at(old(self).src(), old(self).st()) == stmts_at(
                    self.src(),
                    self.st(),
                    ast::stmt_views(statements@),
                ),
            decreases self.st().left(),
        {
            if self.tokens.current().is_none() {
                return Err(Fail::Abort);
            }
            if self.is_at(&Token::RightCurlyBracket) {
                self.move_one();
                return Ok(statements);
            }
            let ghost before = ast::stmt_views(statements@);
            match self.parse_statement() {
                Ok(stmt) => {
                    statements.push(stmt);
                    proof {
                        assert(ast::stmt_views(statements@) =~= before.push(stmt.view()));
                    }
                },
                Err(Fail::Error(err)) => {
                    self.report(err);
                    self.find_semicolon();
                },
                Err(Fail::Abort) => {
                    return Err(Fail::Abort);
                },
            }
        }
    }

    fn parse_decl_args(&mut self) -> (r: Result<Vec<Binding<Parsed>>, Fail>)
        requires
            old(self).wf(),
        ensures
            yields(
                *old(self),
                *final(self),
                r,
                decl_args_at(old(self).src(), old(self).st(), Seq::empty()),
                |v: Vec<Binding<Parsed>>| ast::binding_views(v@),
            ),
    {
        let mut args: Vec<Binding<Parsed>> = Vec::new();
        proof {
            assert(ast::binding_views(args@) =~= Seq::empty());
        }
        loop
            invariant
                self.wf(),
                self.src() == old(self).src(),
                self.st().left() <= old(self).st().left(),
                decl_args_at(self.src(), self.st(), ast::binding_views(args@)) == decl_args_at(
                    old(self).src(),
                    old(self).st(),
                    Seq::empty(),
                ),
            decreases self.st().left(),
        {
            let (name, start) = match self.tokens.current() {
                Some((Token::Ident(name), range)) => (name.clone(), range.start),
                _ => {
                    return Ok(args);
                },
            };
            self.move_one();
            self.expect_token(Token::Colon, "expected colon and argument type")?;
            let typ = self.parse_type()?;
            let end = self.last_token_end()?;
            let ghost before = ast::binding_views(args@);
            let span = self.between(start, end);
            args.push((name, typ, span));
            proof {
                assert(ast::binding_views(args@) =~= before.push((name@, typ@, span)));
            }
            if !self.is_at(&Token::RightParenthesis) {
                self.expect_token(Token::Comma, "expected comma")?;
            }
        }
    }

    fn parse_ret_type(&mut self) -> (r: Result<Parsed, Fail>)
        requires
            old(self).wf(),
        ensures
            yields(
                *old(self),
                *final(self),
                r,
                ret_at(old(self).src(), old(self).st()),
                |p: Parsed| p@,
            ),
    {
        if self.is_at(&Token::Arrow) {
            self.move_one();
            self.parse_type()
        } else {
            let start = match self.tokens.current() {
                None => {
                    return Err(Fail::Abort);
                },
                Some((_, range)) => range.start,
            };
            if start == usize::MAX {
                return Err(Fail::Abort);
            }
            Ok((ParsedType::Primitive(Primitive::Unit), self.between(start, start + 1)))
        }
    }

    fn parse_signature(&mut self) -> (r: Result<(Vec<Binding<Parsed>>, Parsed), Fail>)
        requires
            old(self).wf(),
        ensures
            takes(
                *old(self),
                *final(self),
                r,
                signature_at(old(self).src(), old(self).st()),
                |s: (Vec<Binding<Parsed>>, Parsed)| (ast::binding_views(s.0@), s.1@),
            ),
    {
        self.expect_token(Token::LeftParenthesis, "expected opening parenthesis")?;
        let args = self.parse_decl_args()?;
        self.expect_token(Token::RightParenthesis, "expected argument or closing parenthesis")?;
        let ret_type = self.parse_ret_type()?;
        Ok((args, ret_type))
    }

    fn parse_function(&mut self, decl_start: usize) -> (r: Result<Item<Parsed>, Fail>)
        requires
            old(self).wf(),
        ensures
            takes(
                *old(self),
                *final(self),
                r,
                function_at(old(self).src(), decl_start, old(self).st()),
                |i: Item<Parsed>| i.view(),
            ),
    {
        let (token, range) = self.expect_take_current()?;
        let name = match token {
            Token::Ident(name) => name,
            _ => {
                let error = Error::unexpected_token(self.span(range), "expected function name");
                self.report(error);
                "???".to_owned()
            },
        };
        let (args, ret_type) = self.parse_signature()?;
        let end = self.last_token_end()?;
        let decl_span = self.between(decl_start, end);
        if self.is_at(&Token::Semicolon) {
            self.move_one();
            Ok(Item::ForwardDecl { name, args, ret_type, decl_span })
        } else {
            let body = self.parse_block()?;
            Ok(Item::Function(FnDef { name, args, body, decl_span, ret_type }))
        }
    }

    fn parse_name(&mut self, message: &str, label: &str) -> (r: Result<(String, TextRange), Fail>)
        requires
            old(self).wf(),
        ensures
            takes(
                *old(self),
                *final(self),
                r,
                name_at(old(self).src(), message@, label@, old(self).st()),
                |n: (String, TextRange)| (n.0@, n.1),
            ),
    {
        let (token, range) = self.expect_take_current()?;
        match token {
            Token::Ident(name) => Ok((name, range)),
            _ => Err(Fail::Error(Error::simple(self.span(range), message, label))),
        }
    }

    fn parse_ended_name(&mut self, message: &str, label: &str) -> (r: Result<
        (String, TextRange),
        Fail,
    >)
        requires
            old(self).wf(),
        ensures
            takes(
                *old(self),
                *final(self),
                r,
                ended_name(old(self).src(), message@, label@, old(self).st()),
                |n: (String, TextRange)| (n.0@, n.1),
            ),
    {
        let name = self.parse_name(message, label)?;
        self.expect_semicolon()?;
        Ok(name)
    }

    fn parse_fields(&mut self) -> (r: Result<Vec<Binding<Parsed>>, Fail>)
        requires
            old(self).wf(),
        ensures
            yields(
                *old(self),
                *final(self),
                r,
                fields_at(old(self).src(), old(self).st(), Seq::empty()),
                |v: Vec<Binding<Parsed>>| ast::binding_views(v@),
            ),
    {
        let mut fields: Vec<Binding<Parsed>> = Vec::new();
        proof {
            assert(ast::binding_views(fields@) =~= Seq::empty());
        }
        while !self.is_at(&Token::RightCurlyBracket)
            invariant
                self.wf(),
                self.src() == old(self).src(),
                self.st().left() <= old(self).st().left(),
                fields_at(self.src(), self.st(), ast::binding_views(fields@)) == fields_at(
                    old(self).src(),
                    old(self).st(),
                    Seq::empty(),
                ),
            decreases self.st().left(),
        {
            let (name, range) = self.parse_name("invalid struct field", "expected field name")?;
            self.expect_token(Token::Colon, "expected colon")?;
            let typ = self.parse_type()?;
            let end = self.last_token_end()?;
            let span = self.between(range.start, end);
            if self.is_at(&Token::Comma) {
                self.move_one();
            }
            let ghost before = ast::binding_views(fields@);
            fields.push((name, typ, span));
            proof {
                assert(ast::binding_views(fields@) =~= before.push((name@, typ@, span)));
            }
        }
        Ok(fields)
    }

    fn parse_struct(&mut self) -> (r: Result<Item<Parsed>, Fail>)
        requires
            old(self).wf(),
        ensures
            takes(
                *old(self),
                *final(self),
                r,
                struct_at(old(self).src(), old(self).st()),
                |i: Item<Parsed>| i.view(),
            ),
    {
        let (name, range) = self.parse_name("invalid struct definition", "expected type name")?;
        self.expect_token(Token::LeftCurlyBracket, "expected opening curly bracket")?;
        let fields = self.parse_fields()?;
        self.expect_token(Token::RightCurlyBracket, "expected closing curly bracket")?;
        Ok(Item::Struct { name, decl_span: self.span(range), fields })
    }

    fn parse_impl_functions(&mut self) -> (r: Result<Vec<FnDef<Parsed>>, Fail>)
        requires
            old(self).wf(),
        ensures
            yields(
                *old(self),
                *final(self),
                r,
                functions_at(old(self).src(), old(self).st(), Seq::empty()),
                |v: Vec<FnDef<Parsed>>| ast::fn_views(v@),
            ),
    {
        let mut functions: Vec<FnDef<Parsed>> = Vec::new();
        proof {
            assert(ast::fn_views(functions@) =~= Seq::empty());
        }
        while self.is_at(&Token::Keyword(Keyword::Function))
            invariant
                self.wf(),
                self.src() == old(self).src(),
                self.st().left() <= old(self).st().left(),
                functions_at(self.src(), self.st(), ast::fn_views(functions@)) == functions_at(
                    old(self).src(),
                    old(self).st(),
                    Seq::empty(),
                ),
            decreases self.st().left(),
        {
            let start = self.tokens.cur_token_start();
            self.move_one();
            let ghost before = ast::fn_views(functions@);
            match self.parse_function(start)? {
                Item::Function(def) => {
                    functions.push(def);
                    proof {
                        assert(ast::fn_views(functions@) =~= before.push(def.view()));
                    }
                },
                _ => {
                    let end = self.last_token_end()?;
                    return Err(
                        Fail::Error(
                            Error::simple(
                                self.between(start, end),
                                "invalid function definition",
                                "only function implementations allowed",
                            ),
                        ),
                    );
                },
            }
        }
        Ok(functions)
    }

    fn parse_impl(&mut self) -> (r: Result<Item<Parsed>, Fail>)
        requires
            old(self).wf(),
        ensures
            takes(
                *old(self),
                *final(self),
                r,
                impl_at(old(self).src(), old(self).st()),
                |i: Item<Parsed>| i.view(),
            ),
    {
        let (struct_name, _) = self.parse_name("invalid struct definition", "expected type name")?;
        self.expect_token(Token::LeftCurlyBracket, "expected opening curly bracket")?;
        let functions = self.parse_impl_functions()?;
        self.expect_token(Token::RightCurlyBracket, "expected closing curly bracket")?;
        Ok(Item::Impl { struct_name, functions })
    }

    fn parse_memory(&mut self) -> (r: Result<Item<Parsed>, Fail>)
        requires
            old(self).wf(),
        ensures
            takes(
                *old(self),
                *final(self),
                r,
                memory_at(old(self).src(), old(self).st()),
                |i: Item<Parsed>| i.view(),
            ),
    {
        let (name, _) = self.parse_name("invalid memory statement", "expected identifier")?;
        self.expect_token(Token::Colon, "expected memory segment type")?;
        let typ = self.parse_type()?;
        self.expect_semicolon()?;
        Ok(Item::MemorySegment { name, typ })
    }

    fn parse_use(&mut self) -> (r: Result<Entry, Fail>)
        requires
            old(self).wf(),
        ensures
            takes(
                *old(self),
                *final(self),
                r,
                import_at(old(self).src(), old(self).st()),
                |e: Entry| e.view(),
            ),
    {
        let start = match self.tokens.current() {
            None => {
                return Err(Fail::Abort);
            },
            Some((_, range)) => range.start,
        };
        self.expect_ident("expected path to package item")?;
        let path = self.parse_rest_of_path(start)?;
        self.expect_semicolon()?;
        let end = self.last_token_end()?;
        if end == 0 {
            return Err(Fail::Abort);
        }
        Ok(Entry::Import(path, self.between(start, end - 1)))
    }

    fn parse_item(&mut self) -> (r: Result<Entry, Fail>)
        requires
            old(self).wf(),
        ensures
            takes(
                *old(self),
                *final(self),
                r,
                entry_at(old(self).src(), old(self).st()),
                |e: Entry| e.view(),
            ),
    {
        let (token, range) = self.expect_take_current()?;
        let keyword = match token {
            Token::Keyword(keyword) => keyword,
            _ => {
                return Err(
                    Fail::Error(Error::unexpected_token(self.span(range), "expected keyword")),
                );
            },
        };
        match keyword {
            Keyword::Function => {
                let item = self.parse_function(range.start)?;
                Ok(Entry::Item(item))
            },
            Keyword::Extern => {
                let (lib, _) = self.parse_ended_name("unexpected token", "expected library name")?;
                Ok(Entry::Item(Item::ExternLib(lib)))
            },
            Keyword::Memory => {
                let item = self.parse_memory()?;
                Ok(Entry::Item(item))
            },
            Keyword::Struct => {
                let item = self.parse_struct()?;
                Ok(Entry::Item(item))
            },
            Keyword::Impl => {
                let item = self.parse_impl()?;
                Ok(Entry::Item(item))
            },
            Keyword::Use => self.parse_use(),
            Keyword::Package => {
                let (package, _) = self.parse_ended_name(
                    "unexpected token",
                    "expected package identifier",
                )?;
                Ok(Entry::Package(package))
            },
            Keyword::Module => {
                let (module, name_range) = self.parse_ended_name(
                    "unexpected token",
                    "expected module identifier",
                )?;
                let end = self.last_token_end()?;
                Ok(Entry::Module(module, self.between(name_range.start, end)))
            },
            _ => Err(
                Fail::Error(
                    Error::unexpected_token(self.span(range), "expected function or extern import"),
                ),
            ),
        }
    }
}

/// What an expression denotes on the left side of an assignment.
fn assign_target(inner: &ExprInner<Parsed>) -> (r: Option<Assignable<Parsed>>)
    ensures
        match r {
            Some(var) => target(inner.view()) == Some(var.view()),
            None => target(inner.view()) is None,
        },
{
    match inner {
        ExprInner::Ident(var) => Some(Assignable::Var(var.clone())),
        ExprInner::Deref(var, None) => Some(Assignable::Ptr(var.clone(), None)),
        ExprInner::Index { data, index, val_size } => Some(
            Assignable::Index {
                data: Box::new(ast::copy_expr(data)),
                index: Box::new(ast::copy_expr(index)),
                val_size: *val_size,
            },
        ),
        ExprInner::MemberAccess(parent, member, _) => Some(
            Assignable::MemberAccess(Box::new(ast::copy_expr(parent)), member.clone()),
        ),
        _ => None,
    }
}

impl Copied for Parsed {
    fn copied(&self) -> (r: Parsed) {
        (self.0.duplicate(), self.1)
    }
}

} // verus!
