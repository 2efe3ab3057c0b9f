//! How trees are written as tokens, and that parsing such tokens gives the tree back.

use vstd::prelude::*;

use crate::analyze::ast::parse;
use crate::analyze::ast::parse::{Outcome, ParseState, ParsedV, SourceV};
use crate::analyze::ast::{
    ArithmeticOp, AssignableV, CompareOp, ExprInnerV, ExprV, FnPtrV, LogicalOp, StmtV,
};
use crate::analyze::lex;
use crate::analyze::lex::token;
use crate::analyze::lex::token::{Keyword, Operator, TokenV};
use crate::analyze::lex::{LexOutcome, LexedV, TokensV};
use crate::analyze::semantics::types;
use crate::analyze::semantics::types::{ParsedTypeV, Primitive};
use crate::analyze::{FileId, Span, TextRange};
use crate::text;

verus! {

pub open spec fn arithmetic_sign(op: ArithmeticOp) -> Operator {
    match op {
        ArithmeticOp::Add => Operator::Plus,
        ArithmeticOp::Sub => Operator::Minus,
        ArithmeticOp::Mul => Operator::Star,
        ArithmeticOp::Div => Operator::Slash,
        ArithmeticOp::Mod => Operator::Modulo,
    }
}

pub open spec fn comparison_sign(op: CompareOp) -> Operator {
    match op {
        CompareOp::Equal => Operator::Equal,
        CompareOp::NotEqual => Operator::NotEqual,
        CompareOp::Less => Operator::Less,
        CompareOp::LessOrEqual => Operator::LessOrEqual,
        CompareOp::Greater => Operator::Greater,
        CompareOp::GreaterOrEqual => Operator::GreaterOrEqual,
    }
}

pub open spec fn logical_sign(op: LogicalOp) -> Operator {
    match op {
        LogicalOp::And => Operator::And,
        LogicalOp::Or => Operator::Or,
    }
}

/// How a type is written: a star in front for each pointer.
pub open spec fn type_written(t: ParsedTypeV) -> Seq<TokenV>
    decreases t,
{
    match t {
        ParsedTypeV::Primitive(Primitive::Unit) => seq![
            TokenV::LeftParenthesis,
            TokenV::RightParenthesis,
        ],
        ParsedTypeV::Primitive(p) => seq![TokenV::Ident(type_word(p))],
        ParsedTypeV::Pointer(t) => seq![TokenV::Operator(Operator::Star)] + type_written(*t),
        ParsedTypeV::Struct(name) => seq![TokenV::Ident(name)],
    }
}

pub open spec fn type_word(p: Primitive) -> Seq<char> {
    match p {
        Primitive::Unit => "()"@,
        Primitive::I8 => "i8"@,
        Primitive::I64 => "i64"@,
        Primitive::U8 => "u8"@,
        Primitive::U64 => "u64"@,
        Primitive::Char => "char"@,
        Primitive::Bool => "bool"@,
    }
}

/// Whether a type is read as what it is: a struct must have a name of its own.
pub open spec fn can_type(t: ParsedTypeV) -> bool
    decreases t,
{
    match t {
        ParsedTypeV::Primitive(_) => true,
        ParsedTypeV::Pointer(t) => can_type(*t),
        ParsedTypeV::Struct(name) => types::primitive_of(name) is None && !(name.len() > 0
            && name.last() == '*'),
    }
}

/// Two operands with an operator between them, in parentheses.
pub open spec fn infix(a: Seq<TokenV>, op: Operator, b: Seq<TokenV>) -> Seq<TokenV> {
    seq![TokenV::LeftParenthesis] + (a + (seq![TokenV::Operator(op)] + (b + seq![
        TokenV::RightParenthesis,
    ])))
}

/// How an expression is written. Every operator between two operands is put in parentheses.
pub open spec fn written(e: ExprV<ParsedV>) -> Seq<TokenV>
    decreases e, 0nat,
{
    match e.inner {
        ExprInnerV::Const(n, typ) => seq![TokenV::Number(n, typ)],
        ExprInnerV::Character(c) => seq![TokenV::Character(c)],
        ExprInnerV::String(s) => seq![TokenV::String(s)],
        ExprInnerV::Bool(b) => seq![TokenV::Bool(b)],
        ExprInnerV::Ident(name) => seq![TokenV::Ident(name)],
        ExprInnerV::Pointer(name) => seq![TokenV::Reference, TokenV::Ident(name)],
        ExprInnerV::Deref(name, _) => seq![TokenV::Operator(Operator::Star), TokenV::Ident(name)],
        ExprInnerV::Arithmetic(a, b, op, _) => infix(written(*a), arithmetic_sign(op), written(*b)),
        ExprInnerV::Comparison(a, b, op, _) => infix(written(*a), comparison_sign(op), written(*b)),
        ExprInnerV::Logical(a, b, op) => infix(written(*a), logical_sign(op), written(*b)),
        ExprInnerV::MemberAccess(a, member, _) => infix(
            written(*a),
            Operator::Dot,
            seq![TokenV::Ident(member)],
        ),
        ExprInnerV::Not(a) => seq![TokenV::Operator(Operator::Not)] + written(*a),
        ExprInnerV::Negate(a) => seq![TokenV::Operator(Operator::Minus)] + written(*a),
        ExprInnerV::Cast(a, t) => seq![TokenV::LeftParenthesis, TokenV::LeftParenthesis] + (written(
            *a,
        ) + (seq![TokenV::RightParenthesis, TokenV::Keyword(Keyword::As)] + (type_written(t.0)
            + seq![TokenV::RightParenthesis]))),
        ExprInnerV::Index { data, index, .. } => written(*data) + (seq![TokenV::LeftBracket] + (
        written(*index) + seq![TokenV::RightBracket])),
        ExprInnerV::FnCall(f, args) => callee_written(f) + (seq![TokenV::LeftParenthesis] + (
        args_written(args, 0) + seq![TokenV::RightParenthesis])),
        ExprInnerV::Construct { typ, .. } => seq![TokenV::LeftBracket] + (type_written(typ.0)
            + seq![
            TokenV::RightBracket,
            TokenV::LeftCurlyBracket,
            TokenV::RightCurlyBracket,
        ]),
        ExprInnerV::SizeOf(t) => seq![TokenV::Keyword(Keyword::SizeOf), TokenV::LeftParenthesis] + (
        type_written(t.0) + seq![TokenV::RightParenthesis]),
    }
}

pub open spec fn callee_written(f: FnPtrV<ParsedV>) -> Seq<TokenV> {
    match f {
        FnPtrV::Named(name) => seq![TokenV::Ident(name)],
        FnPtrV::Expr(e) => match e.inner {
            ExprInnerV::Ident(name) => seq![TokenV::Ident(name)],
            _ => Seq::empty(),
        },
    }
}

/// The arguments from `i` on, with commas between them.
pub open spec fn args_written(args: Seq<ExprV<ParsedV>>, i: nat) -> Seq<TokenV>
    decreases args, (args.len() - i) as nat,
{
    if i >= args.len() {
        Seq::empty()
    } else {
        comma(i) + (written(args[i as int]) + args_written(args, i + 1))
    }
}

pub open spec fn comma(i: nat) -> Seq<TokenV> {
    if i == 0 {
        Seq::empty()
    } else {
        seq![TokenV::Comma]
    }
}

/// Whether an operand may stand behind an operator: if the second token of the operand is an operator, it
/// binds at least as tightly.
pub open spec fn may_follow(op: Operator, b: Seq<TokenV>) -> bool {
    b.len() > 1 && (b[1] matches TokenV::Operator(next)) ==> token::binding(b[1]->Operator_0)
        >= token::binding(op)
}

/// Whether an expression is read as what it is. A negated constant is read as another constant, and
/// an operand behind an operator that binds tighter than the operand's second token is not read whole.
pub open spec fn can(e: ExprV<ParsedV>) -> bool
    decreases e, 0nat,
{
    match e.inner {
        ExprInnerV::Arithmetic(a, b, op, _) => can(*a) && can(*b) && may_follow(
            arithmetic_sign(op),
            written(*b),
        ),
        ExprInnerV::Comparison(a, b, op, _) => can(*a) && can(*b) && may_follow(
            comparison_sign(op),
            written(*b),
        ),
        ExprInnerV::Logical(a, b, op) => can(*a) && can(*b) && may_follow(
            logical_sign(op),
            written(*b),
        ),
        ExprInnerV::MemberAccess(a, _, _) => can(*a),
        ExprInnerV::Not(a) => can(*a),
        ExprInnerV::Negate(a) => can(*a) && !(a.inner is Const),
        ExprInnerV::Cast(a, t) => can(*a) && can_type(t.0),
        ExprInnerV::Index { data, index, .. } => data.inner is Ident && can(*index),
        ExprInnerV::FnCall(f, args) => {
            &&& f matches FnPtrV::Expr(callee) && callee.inner is Ident
            &&& can_args(args, args.len())
        },
        ExprInnerV::Construct { typ, fields } => fields.len() == 0 && can_type(typ.0),
        ExprInnerV::SizeOf(t) => can_type(t.0),
        _ => true,
    }
}

pub open spec fn can_args(args: Seq<ExprV<ParsedV>>, n: nat) -> bool
    decreases args, n,
{
    if n == 0 || n > args.len() {
        true
    } else {
        can_args(args, (n - 1) as nat) && can(args[n - 1])
    }
}

/// Whether `b`, in which no type is noted, is the expression `a`. Places and notes of `a` do not count.
pub open spec fn same(a: ExprV<ParsedV>, b: ExprV<ParsedV>) -> bool
    decreases a, 0nat,
{
    &&& b.typ is None
    &&& match (a.inner, b.inner) {
        (ExprInnerV::Const(x, t), ExprInnerV::Const(y, u)) => x == y && t == u,
        (ExprInnerV::Character(x), ExprInnerV::Character(y)) => x == y,
        (ExprInnerV::String(x), ExprInnerV::String(y)) => x == y,
        (ExprInnerV::Bool(x), ExprInnerV::Bool(y)) => x == y,
        (ExprInnerV::Ident(x), ExprInnerV::Ident(y)) => x == y,
        (ExprInnerV::Pointer(x), ExprInnerV::Pointer(y)) => x == y,
        (ExprInnerV::Deref(x, _), ExprInnerV::Deref(y, t)) => x == y && t is None,
        (ExprInnerV::Arithmetic(x, y, o, _), ExprInnerV::Arithmetic(z, w, p, t)) => o == p && t is None
            && same(*x, *z) && same(*y, *w),
        (ExprInnerV::Comparison(x, y, o, _), ExprInnerV::Comparison(z, w, p, t)) => o == p && t is None
            && same(*x, *z) && same(*y, *w),
        (ExprInnerV::Logical(x, y, o), ExprInnerV::Logical(z, w, p)) => o == p && same(*x, *z)
            && same(*y, *w),
        (ExprInnerV::MemberAccess(x, m, _), ExprInnerV::MemberAccess(z, n, t)) => m == n && t is None
            && same(*x, *z),
        (ExprInnerV::Not(x), ExprInnerV::Not(z)) => same(*x, *z),
        (ExprInnerV::Negate(x), ExprInnerV::Negate(z)) => same(*x, *z),
        (ExprInnerV::Cast(x, t), ExprInnerV::Cast(z, u)) => same(*x, *z) && t.0 == u.0,
        (
            ExprInnerV::Index { data: x, index: y, .. },
            ExprInnerV::Index { data: z, index: w, val_size },
        ) => val_size is None && same(*x, *z) && same(*y, *w),
        (
            ExprInnerV::FnCall(FnPtrV::Expr(x), xs),
            ExprInnerV::FnCall(FnPtrV::Expr(z), ys),
        ) => same(*x, *z) && xs.len() == ys.len() && same_args(xs, ys, xs.len()),
        (
            ExprInnerV::Construct { typ: t, .. },
            ExprInnerV::Construct { typ: u, fields },
        ) => t.0 == u.0 && fields.len() == 0,
        (ExprInnerV::SizeOf(t), ExprInnerV::SizeOf(u)) => t.0 == u.0,
        _ => false,
    }
}

pub open spec fn same_args(a: Seq<ExprV<ParsedV>>, b: Seq<ExprV<ParsedV>>, n: nat) -> bool
    decreases a, n,
{
    if n == 0 || n > a.len() {
        true
    } else {
        same_args(a, b, (n - 1) as nat) && same(a[n - 1], b[n - 1])
    }
}

/// Every name among the tokens is the text at its place, and no token is empty.
pub open spec fn faithful(text: Seq<char>, toks: Seq<(TokenV, TextRange)>) -> bool {
    forall|i: int|
        0 <= i < toks.len() ==> {
            &&& (#[trigger] toks[i]).1.start < toks[i].1.end
            &&& toks[i].0 matches TokenV::Ident(name) ==> lex::byte_slice(
                text,
                toks[i].1.start as int,
                toks[i].1.end as int,
            ) == Some(name)
        }
}

/// The next tokens are `w`.
pub open spec fn spelled(st: ParseState, w: Seq<TokenV>) -> bool {
    &&& 0 <= st.toks.pos
    &&& st.toks.pos + w.len() <= st.toks.toks.len()
    &&& forall|k: int| 0 <= k < w.len() ==> st.toks.toks[st.toks.pos + k].0 == #[trigger] w[k]
}

/// `n` tokens further.
pub open spec fn on(st: ParseState, n: nat) -> ParseState {
    ParseState { toks: TokensV { pos: st.toks.pos + n, ..st.toks }, ..st }
}

/// The next token is none with which an operand could go on.
pub open spec fn calm(st: ParseState) -> bool {
    st.current() matches Some((t, _)) ==> t != TokenV::Keyword(Keyword::As) && t
        != TokenV::LeftParenthesis && t != TokenV::LeftBracket && t != TokenV::PathSeparator
}

/// The next token is none with which an expression could go on.
pub open spec fn ended(st: ParseState) -> bool {
    calm(st) && !(st.current() matches Some((TokenV::Operator(_), _)))
}

/// What came out is `e`, and parsing goes on at `end`.
pub open spec fn gave(out: Outcome<ExprV<ParsedV>>, e: ExprV<ParsedV>, end: ParseState) -> bool {
    out matches Outcome::Done(x, later) && later == end && same(e, x)
}

pub(crate) proof fn lemma_split(st: ParseState, a: Seq<TokenV>, b: Seq<TokenV>)
    requires
        spelled(st, a + b),
    ensures
        spelled(st, a),
        spelled(on(st, a.len()), b),
        (a + b).len() == a.len() + b.len(),
{
    let w = a + b;
    assert forall|k: int| 0 <= k < a.len() implies st.toks.toks[st.toks.pos + k].0 == #[trigger] a[k] by {
        assert(w[k] == a[k]);
    }
    let next = on(st, a.len());
    assert forall|k: int| 0 <= k < b.len() implies next.toks.toks[next.toks.pos + k].0
        == #[trigger] b[k] by {
        assert(w[a.len() + k] == b[k]);
    }
}

proof fn lemma_moved(st: ParseState, w: Seq<TokenV>)
    requires
        spelled(st, w),
        w.len() > 0,
    ensures
        st.current() == Some((w[0], st.toks.toks[st.toks.pos].1)),
        st.moved() == on(st, 1),
        on(st, 1).ahead_of(st),
        on(st, 1).last_end() == Some(st.toks.toks[st.toks.pos].1.end),
{
    assert(st.toks.toks[st.toks.pos + 0].0 == w[0]);
}

/// What an expression is written with begins with no token that ends something, and with a keyword only where
/// a size is asked for.
proof fn lemma_first(e: ExprV<ParsedV>)
    requires
        can(e),
    ensures
        written(e).len() > 0,
        written(e)[0] != TokenV::RightParenthesis,
        written(e)[0] != TokenV::RightCurlyBracket,
        written(e)[0] is Keyword ==> e.inner is SizeOf,
    decreases e,
{
    if let ExprInnerV::Index { data, .. } = e.inner {
        assert(written(*data).len() == 1 && written(*data)[0] is Ident);
    }
}

proof fn lemma_type_word(p: Primitive)
    ensures
        types::parsed_type(type_word(p)) == ParsedTypeV::Primitive(p),
{
    types::law_primitive_names(p, p);
    reveal_strlit("()");
    reveal_strlit("i8");
    reveal_strlit("i64");
    reveal_strlit("u8");
    reveal_strlit("u64");
    reveal_strlit("char");
    reveal_strlit("bool");
}

/// A type that is written down is read as it is.
pub proof fn law_type_reads_back(src: SourceV, st: ParseState, t: ParsedTypeV)
    requires
        can_type(t),
        faithful(src.text, st.toks.toks),
        spelled(st, type_written(t)),
        !on(st, type_written(t).len()).is_at(TokenV::PathSeparator),
    ensures
        type_written(t).len() > 0,
        parse::type_at(src, st) matches Outcome::Done(u, later) && later == on(
            st,
            type_written(t).len(),
        ) && u.0 == t,
    decreases t,
{
    let w = type_written(t);
    lemma_moved(st, w);
    match t {
        ParsedTypeV::Primitive(p) => {
            lemma_type_word(p);
            if p == Primitive::Unit {
                assert(st.toks.toks[st.toks.pos + 1].0 == w[1]);
            } else {
                lemma_name(src, st, type_word(p));
            }
        },
        ParsedTypeV::Struct(name) => {
            lemma_name(src, st, name);
        },
        ParsedTypeV::Pointer(u) => {
            lemma_split(st, seq![TokenV::Operator(Operator::Star)], type_written(*u));
            law_type_reads_back(src, on(st, 1), *u);
        },
    }
}

/// A name that stands alone is a path.
pub(crate) proof fn lemma_name(src: SourceV, st: ParseState, name: Seq<char>)
    requires
        faithful(src.text, st.toks.toks),
        spelled(st, seq![TokenV::Ident(name)]),
        !on(st, 1).is_at(TokenV::PathSeparator),
    ensures
        parse::path_rest(src, on(st, 1), st.toks.toks[st.toks.pos].1.start) == Outcome::Done(
            name,
            on(st, 1),
        ),
{
    lemma_moved(st, seq![TokenV::Ident(name)]);
}

/// A single token that is an operand by itself.
proof fn lemma_atom(src: SourceV, st: ParseState, e: ExprV<ParsedV>)
    requires
        e.inner is Const || e.inner is Character || e.inner is String || e.inner is Bool,
        spelled(st, written(e)),
        calm(on(st, written(e).len())),
    ensures
        gave(parse::single_at(src, st), e, on(st, written(e).len())),
{
    lemma_moved(st, written(e));
}

proof fn lemma_ident(src: SourceV, st: ParseState, e: ExprV<ParsedV>)
    requires
        e.inner is Ident,
        faithful(src.text, st.toks.toks),
        spelled(st, written(e)),
        calm(on(st, 1)),
    ensures
        gave(parse::single_at(src, st), e, on(st, 1)),
{
    lemma_moved(st, written(e));
    if let ExprInnerV::Ident(name) = e.inner {
        lemma_name(src, st, name);
        let range = st.toks.toks[st.toks.pos].1;
        let out = parse::ident_at(src, range.start, on(st, 1));
        assert(gave(out, e, on(st, 1)));
        assert(parse::operand_at(src, TokenV::Ident(name), range, on(st, 1)) == out);
    }
}

/// A variable behind a star or an ampersand.
proof fn lemma_marked(src: SourceV, st: ParseState, e: ExprV<ParsedV>)
    requires
        e.inner is Pointer || e.inner is Deref,
        spelled(st, written(e)),
        calm(on(st, 2)),
    ensures
        gave(parse::single_at(src, st), e, on(st, 2)),
{
    let w = written(e);
    lemma_moved(st, w);
    assert(st.toks.toks[st.toks.pos + 1].0 == w[1]);
    assert(on(st, 1).moved() == on(st, 2));
}

/// Two operands with an operator between them are joined by it.
proof fn lemma_infix(
    src: SourceV,
    st: ParseState,
    a: Seq<TokenV>,
    op: Operator,
    b: Seq<TokenV>,
    x: ExprV<ParsedV>,
    y: ExprV<ParsedV>,
)
    requires
        spelled(st, infix(a, op, b)),
        may_follow(op, b),
        b.len() > 0,
        parse::single_at(src, on(st, 1)) == Outcome::Done(x, on(st, 1 + a.len())),
        parse::expr_at(src, on(st, 2 + a.len())) == Outcome::Done(
            y,
            on(st, 2 + a.len() + b.len()),
        ),
        parse::bound(op, x, y) is Some,
        calm(on(st, 3 + a.len() + b.len())),
    ensures
        parse::single_at(src, st) matches Outcome::Done(z, later) && later == on(
            st,
            3 + a.len() + b.len(),
        ) && Some(z.inner) == parse::bound(op, x, y) && z.typ is None,
{
    let tail = b + seq![TokenV::RightParenthesis];
    let rest = seq![TokenV::Operator(op)] + tail;
    lemma_split(st, seq![TokenV::LeftParenthesis], a + rest);
    lemma_moved(st, infix(a, op, b));
    let first = on(st, 1);
    lemma_split(first, a, rest);
    let at_op = on(st, 1 + a.len());
    assert(on(first, a.len()) == at_op);
    lemma_split(at_op, seq![TokenV::Operator(op)], tail);
    lemma_moved(at_op, rest);
    let second = on(st, 2 + a.len());
    assert(on(at_op, 1) == second);
    lemma_split(second, b, seq![TokenV::RightParenthesis]);
    let close = on(st, 2 + a.len() + b.len());
    assert(on(second, b.len()) == close);
    lemma_moved(close, seq![TokenV::RightParenthesis]);
    assert(on(close, 1) == on(st, 3 + a.len() + b.len()));
    let next = parse::operator_behind(second);
    assert(second.toks.toks[second.toks.pos + 1].0 == tail[1]);
    assert(next is Some ==> token::binding(next->0) >= token::binding(op)) by {
        if b.len() > 1 {
            assert(tail[1] == b[1]);
        } else {
            assert(tail[1] == TokenV::RightParenthesis);
        }
    }
    assert(parse::expr_at(src, first) == parse::joined(src, op, x, y, close));
}

proof fn lemma_args_length(args: Seq<ExprV<ParsedV>>, n: nat, k: int)
    requires
        can_args(args, n),
        0 <= k < n <= args.len(),
    ensures
        can(args[k]),
    decreases n,
{
    if k < n - 1 {
        lemma_args_length(args, (n - 1) as nat, k);
    }
}

proof fn lemma_same_args(a: Seq<ExprV<ParsedV>>, b: Seq<ExprV<ParsedV>>, n: nat)
    requires
        n <= a.len(),
        n <= b.len(),
        forall|k: int| 0 <= k < n ==> same(a[k], #[trigger] b[k]),
    ensures
        same_args(a, b, n),
    decreases n,
{
    if n > 0 {
        assert(same(a[n - 1], b[n - 1]));
        lemma_same_args(a, b, (n - 1) as nat);
    }
}

proof fn lemma_two(
    src: SourceV,
    st: ParseState,
    e: ExprV<ParsedV>,
    l: ExprV<ParsedV>,
    r: ExprV<ParsedV>,
    op: Operator,
)
    requires
        match e.inner {
            ExprInnerV::Arithmetic(a, b, o, _) => *a == l && *b == r && op == arithmetic_sign(o),
            ExprInnerV::Comparison(a, b, o, _) => *a == l && *b == r && op == comparison_sign(o),
            ExprInnerV::Logical(a, b, o) => *a == l && *b == r && op == logical_sign(o),
            _ => false,
        },
        can(e),
        spelled(st, written(e)),
        calm(on(st, written(e).len())),
        gave(parse::single_at(src, on(st, 1)), l, on(st, 1 + written(l).len())),
        gave(
            parse::expr_at(src, on(st, 2 + written(l).len())),
            r,
            on(st, 2 + written(l).len() + written(r).len()),
        ),
    ensures
        gave(parse::single_at(src, st), e, on(st, written(e).len())),
{
    lemma_first(r);
    let x = parse::single_at(src, on(st, 1))->Done_0;
    let y = parse::expr_at(src, on(st, 2 + written(l).len()))->Done_0;
    lemma_infix(src, st, written(l), op, written(r), x, y);
}

proof fn lemma_arithmetic(src: SourceV, st: ParseState, e: ExprV<ParsedV>)
    requires
        can(e),
        faithful(src.text, st.toks.toks),
        spelled(st, written(e)),
        calm(on(st, written(e).len())),
        e.inner is Arithmetic,
    ensures
        gave(parse::single_at(src, st), e, on(st, written(e).len())),
    decreases e, 0nat,
{
    if let ExprInnerV::Arithmetic(a, b, op, _) = e.inner {
        lemma_operands(src, st, *a, arithmetic_sign(op), *b);
        law_operand_reads_back(src, on(st, 1), *a);
        law_operand_reads_back(src, on(st, 2 + written(*a).len()), *b);
        lemma_two(src, st, e, *a, *b, arithmetic_sign(op));
    }
}

proof fn lemma_comparison(src: SourceV, st: ParseState, e: ExprV<ParsedV>)
    requires
        can(e),
        faithful(src.text, st.toks.toks),
        spelled(st, written(e)),
        calm(on(st, written(e).len())),
        e.inner is Comparison,
    ensures
        gave(parse::single_at(src, st), e, on(st, written(e).len())),
    decreases e, 0nat,
{
    if let ExprInnerV::Comparison(a, b, op, _) = e.inner {
        lemma_operands(src, st, *a, comparison_sign(op), *b);
        law_operand_reads_back(src, on(st, 1), *a);
        law_operand_reads_back(src, on(st, 2 + written(*a).len()), *b);
        lemma_two(src, st, e, *a, *b, comparison_sign(op));
    }
}

proof fn lemma_logical(src: SourceV, st: ParseState, e: ExprV<ParsedV>)
    requires
        can(e),
        faithful(src.text, st.toks.toks),
        spelled(st, written(e)),
        calm(on(st, written(e).len())),
        e.inner is Logical,
    ensures
        gave(parse::single_at(src, st), e, on(st, written(e).len())),
    decreases e, 0nat,
{
    if let ExprInnerV::Logical(a, b, op) = e.inner {
        lemma_operands(src, st, *a, logical_sign(op), *b);
        law_operand_reads_back(src, on(st, 1), *a);
        law_operand_reads_back(src, on(st, 2 + written(*a).len()), *b);
        lemma_two(src, st, e, *a, *b, logical_sign(op));
    }
}

proof fn lemma_member(src: SourceV, st: ParseState, e: ExprV<ParsedV>)
    requires
        can(e),
        faithful(src.text, st.toks.toks),
        spelled(st, written(e)),
        calm(on(st, written(e).len())),
        e.inner is MemberAccess,
    ensures
        gave(parse::single_at(src, st), e, on(st, written(e).len())),
    decreases e, 0nat,
{
    if let ExprInnerV::MemberAccess(a, member, _) = e.inner {
        let m = ExprV { inner: ExprInnerV::Ident(member), typ: None, span: e.span };
        assert(written(m) == seq![TokenV::Ident(member)]);
        lemma_operands(src, st, *a, Operator::Dot, m);
        law_operand_reads_back(src, on(st, 1), *a);
        lemma_ident(src, on(st, 2 + written(*a).len()), m);
        let x = parse::single_at(src, on(st, 1))->Done_0;
        let y = parse::expr_at(src, on(st, 2 + written(*a).len()))->Done_0;
        lemma_infix(src, st, written(*a), Operator::Dot, written(m), x, y);
    }
}

proof fn lemma_unary(src: SourceV, st: ParseState, e: ExprV<ParsedV>)
    requires
        can(e),
        faithful(src.text, st.toks.toks),
        spelled(st, written(e)),
        calm(on(st, written(e).len())),
        e.inner is Not || e.inner is Negate,
    ensures
        gave(parse::single_at(src, st), e, on(st, written(e).len())),
    decreases e, 0nat,
{
    let w = written(e);
    lemma_moved(st, w);
    match e.inner {
        ExprInnerV::Not(a) => {
            lemma_split(st, seq![TokenV::Operator(Operator::Not)], written(*a));
            assert(on(on(st, 1), written(*a).len()) == on(st, w.len()));
            law_operand_reads_back(src, on(st, 1), *a);
        },
        ExprInnerV::Negate(a) => {
            lemma_split(st, seq![TokenV::Operator(Operator::Minus)], written(*a));
            assert(on(on(st, 1), written(*a).len()) == on(st, w.len()));
            law_operand_reads_back(src, on(st, 1), *a);
        },
        _ => {},
    }
}

proof fn lemma_bracketed(src: SourceV, st: ParseState, e: ExprV<ParsedV>)
    requires
        can(e),
        faithful(src.text, st.toks.toks),
        spelled(st, written(e)),
        calm(on(st, written(e).len())),
        e.inner is Cast || e.inner is Index || e.inner is FnCall,
    ensures
        gave(parse::single_at(src, st), e, on(st, written(e).len())),
    decreases e, 0nat,
{
    match e.inner {
        ExprInnerV::Cast(a, _) => {
            lemma_cast_tokens(st, e);
            law_operand_reads_back(src, on(st, 2), *a);
            lemma_cast(src, st, e);
        },
        ExprInnerV::Index { data, index, .. } => {
            lemma_index_tokens(st, e);
            law_operand_reads_back(src, on(st, 2), *index);
            lemma_index(src, st, e);
        },
        ExprInnerV::FnCall(f, args) => {
            lemma_call_tokens(st, e);
            assert forall|k: int| 0 <= k < args.len() implies can(#[trigger] args[k]) by {
                lemma_args_length(args, args.len(), k);
            }
            law_args_read_back(src, on(st, 2), args, 0, Seq::empty());
            lemma_called(src, st, e);
        },
        _ => {},
    }
}

/// An operand that is written down is read as it is.
pub proof fn law_operand_reads_back(src: SourceV, st: ParseState, e: ExprV<ParsedV>)
    requires
        can(e),
        faithful(src.text, st.toks.toks),
        spelled(st, written(e)),
        calm(on(st, written(e).len())),
    ensures
        gave(parse::single_at(src, st), e, on(st, written(e).len())),
    decreases e, 1nat,
{
    match e.inner {
        ExprInnerV::Const(..)
        | ExprInnerV::Character(_)
        | ExprInnerV::String(_)
        | ExprInnerV::Bool(_) => lemma_atom(src, st, e),
        ExprInnerV::Ident(_) => lemma_ident(src, st, e),
        ExprInnerV::Pointer(_) | ExprInnerV::Deref(..) => lemma_marked(src, st, e),
        ExprInnerV::Arithmetic(..) => lemma_arithmetic(src, st, e),
        ExprInnerV::Comparison(..) => lemma_comparison(src, st, e),
        ExprInnerV::Logical(..) => lemma_logical(src, st, e),
        ExprInnerV::MemberAccess(..) => lemma_member(src, st, e),
        ExprInnerV::Not(_) | ExprInnerV::Negate(_) => lemma_unary(src, st, e),
        ExprInnerV::Cast(..) | ExprInnerV::Index { .. } | ExprInnerV::FnCall(..) => lemma_bracketed(
            src,
            st,
            e,
        ),
        ExprInnerV::Construct { .. } => lemma_construct(src, st, e),
        ExprInnerV::SizeOf(_) => lemma_sizeof(src, st, e),
    }
}

/// Where the operands of an operator are found.
proof fn lemma_operands(
    src: SourceV,
    st: ParseState,
    a: ExprV<ParsedV>,
    op: Operator,
    b: ExprV<ParsedV>,
)
    requires
        spelled(st, infix(written(a), op, written(b))),
    ensures
        spelled(on(st, 1), written(a)),
        on(on(st, 1), written(a).len()) == on(st, 1 + written(a).len()),
        calm(on(st, 1 + written(a).len())),
        spelled(on(st, 2 + written(a).len()), written(b)),
        on(on(st, 2 + written(a).len()), written(b).len()) == on(
            st,
            2 + written(a).len() + written(b).len(),
        ),
        ended(on(st, 2 + written(a).len() + written(b).len())),
        infix(written(a), op, written(b)).len() == 3 + written(a).len() + written(b).len(),
{
    let x = written(a);
    let y = written(b);
    let tail = y + seq![TokenV::RightParenthesis];
    let rest = seq![TokenV::Operator(op)] + tail;
    lemma_split(st, seq![TokenV::LeftParenthesis], x + rest);
    lemma_split(on(st, 1), x, rest);
    let at_op = on(on(st, 1), x.len());
    assert(at_op == on(st, 1 + x.len()));
    lemma_split(at_op, seq![TokenV::Operator(op)], tail);
    lemma_moved(at_op, rest);
    assert(on(at_op, 1) == on(st, 2 + x.len()));
    lemma_split(on(st, 2 + x.len()), y, seq![TokenV::RightParenthesis]);
    assert(on(on(st, 2 + x.len()), y.len()) == on(st, 2 + x.len() + y.len()));
    lemma_moved(on(st, 2 + x.len() + y.len()), seq![TokenV::RightParenthesis]);
}

proof fn lemma_cast_tokens(st: ParseState, e: ExprV<ParsedV>)
    requires
        e.inner is Cast,
        spelled(st, written(e)),
    ensures
        e.inner matches ExprInnerV::Cast(a, t) && {
            let x = written(*a);
            let y = type_written(t.0);
            &&& st.is_at(TokenV::LeftParenthesis)
            &&& on(st, 1).is_at(TokenV::LeftParenthesis)
            &&& spelled(on(st, 2), x)
            &&& on(on(st, 2), x.len()) == on(st, 2 + x.len())
            &&& on(st, 2 + x.len()).is_at(TokenV::RightParenthesis)
            &&& on(st, 3 + x.len()).is_at(TokenV::Keyword(Keyword::As))
            &&& spelled(on(st, 4 + x.len()), y)
            &&& on(on(st, 4 + x.len()), y.len()) == on(st, 4 + x.len() + y.len())
            &&& on(st, 4 + x.len() + y.len()).is_at(TokenV::RightParenthesis)
            &&& written(e).len() == 5 + x.len() + y.len()
            &&& st.toks.pos + 5 + x.len() + y.len() <= st.toks.toks.len()
        },
{
    if let ExprInnerV::Cast(a, t) = e.inner {
        let x = written(*a);
        let y = type_written(t.0);
        let open = seq![TokenV::LeftParenthesis, TokenV::LeftParenthesis];
        let close = seq![TokenV::RightParenthesis, TokenV::Keyword(Keyword::As)];
        let tail = y + seq![TokenV::RightParenthesis];
        lemma_split(st, open, x + (close + tail));
        lemma_moved(st, open);
        assert(st.toks.toks[st.toks.pos + 1].0 == open[1]);
        lemma_split(on(st, 2), x, close + tail);
        let mid = on(st, 2 + x.len());
        assert(on(on(st, 2), x.len()) == mid);
        lemma_split(mid, close, tail);
        lemma_moved(mid, close);
        assert(mid.toks.toks[mid.toks.pos + 1].0 == close[1]);
        let at_type = on(st, 4 + x.len());
        assert(on(mid, 2) == at_type);
        lemma_split(at_type, y, seq![TokenV::RightParenthesis]);
        let end = on(st, 4 + x.len() + y.len());
        assert(on(at_type, y.len()) == end);
        lemma_moved(end, seq![TokenV::RightParenthesis]);
    }
}

proof fn lemma_cast(src: SourceV, st: ParseState, e: ExprV<ParsedV>)
    requires
        e.inner is Cast,
        can(e),
        faithful(src.text, st.toks.toks),
        spelled(st, written(e)),
        calm(on(st, written(e).len())),
        e.inner matches ExprInnerV::Cast(a, _) && gave(
            parse::single_at(src, on(st, 2)),
            *a,
            on(st, 2 + written(*a).len()),
        ),
    ensures
        gave(parse::single_at(src, st), e, on(st, written(e).len())),
{
    lemma_cast_tokens(st, e);
    if let ExprInnerV::Cast(a, t) = e.inner {
        let n = written(*a).len();
        let m = type_written(t.0).len();
        law_type_reads_back(src, on(st, 4 + n), t.0);
        let x = parse::single_at(src, on(st, 2))->Done_0;
        assert(parse::expr_at(src, on(st, 2)) == Outcome::Done(x, on(st, 2 + n)));
        assert(on(st, 1).moved() == on(st, 2));
        assert(on(st, 2 + n).moved() == on(st, 3 + n));
        assert(on(st, 3 + n).moved() == on(st, 4 + n));
        assert(gave(parse::single_at(src, on(st, 1)), e, on(st, 4 + n + m)));
        let y = parse::single_at(src, on(st, 1))->Done_0;
        assert(parse::expr_at(src, on(st, 1)) == Outcome::Done(y, on(st, 4 + n + m)));
        assert(st.moved() == on(st, 1));
        assert(on(st, 4 + n + m).moved() == on(st, 5 + n + m));
    }
}

proof fn lemma_index_tokens(st: ParseState, e: ExprV<ParsedV>)
    requires
        e.inner is Index,
        can(e),
        spelled(st, written(e)),
    ensures
        e.inner matches ExprInnerV::Index { data, index, .. } && {
            let x = written(*index);
            &&& data.inner matches ExprInnerV::Ident(name) && spelled(st, seq![TokenV::Ident(name)])
            &&& on(st, 1).is_at(TokenV::LeftBracket)
            &&& spelled(on(st, 2), x)
            &&& on(on(st, 2), x.len()) == on(st, 2 + x.len())
            &&& on(st, 2 + x.len()).is_at(TokenV::RightBracket)
            &&& written(e).len() == 3 + x.len()
            &&& st.toks.pos + 3 + x.len() <= st.toks.toks.len()
        },
{
    if let ExprInnerV::Index { data, index, .. } = e.inner {
        let x = written(*index);
        let tail = x + seq![TokenV::RightBracket];
        let rest = seq![TokenV::LeftBracket] + tail;
        if let ExprInnerV::Ident(name) = data.inner {
            assert(written(*data) == seq![TokenV::Ident(name)]);
        }
        lemma_split(st, written(*data), rest);
        lemma_split(on(st, 1), seq![TokenV::LeftBracket], tail);
        lemma_moved(on(st, 1), rest);
        assert(on(on(st, 1), 1) == on(st, 2));
        lemma_split(on(st, 2), x, seq![TokenV::RightBracket]);
        assert(on(on(st, 2), x.len()) == on(st, 2 + x.len()));
        lemma_moved(on(st, 2 + x.len()), seq![TokenV::RightBracket]);
    }
}

proof fn lemma_index(src: SourceV, st: ParseState, e: ExprV<ParsedV>)
    requires
        e.inner is Index,
        can(e),
        faithful(src.text, st.toks.toks),
        spelled(st, written(e)),
        calm(on(st, written(e).len())),
        e.inner matches ExprInnerV::Index { index, .. } && gave(
            parse::single_at(src, on(st, 2)),
            *index,
            on(st, 2 + written(*index).len()),
        ),
    ensures
        gave(parse::single_at(src, st), e, on(st, written(e).len())),
{
    lemma_index_tokens(st, e);
    if let ExprInnerV::Index { data, index, .. } = e.inner {
        let n = written(*index).len();
        let name = data.inner->Ident_0;
        lemma_moved(st, seq![TokenV::Ident(name)]);
        lemma_name(src, st, name);
        let x = parse::single_at(src, on(st, 2))->Done_0;
        assert(parse::expr_at(src, on(st, 2)) == Outcome::Done(x, on(st, 2 + n)));
        assert(on(st, 1).moved() == on(st, 2));
        assert(on(st, 2 + n).moved() == on(st, 3 + n));
        let range = st.toks.toks[st.toks.pos].1;
        let out = parse::ident_at(src, range.start, on(st, 1));
        let callee = parse::untyped(
            ExprInnerV::Ident(name),
            src.between(range.start, range.end),
        );
        assert(same(*data, callee));
        assert(out is Done);
        assert(gave(out, e, on(st, 3 + n)));
        assert(parse::operand_at(src, TokenV::Ident(name), range, on(st, 1)) == out);
    }
}

proof fn lemma_call_tokens(st: ParseState, e: ExprV<ParsedV>)
    requires
        e.inner is FnCall,
        can(e),
        spelled(st, written(e)),
    ensures
        e.inner matches ExprInnerV::FnCall(FnPtrV::Expr(f), args) && {
            let x = args_written(args, 0);
            &&& f.inner matches ExprInnerV::Ident(name) && spelled(st, seq![TokenV::Ident(name)])
            &&& on(st, 1).is_at(TokenV::LeftParenthesis)
            &&& spelled(on(st, 2), x + seq![TokenV::RightParenthesis])
            &&& on(st, 2 + x.len()).is_at(TokenV::RightParenthesis)
            &&& written(e).len() == 3 + x.len()
            &&& st.toks.pos + 3 + x.len() <= st.toks.toks.len()
        },
{
    if let ExprInnerV::FnCall(f, args) = e.inner {
        let x = args_written(args, 0);
        let tail = x + seq![TokenV::RightParenthesis];
        let rest = seq![TokenV::LeftParenthesis] + tail;
        lemma_split(st, callee_written(f), rest);
        lemma_split(on(st, 1), seq![TokenV::LeftParenthesis], tail);
        lemma_moved(on(st, 1), rest);
        assert(on(on(st, 1), 1) == on(st, 2));
        lemma_split(on(st, 2), x, seq![TokenV::RightParenthesis]);
        assert(on(on(st, 2), x.len()) == on(st, 2 + x.len()));
        lemma_moved(on(st, 2 + x.len()), seq![TokenV::RightParenthesis]);
    }
}

/// Arguments that are written down are read as they are.
pub proof fn law_args_read_back(
    src: SourceV,
    st: ParseState,
    args: Seq<ExprV<ParsedV>>,
    i: nat,
    done: Seq<ExprV<ParsedV>>,
)
    requires
        i <= args.len(),
        done.len() == i,
        forall|k: int| 0 <= k < args.len() ==> can(#[trigger] args[k]),
        forall|k: int| 0 <= k < i ==> same(args[k], #[trigger] done[k]),
        faithful(src.text, st.toks.toks),
        spelled(st, args_written(args, i) + seq![TokenV::RightParenthesis]),
    ensures
        parse::args_at(src, st, done) matches Outcome::Done(xs, later) && later == on(
            st,
            args_written(args, i).len(),
        ) && xs.len() == args.len() && same_args(args, xs, args.len()),
    decreases args, (args.len() - i) as nat,
{
    let close = seq![TokenV::RightParenthesis];
    let w = args_written(args, i) + close;
    lemma_moved(st, w);
    if i >= args.len() {
        lemma_same_args(args, done, i);
        assert(on(st, 0) == st);
    } else {
        let arg = args[i as int];
        let x = written(arg);
        let tail = args_written(args, i + 1);
        assert(w =~= comma(i) + (x + (tail + close)));
        lemma_first(arg);
        lemma_split(st, comma(i), x + (tail + close));
        let c = comma(i).len();
        let first = on(st, c);
        lemma_split(first, x, tail + close);
        let next = on(st, c + x.len());
        assert(on(first, x.len()) == next);
        assert(ended(next)) by {
            lemma_moved(next, tail + close);
            if i + 1 < args.len() {
                assert((tail + close)[0] == TokenV::Comma);
            } else {
                assert((tail + close)[0] == TokenV::RightParenthesis);
            }
        }
        law_operand_reads_back(src, first, arg);
        let y = parse::single_at(src, first)->Done_0;
        assert(parse::expr_at(src, first) == Outcome::Done(y, next));
        let done1 = done.push(y);
        assert forall|k: int| 0 <= k < i + 1 implies same(args[k], #[trigger] done1[k]) by {
            if k < i {
                assert(done1[k] == done[k]);
            }
        }
        law_args_read_back(src, next, args, i + 1, done1);
        assert(on(next, tail.len()) == on(st, args_written(args, i).len()));
        if i == 0 {
            assert(first == st);
            assert(w[0] == x[0]);
        } else {
            assert(w[0] == TokenV::Comma);
            assert(st.moved() == first);
        }
        assert(next.ahead_of(st));
        assert(parse::args_at(src, st, done) == parse::args_at(src, next, done1));
    }
}

proof fn lemma_called(src: SourceV, st: ParseState, e: ExprV<ParsedV>)
    requires
        e.inner is FnCall,
        can(e),
        faithful(src.text, st.toks.toks),
        spelled(st, written(e)),
        calm(on(st, written(e).len())),
        e.inner matches ExprInnerV::FnCall(_, args) && (parse::args_at(src, on(st, 2), Seq::empty()) matches Outcome::Done(
            xs,
            later,
        ) && later == on(on(st, 2), args_written(args, 0).len()) && xs.len() == args.len()
            && same_args(args, xs, args.len())),
    ensures
        gave(parse::single_at(src, st), e, on(st, written(e).len())),
{
    lemma_call_tokens(st, e);
    if let ExprInnerV::FnCall(FnPtrV::Expr(f), args) = e.inner {
        let n = args_written(args, 0).len();
        let name = f.inner->Ident_0;
        lemma_moved(st, seq![TokenV::Ident(name)]);
        lemma_name(src, st, name);
        assert(on(on(st, 2), n) == on(st, 2 + n));
        assert(on(st, 1).moved() == on(st, 2));
        assert(on(st, 2 + n).moved() == on(st, 3 + n));
        let range = st.toks.toks[st.toks.pos].1;
        let out = parse::ident_at(src, range.start, on(st, 1));
        let callee = parse::untyped(
            ExprInnerV::Ident(name),
            src.between(range.start, range.end),
        );
        assert(same(*f, callee));
        assert(out is Done);
        assert(gave(out, e, on(st, 3 + n)));
        assert(parse::operand_at(src, TokenV::Ident(name), range, on(st, 1)) == out);
    }
}

proof fn lemma_construct(src: SourceV, st: ParseState, e: ExprV<ParsedV>)
    requires
        e.inner is Construct,
        can(e),
        faithful(src.text, st.toks.toks),
        spelled(st, written(e)),
        calm(on(st, written(e).len())),
    ensures
        gave(parse::single_at(src, st), e, on(st, written(e).len())),
{
    if let ExprInnerV::Construct { typ, .. } = e.inner {
        let x = type_written(typ.0);
        let tail = seq![
            TokenV::RightBracket,
            TokenV::LeftCurlyBracket,
            TokenV::RightCurlyBracket,
        ];
        lemma_split(st, seq![TokenV::LeftBracket], x + tail);
        lemma_moved(st, written(e));
        lemma_split(on(st, 1), x, tail);
        let end = on(st, 1 + x.len());
        assert(on(on(st, 1), x.len()) == end);
        lemma_moved(end, tail);
        assert(end.toks.toks[end.toks.pos + 1].0 == tail[1]);
        assert(end.toks.toks[end.toks.pos + 2].0 == tail[2]);
        law_type_reads_back(src, on(st, 1), typ.0);
        assert(end.moved().moved() == on(st, 3 + x.len()));
        assert(end.moved().moved().moved() == on(st, 4 + x.len()));
        assert(parse::construct_rest(src, end) matches Outcome::Done(_, later) && later == on(
            st,
            4 + x.len(),
        ));
    }
}

proof fn lemma_sizeof(src: SourceV, st: ParseState, e: ExprV<ParsedV>)
    requires
        e.inner is SizeOf,
        can(e),
        faithful(src.text, st.toks.toks),
        spelled(st, written(e)),
        calm(on(st, written(e).len())),
    ensures
        gave(parse::single_at(src, st), e, on(st, written(e).len())),
{
    if let ExprInnerV::SizeOf(t) = e.inner {
        let x = type_written(t.0);
        let open = seq![TokenV::Keyword(Keyword::SizeOf), TokenV::LeftParenthesis];
        let tail = seq![TokenV::RightParenthesis];
        lemma_split(st, open, x + tail);
        lemma_moved(st, written(e));
        assert(st.toks.toks[st.toks.pos + 1].0 == open[1]);
        lemma_split(on(st, 2), x, tail);
        let end = on(st, 2 + x.len());
        assert(on(on(st, 2), x.len()) == end);
        lemma_moved(end, tail);
        law_type_reads_back(src, on(st, 2), t.0);
        assert(on(st, 1).moved() == on(st, 2));
        assert(end.moved() == on(st, 3 + x.len()));
    }
}

/// An expression that is written down is read as it is: parsing gives the tree back.
pub proof fn law_expr_reads_back(src: SourceV, st: ParseState, e: ExprV<ParsedV>)
    requires
        can(e),
        faithful(src.text, st.toks.toks),
        spelled(st, written(e)),
        ended(on(st, written(e).len())),
    ensures
        gave(parse::expr_at(src, st), e, on(st, written(e).len())),
{
    law_operand_reads_back(src, st, e);
}

/// What is assigned to, as an expression.
pub open spec fn target_expr(var: AssignableV<ParsedV>, span: Span) -> ExprV<ParsedV> {
    parse::untyped(
        match var {
            AssignableV::Var(name) => ExprInnerV::Ident(name),
            AssignableV::Ptr(name, _) => ExprInnerV::Deref(name, None),
            AssignableV::Index { data, index, .. } => ExprInnerV::Index {
                data: Box::new(data),
                index: Box::new(index),
                val_size: None,
            },
            AssignableV::MemberAccess(parent, member) => ExprInnerV::MemberAccess(
                Box::new(parent),
                member,
                None,
            ),
        },
        span,
    )
}

/// How a statement is written.
pub open spec fn stmt_written(s: StmtV<ParsedV>) -> Seq<TokenV>
    decreases s, 0nat,
{
    match s {
        StmtV::Declare { var, expr, .. } => seq![TokenV::Ident(var)] + (seq![TokenV::Declare] + (
        written(expr) + seq![TokenV::Semicolon])),
        StmtV::Assign { var, expr, var_span } => assign_written(var, var_span, None, expr),
        StmtV::Expr(expr) => written(expr) + seq![TokenV::Semicolon],
        StmtV::Return(expr) => seq![TokenV::Keyword(Keyword::Return)] + (written(expr) + seq![
            TokenV::Semicolon,
        ]),
        StmtV::If { guard, body } => seq![TokenV::Keyword(Keyword::If)] + (written(guard) + (seq![
            TokenV::LeftCurlyBracket,
        ] + stmts_written(body, 0))),
        StmtV::WhileLoop { guard, body } => seq![TokenV::Keyword(Keyword::While)] + (written(guard)
            + (seq![TokenV::LeftCurlyBracket] + stmts_written(body, 0))),
    }
}

/// An assignment, by an operator or without one.
pub open spec fn assign_written(
    var: AssignableV<ParsedV>,
    span: Span,
    op: Option<Operator>,
    expr: ExprV<ParsedV>,
) -> Seq<TokenV> {
    written(target_expr(var, span)) + (seq![TokenV::Assign(op)] + (written(expr) + seq![
        TokenV::Semicolon,
    ]))
}

/// The statements of a block from `i` on, and the brace that closes it.
pub open spec fn stmts_written(stmts: Seq<StmtV<ParsedV>>, i: nat) -> Seq<TokenV>
    decreases stmts, (stmts.len() - i) as nat,
{
    if i >= stmts.len() {
        seq![TokenV::RightCurlyBracket]
    } else {
        stmt_written(stmts[i as int]) + stmts_written(stmts, i + 1)
    }
}

/// Whether a statement is read as what it is. No statement begins with a `sizeof`.
pub open spec fn can_stmt(s: StmtV<ParsedV>) -> bool
    decreases s, 0nat,
{
    match s {
        StmtV::Declare { expr, explicit_type, .. } => can(expr) && explicit_type is None,
        StmtV::Assign { var, expr, var_span } => can(target_expr(var, var_span)) && can(expr),
        StmtV::Expr(expr) => can(expr) && !(expr.inner is SizeOf),
        StmtV::Return(expr) => can(expr),
        StmtV::If { guard, body } => can(guard) && can_stmts(body, body.len()),
        StmtV::WhileLoop { guard, body } => can(guard) && can_stmts(body, body.len()),
    }
}

pub open spec fn can_stmts(stmts: Seq<StmtV<ParsedV>>, n: nat) -> bool
    decreases stmts, n,
{
    if n == 0 || n > stmts.len() {
        true
    } else {
        can_stmts(stmts, (n - 1) as nat) && can_stmt(stmts[n - 1])
    }
}

pub open spec fn same_target(a: AssignableV<ParsedV>, b: AssignableV<ParsedV>) -> bool {
    match (a, b) {
        (AssignableV::Var(x), AssignableV::Var(y)) => x == y,
        (AssignableV::Ptr(x, _), AssignableV::Ptr(y, _)) => x == y,
        (
            AssignableV::Index { data: x, index: y, .. },
            AssignableV::Index { data: z, index: w, .. },
        ) => same(x, z) && same(y, w),
        (AssignableV::MemberAccess(x, m), AssignableV::MemberAccess(y, n)) => same(x, y) && m == n,
        _ => false,
    }
}

/// Whether `b` is the statement `a`, apart from places.
pub open spec fn same_stmt(a: StmtV<ParsedV>, b: StmtV<ParsedV>) -> bool
    decreases a, 0nat,
{
    match (a, b) {
        (
            StmtV::Declare { var: v, expr: x, .. },
            StmtV::Declare { var: w, expr: y, explicit_type, .. },
        ) => v == w && same(x, y) && explicit_type is None,
        (
            StmtV::Assign { var: v, expr: x, .. },
            StmtV::Assign { var: w, expr: y, .. },
        ) => same_target(v, w) && same(x, y),
        (StmtV::Expr(x), StmtV::Expr(y)) => same(x, y),
        (StmtV::Return(x), StmtV::Return(y)) => same(x, y),
        (StmtV::If { guard: x, body: p }, StmtV::If { guard: y, body: q }) => same(x, y) && p.len()
            == q.len() && same_stmts(p, q, p.len()),
        (StmtV::WhileLoop { guard: x, body: p }, StmtV::WhileLoop { guard: y, body: q }) => same(x, y)
            && p.len() == q.len() && same_stmts(p, q, p.len()),
        _ => false,
    }
}

pub open spec fn same_stmts(a: Seq<StmtV<ParsedV>>, b: Seq<StmtV<ParsedV>>, n: nat) -> bool
    decreases a, n,
{
    if n == 0 || n > a.len() {
        true
    } else {
        same_stmts(a, b, (n - 1) as nat) && same_stmt(a[n - 1], b[n - 1])
    }
}

pub open spec fn gave_stmt(
    out: Outcome<StmtV<ParsedV>>,
    s: StmtV<ParsedV>,
    end: ParseState,
) -> bool {
    out matches Outcome::Done(x, later) && later == end && same_stmt(s, x)
}

/// An expression with a semicolon behind it.
proof fn lemma_ended_expr(src: SourceV, st: ParseState, e: ExprV<ParsedV>)
    requires
        can(e),
        faithful(src.text, st.toks.toks),
        spelled(st, written(e) + seq![TokenV::Semicolon]),
    ensures
        gave(parse::ended_expr(src, st), e, on(st, written(e).len() + 1)),
        ended(on(st, written(e).len())),
        gave(parse::expr_at(src, st), e, on(st, written(e).len())),
        on(st, written(e).len()).is_at(TokenV::Semicolon),
        on(st, written(e).len()).moved() == on(st, written(e).len() + 1),
{
    lemma_split(st, written(e), seq![TokenV::Semicolon]);
    lemma_moved(on(st, written(e).len()), seq![TokenV::Semicolon]);
    law_expr_reads_back(src, st, e);
}

/// What is read of a target is that target.
proof fn lemma_same_target(var: AssignableV<ParsedV>, span: Span, x: ExprV<ParsedV>)
    requires
        same(target_expr(var, span), x),
    ensures
        parse::target(x.inner) matches Some(v) && same_target(var, v),
{
}

/// An assignment that is written down is read as it is; one by an operator is read as the assignment of what
/// the operator makes of the target and the value.
pub proof fn law_assignment_reads_back(
    src: SourceV,
    st: ParseState,
    var: AssignableV<ParsedV>,
    span: Span,
    op: Option<ArithmeticOp>,
    expr: ExprV<ParsedV>,
)
    requires
        op != Some(ArithmeticOp::Mod),
        can(target_expr(var, span)),
        can(expr),
        faithful(src.text, st.toks.toks),
        spelled(
            st,
            assign_written(
                var,
                span,
                match op {
                    Some(o) => Some(arithmetic_sign(o)),
                    None => None,
                },
                expr,
            ),
        ),
    ensures
        parse::stmt_at(src, st) matches Outcome::Done(StmtV::Assign { var: v, expr: x, .. }, later)
            && later == on(st, written(target_expr(var, span)).len() + written(expr).len() + 2)
            && same_target(var, v) && match op {
            None => same(expr, x),
            Some(o) => x.inner matches ExprInnerV::Arithmetic(l, r, p, None) && p == o && same(
                target_expr(var, span),
                *l,
            ) && same(expr, *r) && x.typ is None,
        },
{
    let sign = match op {
        Some(o) => Some(arithmetic_sign(o)),
        None => None,
    };
    let lhs = target_expr(var, span);
    let w = written(lhs);
    let tail = written(expr) + seq![TokenV::Semicolon];
    lemma_first(lhs);
    lemma_moved(st, w + (seq![TokenV::Assign(sign)] + tail));
    lemma_split(st, w, seq![TokenV::Assign(sign)] + tail);
    let mid = on(st, w.len());
    lemma_split(mid, seq![TokenV::Assign(sign)], tail);
    lemma_moved(mid, seq![TokenV::Assign(sign)] + tail);
    law_expr_reads_back(src, st, lhs);
    let x = parse::expr_at(src, st)->Done_0;
    lemma_same_target(var, span, x);
    lemma_ended_expr(src, on(mid, 1), expr);
    assert(on(on(mid, 1), written(expr).len() + 1) == on(st, w.len() + written(expr).len() + 2));
    let range = st.toks.toks[st.toks.pos].1;
    assert(parse::stmt_at(src, st) == parse::expr_stmt(src, range, st));
}

proof fn lemma_declare_reads_back(src: SourceV, st: ParseState, s: StmtV<ParsedV>)
    requires
        s is Declare,
        can_stmt(s),
        faithful(src.text, st.toks.toks),
        spelled(st, stmt_written(s)),
    ensures
        gave_stmt(parse::stmt_at(src, st), s, on(st, stmt_written(s).len())),
{
    if let StmtV::Declare { var, expr, var_span, .. } = s {
        let lhs = parse::untyped(ExprInnerV::Ident(var), var_span);
        let tail = written(expr) + seq![TokenV::Semicolon];
        assert(written(lhs) == seq![TokenV::Ident(var)]);
        lemma_moved(st, stmt_written(s));
        lemma_split(st, written(lhs), seq![TokenV::Declare] + tail);
        let mid = on(st, 1);
        lemma_split(mid, seq![TokenV::Declare], tail);
        lemma_moved(mid, seq![TokenV::Declare] + tail);
        law_expr_reads_back(src, st, lhs);
        lemma_ended_expr(src, on(mid, 1), expr);
        assert(on(on(mid, 1), written(expr).len() + 1) == on(st, stmt_written(s).len()));
        let range = st.toks.toks[st.toks.pos].1;
        assert(parse::stmt_at(src, st) == parse::expr_stmt(src, range, st));
    }
}

proof fn lemma_plain_reads_back(src: SourceV, st: ParseState, s: StmtV<ParsedV>)
    requires
        s is Expr || s is Return,
        can_stmt(s),
        faithful(src.text, st.toks.toks),
        spelled(st, stmt_written(s)),
    ensures
        gave_stmt(parse::stmt_at(src, st), s, on(st, stmt_written(s).len())),
{
    let range = st.toks.toks[st.toks.pos].1;
    match s {
        StmtV::Expr(expr) => {
            lemma_first(expr);
            lemma_moved(st, stmt_written(s));
            lemma_ended_expr(src, st, expr);
            assert(parse::stmt_at(src, st) == parse::expr_stmt(src, range, st));
        },
        StmtV::Return(expr) => {
            let tail = written(expr) + seq![TokenV::Semicolon];
            lemma_moved(st, stmt_written(s));
            lemma_split(st, seq![TokenV::Keyword(Keyword::Return)], tail);
            lemma_ended_expr(src, on(st, 1), expr);
            assert(on(on(st, 1), written(expr).len() + 1) == on(st, stmt_written(s).len()));
            assert(parse::stmt_at(src, st) == parse::keyword_at(
                src,
                Keyword::Return,
                range,
                on(st, 1),
            ));
        },
        _ => {},
    }
}

/// A statement that is written down is read as it is.
pub proof fn law_stmt_reads_back(src: SourceV, st: ParseState, s: StmtV<ParsedV>)
    requires
        can_stmt(s),
        faithful(src.text, st.toks.toks),
        spelled(st, stmt_written(s)),
    ensures
        gave_stmt(parse::stmt_at(src, st), s, on(st, stmt_written(s).len())),
    decreases s, 0nat,
{
    match s {
        StmtV::Declare { .. } => lemma_declare_reads_back(src, st, s),
        StmtV::Assign { var, expr, var_span } => {
            law_assignment_reads_back(src, st, var, var_span, None, expr);
            assert(stmt_written(s).len() == written(target_expr(var, var_span)).len() + written(
                expr,
            ).len() + 2);
        },
        StmtV::Expr(_) | StmtV::Return(_) => lemma_plain_reads_back(src, st, s),
        StmtV::If { guard, body } | StmtV::WhileLoop { guard, body } => {
            let keyword = if s is If {
                Keyword::If
            } else {
                Keyword::While
            };
            let head = seq![TokenV::Keyword(keyword)];
            let brace = seq![TokenV::LeftCurlyBracket];
            let inside = stmts_written(body, 0);
            lemma_split(st, head, written(guard) + (brace + inside));
            lemma_moved(st, stmt_written(s));
            lemma_split(on(st, 1), written(guard), brace + inside);
            let mid = on(st, 1 + written(guard).len());
            assert(on(on(st, 1), written(guard).len()) == mid);
            lemma_split(mid, brace, inside);
            lemma_moved(mid, brace + inside);
            law_expr_reads_back(src, on(st, 1), guard);
            assert forall|k: int| 0 <= k < body.len() implies can_stmt(#[trigger] body[k]) by {
                lemma_can_stmts(body, body.len(), k);
            }
            law_block_reads_back(src, on(mid, 1), body, 0, Seq::empty());
            assert(on(on(mid, 1), inside.len()) == on(st, stmt_written(s).len()));
            let range = st.toks.toks[st.toks.pos].1;
            assert(mid.ahead_of(on(st, 1)));
            let out = parse::guarded_at(src, on(st, 1));
            assert(parse::block_at(src, mid) == parse::stmts_at(src, on(mid, 1), Seq::empty()));
            assert(parse::stmt_at(src, st) == parse::keyword_at(src, keyword, range, on(st, 1)));
        },
    }
}

proof fn lemma_can_stmts(stmts: Seq<StmtV<ParsedV>>, n: nat, k: int)
    requires
        can_stmts(stmts, n),
        0 <= k < n <= stmts.len(),
    ensures
        can_stmt(stmts[k]),
    decreases n,
{
    if k < n - 1 {
        lemma_can_stmts(stmts, (n - 1) as nat, k);
    }
}

proof fn lemma_same_stmts(a: Seq<StmtV<ParsedV>>, b: Seq<StmtV<ParsedV>>, n: nat)
    requires
        n <= a.len(),
        n <= b.len(),
        forall|k: int| 0 <= k < n ==> same_stmt(a[k], #[trigger] b[k]),
    ensures
        same_stmts(a, b, n),
    decreases n,
{
    if n > 0 {
        assert(same_stmt(a[n - 1], b[n - 1]));
        lemma_same_stmts(a, b, (n - 1) as nat);
    }
}

proof fn lemma_stmt_first(s: StmtV<ParsedV>)
    requires
        can_stmt(s),
    ensures
        stmt_written(s).len() > 0,
        stmt_written(s)[0] != TokenV::RightCurlyBracket,
{
    match s {
        StmtV::Expr(expr) => lemma_first(expr),
        StmtV::Assign { var, expr, var_span } => {
            let w = written(target_expr(var, var_span));
            lemma_first(target_expr(var, var_span));
            assert(stmt_written(s)[0] == w[0]);
        },
        _ => {},
    }
}

/// A block that is written down is read as it is, up to the brace that closes it.
pub proof fn law_block_reads_back(
    src: SourceV,
    st: ParseState,
    stmts: Seq<StmtV<ParsedV>>,
    i: nat,
    done: Seq<StmtV<ParsedV>>,
)
    requires
        i <= stmts.len(),
        done.len() == i,
        forall|k: int| 0 <= k < stmts.len() ==> can_stmt(#[trigger] stmts[k]),
        forall|k: int| 0 <= k < i ==> same_stmt(stmts[k], #[trigger] done[k]),
        faithful(src.text, st.toks.toks),
        spelled(st, stmts_written(stmts, i)),
    ensures
        parse::stmts_at(src, st, done) matches Outcome::Done(xs, later) && later == on(
            st,
            stmts_written(stmts, i).len(),
        ) && xs.len() == stmts.len() && same_stmts(stmts, xs, stmts.len()),
    decreases stmts, (stmts.len() - i) as nat,
{
    let w = stmts_written(stmts, i);
    if i >= stmts.len() {
        lemma_moved(st, w);
        lemma_same_stmts(stmts, done, i);
    } else {
        let s = stmts[i as int];
        let x = stmt_written(s);
        let tail = stmts_written(stmts, i + 1);
        lemma_stmt_first(s);
        lemma_split(st, x, tail);
        lemma_moved(st, x);
        let next = on(st, x.len());
        law_stmt_reads_back(src, st, s);
        let y = parse::stmt_at(src, st)->Done_0;
        let done1 = done.push(y);
        assert forall|k: int| 0 <= k < i + 1 implies same_stmt(stmts[k], #[trigger] done1[k]) by {
            if k < i {
                assert(done1[k] == done[k]);
            }
        }
        law_block_reads_back(src, next, stmts, i + 1, done1);
        assert(on(next, tail.len()) == on(st, w.len()));
        assert(next.ahead_of(st));
        assert(parse::stmts_at(src, st, done) == parse::stmts_at(src, next, done1));
    }
}

proof fn lemma_string_token(text: Seq<char>, file: FileId, start: int, i: int, read: Seq<char>)
    ensures
        lex::lexed_string(text, file, start, i, read) matches LexedV::Token(t, _) ==> t is String,
    decreases text.len() - i,
{
    if 0 <= i < text.len() && text[i] != '"' {
        if let Ok((c, j)) = lex::full_char(text, file, i) {
            if j == i || j == i + 1 {
                lemma_string_token(text, file, start, j + 1, read.push(c));
            }
        }
    }
}

proof fn lemma_lexed_faithful(
    text: Seq<char>,
    file: FileId,
    from: int,
    read: Seq<(TokenV, TextRange)>,
)
    requires
        lex::lexable_len(text),
        0 <= from <= text.len(),
        faithful(text, read),
    ensures
        lex::lexed_all(text, file, from, read) matches LexOutcome::Tokens(toks) ==> faithful(text, toks),
    decreases text.len() - from,
{
    if let LexedV::Token(t, r) = lex::lexed(text, file, from) {
        lex::law_token_range(text, file, from);
        if from < r.end <= text.len() {
            let read1 = read.push((t, r));
            assert(t matches TokenV::Ident(name) ==> lex::byte_slice(
                text,
                r.start as int,
                r.end as int,
            ) == Some(name)) by {
                let i = lex::lexable(text, from);
                lex::lemma_lexable(text, from);
                lex::lemma_word_end(text, i);
                if text::is_digit(text[i]) {
                    assert(!(t is Ident));
                } else if text[i] == '"' {
                    lemma_string_token(text, file, i, i + 1, Seq::empty());
                }
            }
            assert(faithful(text, read1));
            lemma_lexed_faithful(text, file, r.end as int, read1);
        }
    }
}

/// In tokens that were read from a text every name is the text at its place.
pub proof fn law_lexed_is_faithful(text: Seq<char>, file: FileId)
    requires
        lex::lexable_len(text),
    ensures
        lex::lexing(text, file) matches LexOutcome::Tokens(toks) ==> faithful(text, toks),
{
    lemma_lexed_faithful(text, file, 0, Seq::empty());
}

} // verus!
