//! How the entries of a file are written as tokens, and that parsing such tokens gives the file back.

use vstd::prelude::*;

use crate::analyze::ast::parse;
use crate::analyze::ast::parse::{EntryV, Outcome, ParseState, ParsedV, SourceV};
use crate::analyze::ast::written;
use crate::analyze::ast::{AstV, FnDefV, ItemV};
use crate::analyze::lex::token::{Keyword, TokenV};
use crate::analyze::lex::TokensV;
use crate::analyze::semantics::types::{ParsedTypeV, Primitive};
use crate::analyze::{ErrorV, FileId, Span, TextRange};

verus! {

/// Names with their types from `i` on, with commas between them.
pub open spec fn bindings_written(args: Seq<(Seq<char>, ParsedV, Span)>, i: nat) -> Seq<TokenV>
    decreases args.len() - i,
{
    if i >= args.len() {
        Seq::empty()
    } else {
        binding_written(args, i) + bindings_written(args, i + 1)
    }
}

pub open spec fn binding_written(args: Seq<(Seq<char>, ParsedV, Span)>, i: nat) -> Seq<TokenV> {
    seq![TokenV::Ident(args[i as int].0), TokenV::Colon] + (written::type_written(
        args[i as int].1.0,
    ) + (if i + 1 < args.len() {
        seq![TokenV::Comma]
    } else {
        Seq::empty()
    }))
}

pub open spec fn can_bind(args: Seq<(Seq<char>, ParsedV, Span)>) -> bool {
    forall|k: int| 0 <= k < args.len() ==> written::can_type((#[trigger] args[k]).1.0)
}

pub open spec fn same_bindings(
    a: Seq<(Seq<char>, ParsedV, Span)>,
    b: Seq<(Seq<char>, ParsedV, Span)>,
) -> bool {
    &&& a.len() == b.len()
    &&& forall|k: int| 0 <= k < a.len() ==> (#[trigger] b[k]).0 == a[k].0 && b[k].1.0 == a[k].1.0
}

/// What comes before the body of a function: its name, its arguments and its type.
pub open spec fn head_written(
    name: Seq<char>,
    args: Seq<(Seq<char>, ParsedV, Span)>,
    ret: ParsedV,
) -> Seq<TokenV> {
    seq![TokenV::Keyword(Keyword::Function), TokenV::Ident(name), TokenV::LeftParenthesis] + (
    bindings_written(args, 0) + (seq![TokenV::RightParenthesis, TokenV::Arrow]
        + written::type_written(ret.0)))
}

pub open spec fn fn_written(def: FnDefV<ParsedV>) -> Seq<TokenV> {
    head_written(def.name, def.args, def.ret_type) + (seq![TokenV::LeftCurlyBracket]
        + written::stmts_written(def.body, 0))
}

pub open spec fn fns_written(defs: Seq<FnDefV<ParsedV>>, i: nat) -> Seq<TokenV>
    decreases defs.len() - i,
{
    if i >= defs.len() {
        Seq::empty()
    } else {
        fn_written(defs[i as int]) + fns_written(defs, i + 1)
    }
}

pub open spec fn item_written(item: ItemV<ParsedV>) -> Seq<TokenV> {
    match item {
        ItemV::Function(def) => fn_written(def),
        ItemV::ForwardDecl { name, args, ret_type, .. } => head_written(name, args, ret_type) + seq![
            TokenV::Semicolon,
        ],
        ItemV::ExternLib(name) => named_written(Keyword::Extern, name),
        ItemV::MemorySegment { name, typ } => seq![
            TokenV::Keyword(Keyword::Memory),
            TokenV::Ident(name),
            TokenV::Colon,
        ] + (written::type_written(typ.0) + seq![TokenV::Semicolon]),
        ItemV::Struct { name, fields, .. } => seq![
            TokenV::Keyword(Keyword::Struct),
            TokenV::Ident(name),
            TokenV::LeftCurlyBracket,
        ] + (bindings_written(fields, 0) + seq![TokenV::RightCurlyBracket]),
        ItemV::Impl { struct_name, functions } => seq![
            TokenV::Keyword(Keyword::Impl),
            TokenV::Ident(struct_name),
            TokenV::LeftCurlyBracket,
        ] + (fns_written(functions, 0) + seq![TokenV::RightCurlyBracket]),
    }
}

/// A name behind a keyword, with a semicolon.
pub open spec fn named_written(keyword: Keyword, name: Seq<char>) -> Seq<TokenV> {
    seq![TokenV::Keyword(keyword), TokenV::Ident(name), TokenV::Semicolon]
}

pub open spec fn entry_written(entry: EntryV) -> Seq<TokenV> {
    match entry {
        EntryV::Item(item) => item_written(item),
        EntryV::Import(path, _) => named_written(Keyword::Use, path),
        EntryV::Package(name) => named_written(Keyword::Package, name),
        EntryV::Module(name, _) => named_written(Keyword::Module, name),
    }
}

pub open spec fn entries_written(entries: Seq<EntryV>, i: nat) -> Seq<TokenV>
    decreases entries.len() - i,
{
    if i >= entries.len() {
        Seq::empty()
    } else {
        entry_written(entries[i as int]) + entries_written(entries, i + 1)
    }
}

pub open spec fn can_fn(def: FnDefV<ParsedV>) -> bool {
    &&& can_bind(def.args)
    &&& written::can_type(def.ret_type.0)
    &&& forall|k: int| 0 <= k < def.body.len() ==> written::can_stmt(#[trigger] def.body[k])
}

/// Whether an item is read as what it is.
pub open spec fn can_item(item: ItemV<ParsedV>) -> bool {
    match item {
        ItemV::Function(def) => can_fn(def),
        ItemV::ForwardDecl { args, ret_type, .. } => can_bind(args) && written::can_type(ret_type.0),
        ItemV::ExternLib(_) => true,
        ItemV::MemorySegment { typ, .. } => written::can_type(typ.0),
        ItemV::Struct { fields, .. } => can_bind(fields),
        ItemV::Impl { functions, .. } => forall|k: int|
            0 <= k < functions.len() ==> can_fn(#[trigger] functions[k]),
    }
}

pub open spec fn can_entry(entry: EntryV) -> bool {
    entry matches EntryV::Item(item) ==> can_item(item)
}

pub open spec fn same_fn(a: FnDefV<ParsedV>, b: FnDefV<ParsedV>) -> bool {
    &&& a.name == b.name
    &&& same_bindings(a.args, b.args)
    &&& a.ret_type.0 == b.ret_type.0
    &&& a.body.len() == b.body.len() && written::same_stmts(a.body, b.body, a.body.len())
}

/// Whether two items are one, apart from places.
pub open spec fn same_item(a: ItemV<ParsedV>, b: ItemV<ParsedV>) -> bool {
    match (a, b) {
        (ItemV::Function(x), ItemV::Function(y)) => same_fn(x, y),
        (
            ItemV::ForwardDecl { name: x, args: p, ret_type: t, .. },
            ItemV::ForwardDecl { name: y, args: q, ret_type: u, .. },
        ) => x == y && same_bindings(p, q) && t.0 == u.0,
        (ItemV::ExternLib(x), ItemV::ExternLib(y)) => x == y,
        (
            ItemV::MemorySegment { name: x, typ: t },
            ItemV::MemorySegment { name: y, typ: u },
        ) => x == y && t.0 == u.0,
        (
            ItemV::Struct { name: x, fields: p, .. },
            ItemV::Struct { name: y, fields: q, .. },
        ) => x == y && same_bindings(p, q),
        (
            ItemV::Impl { struct_name: x, functions: p },
            ItemV::Impl { struct_name: y, functions: q },
        ) => x == y && same_fns(p, q, p.len()) && p.len() == q.len(),
        _ => false,
    }
}

pub open spec fn same_fns(a: Seq<FnDefV<ParsedV>>, b: Seq<FnDefV<ParsedV>>, n: nat) -> bool {
    forall|k: int| 0 <= k < n ==> same_fn(a[k], #[trigger] b[k])
}

pub open spec fn same_entry(a: EntryV, b: EntryV) -> bool {
    match (a, b) {
        (EntryV::Item(x), EntryV::Item(y)) => same_item(x, y),
        (EntryV::Import(x, _), EntryV::Import(y, _)) => x == y,
        (EntryV::Package(x), EntryV::Package(y)) => x == y,
        (EntryV::Module(x, _), EntryV::Module(y, _)) => x == y,
        _ => false,
    }
}

proof fn lemma_token(st: ParseState, w: Seq<TokenV>, k: nat)
    requires
        written::spelled(st, w),
        k < w.len(),
    ensures
        written::on(st, k).current() == Some((w[k as int], st.toks.toks[st.toks.pos + k].1)),
        written::on(st, k).moved() == written::on(st, k + 1),
        written::on(st, k + 1).last_end() == Some(st.toks.toks[st.toks.pos + k].1.end),
        written::on(st, k + 1).ahead_of(written::on(st, k)),
{
    assert(st.toks.toks[st.toks.pos + k].0 == w[k as int]);
}

/// One name with its type, up to the comma.
proof fn lemma_binding(
    src: SourceV,
    st: ParseState,
    args: Seq<(Seq<char>, ParsedV, Span)>,
    i: nat,
    rest: Seq<TokenV>,
)
    requires
        i < args.len(),
        can_bind(args),
        written::faithful(src.text, st.toks.toks),
        written::spelled(st, binding_written(args, i) + rest),
        rest.len() > 0,
        i + 1 == args.len() ==> rest[0] != TokenV::PathSeparator && rest[0] != TokenV::Comma,
    ensures
        ({
            let n = written::type_written(args[i as int].1.0).len();
            let end = written::on(st, 2 + n);
            &&& st.current() matches Some((TokenV::Ident(name), _)) && name == args[i as int].0
            &&& st.moved() == written::on(st, 1)
            &&& written::on(st, 1).is_at(TokenV::Colon)
            &&& written::on(st, 1).moved() == written::on(st, 2)
            &&& parse::type_at(src, written::on(st, 2)) matches Outcome::Done(t, later) && later
                == end && t.0 == args[i as int].1.0
            &&& end.last_end() is Some
            &&& written::spelled(written::on(st, binding_written(args, i).len()), rest)
            &&& written::on(st, binding_written(args, i).len()).ahead_of(st)
            &&& if i + 1 < args.len() {
                &&& end.is_at(TokenV::Comma)
                &&& end.moved() == written::on(st, binding_written(args, i).len())
            } else {
                &&& end == written::on(st, binding_written(args, i).len())
                &&& end.is_at(rest[0])
            }
        }),
{
    let t = args[i as int].1.0;
    let w = written::type_written(t);
    let open = seq![TokenV::Ident(args[i as int].0), TokenV::Colon];
    let comma = if i + 1 < args.len() {
        seq![TokenV::Comma]
    } else {
        Seq::<TokenV>::empty()
    };
    let all = open + (w + (comma + rest));
    assert(binding_written(args, i) + rest =~= all);
    written::lemma_split(st, open, w + (comma + rest));
    lemma_token(st, all, 0);
    lemma_token(st, all, 1);
    assert(written::on(st, 0) == st);
    assert(all[0] == open[0] && all[1] == open[1]);
    let at_type = written::on(st, 2);
    written::lemma_split(at_type, w, comma + rest);
    let end = written::on(st, 2 + w.len());
    assert(written::on(at_type, w.len()) == end);
    written::lemma_split(end, comma, rest);
    lemma_token(end, comma + rest, 0);
    assert(written::on(end, 0) == end);
    written::law_type_reads_back(src, at_type, t);
    assert(all[1int + w.len()] == w[w.len() - 1]);
    lemma_token(st, all, 1 + w.len());
    if i + 1 < args.len() {
        assert((comma + rest)[0] == TokenV::Comma);
        assert(written::on(end, 1) == written::on(st, binding_written(args, i).len()));
    } else {
        assert((comma + rest)[0] == rest[0]);
        assert(written::on(end, 0) == written::on(st, binding_written(args, i).len()));
    }
}

/// Arguments that are written down are read as they are.
pub proof fn law_parameters_read_back(
    src: SourceV,
    st: ParseState,
    args: Seq<(Seq<char>, ParsedV, Span)>,
    i: nat,
    done: Seq<(Seq<char>, ParsedV, Span)>,
)
    requires
        i <= args.len(),
        can_bind(args),
        same_bindings(args.take(i as int), done),
        written::faithful(src.text, st.toks.toks),
        written::spelled(st, bindings_written(args, i) + seq![TokenV::RightParenthesis]),
    ensures
        parse::decl_args_at(src, st, done) matches Outcome::Done(xs, later) && later == written::on(
            st,
            bindings_written(args, i).len(),
        ) && same_bindings(args, xs),
    decreases args.len() - i,
{
    let close = seq![TokenV::RightParenthesis];
    if i < args.len() {
        let rest = bindings_written(args, i + 1) + close;
        assert(bindings_written(args, i) + close =~= binding_written(args, i) + rest);
        if i + 1 == args.len() {
            assert(rest[0] == TokenV::RightParenthesis);
        }
        lemma_binding(src, st, args, i, rest);
        let next = written::on(st, binding_written(args, i).len());
        let out = parse::type_at(src, written::on(st, 2));
        let range = (st.current()->0).1;
        let end = (out->Done_1).last_end()->0;
        let done1 = done.push((args[i as int].0, out->Done_0, src.between(range.start, end)));
        assert(same_bindings(args.take(i as int + 1), done1)) by {
            assert forall|k: int| 0 <= k < i + 1 implies (#[trigger] done1[k]).0 == args.take(
                i as int + 1,
            )[k].0 && done1[k].1.0 == args.take(i as int + 1)[k].1.0 by {
                if k < i {
                    assert(done1[k] == done[k]);
                    assert(args.take(i as int)[k] == args[k]);
                }
            }
        }
        law_parameters_read_back(src, next, args, i + 1, done1);
        assert(written::on(next, bindings_written(args, i + 1).len()) == written::on(
            st,
            bindings_written(args, i).len(),
        ));
        assert(parse::decl_args_at(src, st, done) == parse::decl_args_at(src, next, done1));
    } else {
        lemma_token(st, bindings_written(args, i) + close, 0);
        assert(written::on(st, 0) == st);
        assert(args.take(i as int) =~= args);
    }
}

/// Fields that are written down are read as they are.
pub proof fn law_fields_read_back(
    src: SourceV,
    st: ParseState,
    args: Seq<(Seq<char>, ParsedV, Span)>,
    i: nat,
    done: Seq<(Seq<char>, ParsedV, Span)>,
)
    requires
        i <= args.len(),
        can_bind(args),
        same_bindings(args.take(i as int), done),
        written::faithful(src.text, st.toks.toks),
        written::spelled(st, bindings_written(args, i) + seq![TokenV::RightCurlyBracket]),
    ensures
        parse::fields_at(src, st, done) matches Outcome::Done(xs, later) && later == written::on(
            st,
            bindings_written(args, i).len(),
        ) && same_bindings(args, xs),
    decreases args.len() - i,
{
    let close = seq![TokenV::RightCurlyBracket];
    if i < args.len() {
        let rest = bindings_written(args, i + 1) + close;
        assert(bindings_written(args, i) + close =~= binding_written(args, i) + rest);
        if i + 1 == args.len() {
            assert(rest[0] == TokenV::RightCurlyBracket);
        }
        lemma_binding(src, st, args, i, rest);
        let next = written::on(st, binding_written(args, i).len());
        let out = parse::type_at(src, written::on(st, 2));
        let range = (st.current()->0).1;
        let end = (out->Done_1).last_end()->0;
        let done1 = done.push((args[i as int].0, out->Done_0, src.between(range.start, end)));
        assert(same_bindings(args.take(i as int + 1), done1)) by {
            assert forall|k: int| 0 <= k < i + 1 implies (#[trigger] done1[k]).0 == args.take(
                i as int + 1,
            )[k].0 && done1[k].1.0 == args.take(i as int + 1)[k].1.0 by {
                if k < i {
                    assert(done1[k] == done[k]);
                    assert(args.take(i as int)[k] == args[k]);
                }
            }
        }
        law_fields_read_back(src, next, args, i + 1, done1);
        assert(written::on(next, bindings_written(args, i + 1).len()) == written::on(
            st,
            bindings_written(args, i).len(),
        ));
        assert(parse::fields_at(src, st, done) == parse::fields_at(src, next, done1));
    } else {
        lemma_token(st, bindings_written(args, i) + close, 0);
        assert(written::on(st, 0) == st);
        assert(args.take(i as int) =~= args);
    }
}

/// What comes before the body of a function is read as it is.
proof fn lemma_head(
    src: SourceV,
    st: ParseState,
    name: Seq<char>,
    args: Seq<(Seq<char>, ParsedV, Span)>,
    ret: ParsedV,
    rest: Seq<TokenV>,
)
    requires
        can_bind(args),
        written::can_type(ret.0),
        written::faithful(src.text, st.toks.toks),
        written::spelled(st, head_written(name, args, ret) + rest),
        rest.len() > 0,
        rest[0] != TokenV::PathSeparator,
    ensures
        ({
            let n = head_written(name, args, ret).len();
            let end = written::on(st, n);
            &&& n > 3
            &&& st.is_at(TokenV::Keyword(Keyword::Function))
            &&& st.moved() == written::on(st, 1)
            &&& written::on(st, 1).current() matches Some((TokenV::Ident(x), _)) && x == name
            &&& written::on(st, 1).moved() == written::on(st, 2)
            &&& parse::signature_at(src, written::on(st, 2)) matches Outcome::Done((xs, t), later)
                && later == end && same_bindings(args, xs) && t.0 == ret.0
            &&& end.last_end() is Some
            &&& written::spelled(end, rest)
            &&& end.is_at(rest[0])
            &&& end.ahead_of(st)
        }),
{
    let open = seq![
        TokenV::Keyword(Keyword::Function),
        TokenV::Ident(name),
        TokenV::LeftParenthesis,
    ];
    let inner = bindings_written(args, 0);
    let mid = seq![TokenV::RightParenthesis, TokenV::Arrow];
    let w = written::type_written(ret.0);
    let all = open + (inner + (mid + (w + rest)));
    assert(head_written(name, args, ret) + rest =~= all);
    lemma_token(st, all, 0);
    lemma_token(st, all, 1);
    lemma_token(st, all, 2);
    assert(written::on(st, 0) == st);
    assert(all[0] == open[0] && all[1] == open[1] && all[2] == open[2]);
    written::lemma_split(st, open, inner + (mid + (w + rest)));
    let at_args = written::on(st, 3);
    written::lemma_split(at_args, inner, mid + (w + rest));
    let after = written::on(st, 3 + inner.len());
    assert(written::on(at_args, inner.len()) == after);
    written::lemma_split(after, mid, w + rest);
    lemma_token(after, mid + (w + rest), 0);
    lemma_token(after, mid + (w + rest), 1);
    assert(written::on(after, 0) == after);
    let at_type = written::on(st, 5 + inner.len());
    assert(written::on(after, 2) == at_type);
    written::lemma_split(at_type, w, rest);
    let end = written::on(st, 5 + inner.len() + w.len());
    assert(written::on(at_type, w.len()) == end);
    lemma_token(end, rest, 0);
    assert(written::on(end, 0) == end);
    assert(written::spelled(at_args, inner + seq![TokenV::RightParenthesis])) by {
        let close = seq![TokenV::RightParenthesis];
        assert forall|k: int| 0 <= k < (inner + close).len() implies at_args.toks.toks[at_args.toks.pos
            + k].0 == #[trigger] (inner + close)[k] by {
            if k < inner.len() {
                assert((inner + close)[k] == inner[k]);
            } else {
                assert(after.toks.toks[after.toks.pos + 0].0 == mid[0]);
            }
        }
    }
    assert(args.take(0) =~= Seq::<(Seq<char>, ParsedV, Span)>::empty());
    law_parameters_read_back(src, at_args, args, 0, Seq::empty());
    written::law_type_reads_back(src, at_type, ret.0);
    assert(head_written(name, args, ret).len() == 5 + inner.len() + w.len());
    lemma_token(at_type, w + rest, (w.len() - 1) as nat);
    assert(written::on(at_type, (w.len() - 1) as nat + 1) == end);
}

/// A function that is written down is read as it is.
pub proof fn law_function_reads_back(src: SourceV, st: ParseState, def: FnDefV<ParsedV>)
    requires
        can_fn(def),
        written::faithful(src.text, st.toks.toks),
        written::spelled(st, fn_written(def)),
    ensures
        st.is_at(TokenV::Keyword(Keyword::Function)),
        st.moved() == written::on(st, 1),
        written::on(st, fn_written(def).len()).ahead_of(st),
        parse::function_at(src, (st.current()->0).1.start, written::on(st, 1)) matches Outcome::Done(
            ItemV::Function(x),
            later,
        ) && later == written::on(st, fn_written(def).len()) && same_fn(def, x),
{
    let brace = seq![TokenV::LeftCurlyBracket];
    let body = written::stmts_written(def.body, 0);
    let n = head_written(def.name, def.args, def.ret_type).len();
    lemma_head(src, st, def.name, def.args, def.ret_type, brace + body);
    let end = written::on(st, n);
    written::lemma_split(end, brace, body);
    lemma_token(end, brace + body, 0);
    assert(written::on(end, 0) == end);
    let inside = written::on(end, 1);
    written::law_block_reads_back(src, inside, def.body, 0, Seq::empty());
    assert(written::on(inside, body.len()) == written::on(st, fn_written(def).len()));
    assert(parse::block_at(src, end) == parse::stmts_at(src, inside, Seq::empty()));
}

proof fn lemma_forward(src: SourceV, st: ParseState, item: ItemV<ParsedV>)
    requires
        item is ForwardDecl,
        can_item(item),
        written::faithful(src.text, st.toks.toks),
        written::spelled(st, item_written(item)),
    ensures
        st.is_at(TokenV::Keyword(Keyword::Function)),
        st.moved() == written::on(st, 1),
        parse::function_at(src, (st.current()->0).1.start, written::on(st, 1)) matches Outcome::Done(
            x,
            later,
        ) && later == written::on(st, item_written(item).len()) && same_item(item, x),
{
    if let ItemV::ForwardDecl { name, args, ret_type, .. } = item {
        let close = seq![TokenV::Semicolon];
        let n = head_written(name, args, ret_type).len();
        lemma_head(src, st, name, args, ret_type, close);
        let end = written::on(st, n);
        lemma_token(end, close, 0);
        assert(written::on(end, 0) == end);
        assert(written::on(end, 1) == written::on(st, item_written(item).len()));
    }
}

/// The functions of an implementation that are written down are read as they are.
proof fn lemma_functions(
    src: SourceV,
    st: ParseState,
    defs: Seq<FnDefV<ParsedV>>,
    i: nat,
    done: Seq<FnDefV<ParsedV>>,
)
    requires
        i <= defs.len(),
        done.len() == i,
        forall|k: int| 0 <= k < defs.len() ==> can_fn(#[trigger] defs[k]),
        same_fns(defs, done, i),
        written::faithful(src.text, st.toks.toks),
        written::spelled(st, fns_written(defs, i) + seq![TokenV::RightCurlyBracket]),
    ensures
        parse::functions_at(src, st, done) matches Outcome::Done(xs, later) && later == written::on(
            st,
            fns_written(defs, i).len(),
        ) && xs.len() == defs.len() && same_fns(defs, xs, defs.len()),
    decreases defs.len() - i,
{
    let close = seq![TokenV::RightCurlyBracket];
    if i < defs.len() {
        let def = defs[i as int];
        let w = fn_written(def);
        let rest = fns_written(defs, i + 1) + close;
        assert(fns_written(defs, i) + close =~= w + rest);
        written::lemma_split(st, w, rest);
        law_function_reads_back(src, st, def);
        let next = written::on(st, w.len());
        let out = parse::function_at(src, (st.current()->0).1.start, written::on(st, 1));
        let done1 = done.push((out->Done_0)->Function_0);
        assert(same_fns(defs, done1, i + 1)) by {
            assert forall|k: int| 0 <= k < i + 1 implies same_fn(defs[k], #[trigger] done1[k]) by {
                if k < i {
                    assert(done1[k] == done[k]);
                }
            }
        }
        lemma_functions(src, next, defs, i + 1, done1);
        assert(written::on(next, fns_written(defs, i + 1).len()) == written::on(
            st,
            fns_written(defs, i).len(),
        ));
        assert(parse::functions_at(src, st, done) == parse::functions_at(src, next, done1));
    } else {
        lemma_token(st, fns_written(defs, i) + close, 0);
        assert(written::on(st, 0) == st);
    }
}

/// What stands in braces behind a keyword and a name.
proof fn lemma_braced(
    st: ParseState,
    keyword: Keyword,
    name: Seq<char>,
    inner: Seq<TokenV>,
)
    requires
        written::spelled(
            st,
            seq![
                TokenV::Keyword(keyword),
                TokenV::Ident(name),
                TokenV::LeftCurlyBracket,
            ] + (inner + seq![TokenV::RightCurlyBracket]),
        ),
    ensures
        st.is_at(TokenV::Keyword(keyword)),
        st.moved() == written::on(st, 1),
        written::on(st, 1).current() matches Some((TokenV::Ident(x), _)) && x == name,
        written::on(st, 1).moved() == written::on(st, 2),
        written::on(st, 2).is_at(TokenV::LeftCurlyBracket),
        written::on(st, 2).moved() == written::on(st, 3),
        written::spelled(written::on(st, 3), inner + seq![TokenV::RightCurlyBracket]),
        written::on(written::on(st, 3), inner.len()) == written::on(st, 3 + inner.len()),
        written::on(st, 3 + inner.len()).is_at(TokenV::RightCurlyBracket),
        written::on(st, 3 + inner.len()).moved() == written::on(st, 4 + inner.len()),
{
    let open = seq![TokenV::Keyword(keyword), TokenV::Ident(name), TokenV::LeftCurlyBracket];
    let close = seq![TokenV::RightCurlyBracket];
    let all = open + (inner + close);
    lemma_token(st, all, 0);
    lemma_token(st, all, 1);
    lemma_token(st, all, 2);
    lemma_token(st, all, 3 + inner.len());
    assert(written::on(st, 0) == st);
    assert(all[0] == open[0] && all[1] == open[1] && all[2] == open[2]);
    assert(all[3int + inner.len()] == close[0]);
    written::lemma_split(st, open, inner + close);
}

proof fn lemma_struct(src: SourceV, st: ParseState, item: ItemV<ParsedV>)
    requires
        item is Struct || item is Impl,
        can_item(item),
        written::faithful(src.text, st.toks.toks),
        written::spelled(st, item_written(item)),
    ensures
        parse::entry_at(src, st) matches Outcome::Done(EntryV::Item(x), later) && later == written::on(
            st,
            item_written(item).len(),
        ) && same_item(item, x),
{
    match item {
        ItemV::Struct { name, fields, .. } => {
            lemma_braced(st, Keyword::Struct, name, bindings_written(fields, 0));
            assert(fields.take(0) =~= Seq::<(Seq<char>, ParsedV, Span)>::empty());
            law_fields_read_back(src, written::on(st, 3), fields, 0, Seq::empty());
        },
        ItemV::Impl { struct_name, functions } => {
            lemma_braced(st, Keyword::Impl, struct_name, fns_written(functions, 0));
            lemma_functions(src, written::on(st, 3), functions, 0, Seq::empty());
        },
        _ => {},
    }
}

proof fn lemma_segment(src: SourceV, st: ParseState, item: ItemV<ParsedV>)
    requires
        item is MemorySegment,
        can_item(item),
        written::faithful(src.text, st.toks.toks),
        written::spelled(st, item_written(item)),
    ensures
        parse::entry_at(src, st) matches Outcome::Done(EntryV::Item(x), later) && later == written::on(
            st,
            item_written(item).len(),
        ) && same_item(item, x),
{
    if let ItemV::MemorySegment { name, typ } = item {
        let open = seq![TokenV::Keyword(Keyword::Memory), TokenV::Ident(name), TokenV::Colon];
        let w = written::type_written(typ.0);
        let close = seq![TokenV::Semicolon];
        let all = open + (w + close);
        lemma_token(st, all, 0);
        lemma_token(st, all, 1);
        lemma_token(st, all, 2);
        assert(written::on(st, 0) == st);
        assert(all[0] == open[0] && all[1] == open[1] && all[2] == open[2]);
        written::lemma_split(st, open, w + close);
        written::lemma_split(written::on(st, 3), w, close);
        let end = written::on(st, 3 + w.len());
        assert(written::on(written::on(st, 3), w.len()) == end);
        lemma_token(end, close, 0);
        assert(written::on(end, 0) == end);
        written::law_type_reads_back(src, written::on(st, 3), typ.0);
        assert(written::on(end, 1) == written::on(st, all.len()));
    }
}

proof fn lemma_named(src: SourceV, st: ParseState, entry: EntryV)
    requires
        entry matches EntryV::Item(item) ==> item is ExternLib,
        written::faithful(src.text, st.toks.toks),
        written::spelled(st, entry_written(entry)),
    ensures
        parse::entry_at(src, st) matches Outcome::Done(x, later) && later == written::on(
            st,
            entry_written(entry).len(),
        ) && same_entry(entry, x),
{
    let w = entry_written(entry);
    lemma_token(st, w, 0);
    lemma_token(st, w, 1);
    lemma_token(st, w, 2);
    assert(written::on(st, 0) == st);
    if let EntryV::Import(path, _) = entry {
        written::lemma_split(st, w.take(1), w.skip(1));
        assert(w.take(1) + w.skip(1) =~= w);
        assert(written::spelled(written::on(st, 1), seq![TokenV::Ident(path)])) by {
            let one = seq![TokenV::Ident(path)];
            assert(st.toks.toks[st.toks.pos + 1].0 == w[1]);
        }
        written::lemma_name(src, written::on(st, 1), path);
        assert(written::on(written::on(st, 1), 1) == written::on(st, 2));
    }
}

/// An entry that is written down is read as it is.
pub proof fn law_entry_reads_back(src: SourceV, st: ParseState, entry: EntryV)
    requires
        can_entry(entry),
        written::faithful(src.text, st.toks.toks),
        written::spelled(st, entry_written(entry)),
    ensures
        parse::entry_at(src, st) matches Outcome::Done(x, later) && later == written::on(
            st,
            entry_written(entry).len(),
        ) && same_entry(entry, x),
{
    match entry {
        EntryV::Item(ItemV::Function(def)) => law_function_reads_back(src, st, def),
        EntryV::Item(item) => match item {
            ItemV::ForwardDecl { .. } => lemma_forward(src, st, item),
            ItemV::Struct { .. } | ItemV::Impl { .. } => lemma_struct(src, st, item),
            ItemV::MemorySegment { .. } => lemma_segment(src, st, item),
            _ => lemma_named(src, st, entry),
        },
        _ => lemma_named(src, st, entry),
    }
}

/// The items of the first `n` entries, in their order.
pub open spec fn items_of(entries: Seq<EntryV>, n: nat) -> Seq<ItemV<ParsedV>>
    decreases n,
{
    if n == 0 || n > entries.len() {
        Seq::empty()
    } else {
        match entries[n - 1] {
            EntryV::Item(item) => items_of(entries, (n - 1) as nat).push(item),
            _ => items_of(entries, (n - 1) as nat),
        }
    }
}

/// The paths that the first `n` entries import, or the modules that they name.
pub open spec fn names_of(entries: Seq<EntryV>, modules: bool, n: nat) -> Seq<Seq<char>>
    decreases n,
{
    if n == 0 || n > entries.len() {
        Seq::empty()
    } else {
        let before = names_of(entries, modules, (n - 1) as nat);
        match entries[n - 1] {
            EntryV::Import(path, _) => if modules {
                before
            } else {
                before.push(path)
            },
            EntryV::Module(name, _) => if modules {
                before.push(name)
            } else {
                before
            },
            _ => before,
        }
    }
}

/// The package that the last of the first `n` entries that names one names.
pub open spec fn package_of(entries: Seq<EntryV>, n: nat) -> Option<Seq<char>>
    decreases n,
{
    if n == 0 || n > entries.len() {
        None
    } else {
        match entries[n - 1] {
            EntryV::Package(name) => Some(name),
            _ => package_of(entries, (n - 1) as nat),
        }
    }
}

/// Whether a tree holds the first `n` entries, and nothing else.
#[verifier::opaque]
pub open spec fn holds(tree: AstV<ParsedV>, entries: Seq<EntryV>, n: nat) -> bool {
    &&& tree.package == package_of(entries, n)
    &&& tree.mangled_path is None
    &&& tree.modules.len() == names_of(entries, true, n).len()
    &&& forall|k: int|
        0 <= k < tree.modules.len() ==> (#[trigger] tree.modules[k]).0 == names_of(
            entries,
            true,
            n,
        )[k]
    &&& tree.imports.len() == names_of(entries, false, n).len()
    &&& forall|k: int|
        0 <= k < tree.imports.len() ==> (#[trigger] tree.imports[k]).0 == names_of(
            entries,
            false,
            n,
        )[k]
    &&& tree.items.len() == items_of(entries, n).len()
    &&& forall|k: int|
        0 <= k < tree.items.len() ==> same_item(items_of(entries, n)[k], #[trigger] tree.items[k])
}

proof fn lemma_entry_len(entry: EntryV)
    ensures
        entry_written(entry).len() > 0,
{
}

/// A tree that holds some entries holds one more when it is entered.
proof fn lemma_entered(tree: AstV<ParsedV>, entries: Seq<EntryV>, i: nat, x: EntryV)
    requires
        i < entries.len(),
        holds(tree, entries, i),
        same_entry(entries[i as int], x),
    ensures
        holds(parse::entered(tree, x), entries, i + 1),
{
    reveal(holds);
    let out = parse::entered(tree, x);
    let modules = names_of(entries, true, i + 1);
    let imports = names_of(entries, false, i + 1);
    let items = items_of(entries, i + 1);
    assert(out.package == package_of(entries, i + 1));
    assert forall|k: int| 0 <= k < out.modules.len() implies (#[trigger] out.modules[k]).0
        == modules[k] by {
        if k < tree.modules.len() {
            assert(out.modules[k] == tree.modules[k]);
        }
    }
    assert forall|k: int| 0 <= k < out.imports.len() implies (#[trigger] out.imports[k]).0
        == imports[k] by {
        if k < tree.imports.len() {
            assert(out.imports[k] == tree.imports[k]);
        }
    }
    assert forall|k: int| 0 <= k < out.items.len() implies same_item(
        items[k],
        #[trigger] out.items[k],
    ) by {
        if k < tree.items.len() {
            assert(out.items[k] == tree.items[k]);
            assert(items[k] == items_of(entries, i)[k]);
        }
    }
}

proof fn lemma_entries(
    src: SourceV,
    st: ParseState,
    entries: Seq<EntryV>,
    i: nat,
    tree: AstV<ParsedV>,
)
    requires
        i <= entries.len(),
        forall|k: int| 0 <= k < entries.len() ==> can_entry(#[trigger] entries[k]),
        holds(tree, entries, i),
        written::faithful(src.text, st.toks.toks),
        written::spelled(st, entries_written(entries, i)),
        st.toks.pos + entries_written(entries, i).len() == st.toks.toks.len(),
    ensures
        parse::entries_at(src, st, tree) matches Some((out, errs)) && errs == st.errs && holds(
            out,
            entries,
            entries.len(),
        ),
    decreases entries.len() - i,
{
    if i < entries.len() {
        let entry = entries[i as int];
        let w = entry_written(entry);
        let rest = entries_written(entries, i + 1);
        written::lemma_split(st, w, rest);
        law_entry_reads_back(src, st, entry);
        let x = parse::entry_at(src, st)->Done_0;
        let next = written::on(st, w.len());
        let tree1 = parse::entered(tree, x);
        lemma_entry_len(entry);
        lemma_token(st, w, 0);
        assert(written::on(st, 0) == st);
        assert(next.ahead_of(st));
        lemma_entered(tree, entries, i, x);
        lemma_entries(src, next, entries, i + 1, tree1);
        assert(parse::entries_at(src, st, tree) == parse::entries_at(src, next, tree1));
    }
}

/// A file that is written down is read as it is, without an error.
pub proof fn law_file_reads_back(
    toks: Seq<(TokenV, TextRange)>,
    text: Seq<char>,
    file: FileId,
    entries: Seq<EntryV>,
)
    requires
        forall|k: int| 0 <= k < entries.len() ==> can_entry(#[trigger] entries[k]),
        written::faithful(text, toks),
        toks.len() == entries_written(entries, 0).len(),
        forall|k: int|
            0 <= k < toks.len() ==> (#[trigger] toks[k]).0 == entries_written(entries, 0)[k],
    ensures
        parse::parsing(TokensV { toks, pos: 0 }, text, file) matches Some((tree, errs)) && errs.len()
            == 0 && holds(tree, entries, entries.len()),
{
    let src = SourceV { text, file };
    let st = ParseState { toks: TokensV { toks, pos: 0 }, errs: Seq::<ErrorV>::empty() };
    let w = entries_written(entries, 0);
    assert(written::spelled(st, w)) by {
        assert forall|k: int| 0 <= k < w.len() implies st.toks.toks[st.toks.pos + k].0 == #[trigger] w[k] by {
            assert(toks[k].0 == w[k]);
        }
    }
    assert(holds(AstV::<ParsedV>::empty(), entries, 0)) by {
        reveal(holds);
    }
    lemma_entries(src, st, entries, 0, AstV::<ParsedV>::empty());
}

/// A function without an arrow has the unit type.
pub proof fn law_no_arrow(src: SourceV, st: ParseState)
    requires
        !st.is_at(TokenV::Arrow),
    ensures
        parse::ret_at(src, st) matches Outcome::Done(t, later) ==> t.0 == ParsedTypeV::Primitive(
            Primitive::Unit,
        ) && later == st,
        st.current() matches Some((_, range)) && range.start < usize::MAX ==> parse::ret_at(
            src,
            st,
        ) is Done,
{
}

} // verus!
