//! That resolving the names of a program leaves everything else as it was written, and what the names
//! come to stand for.

use vstd::prelude::*;

use crate::analyze::ast::parse::ParsedV;
use crate::analyze::ast::{
    AssignableV, AstV, ExprInnerV, ExprV, FnDefV, FnPtrV, ItemV, StmtV,
};
use crate::analyze::semantics::types;
use crate::analyze::semantics::types::resolve;
use crate::analyze::semantics::types::resolve::{KnownV, Resolving, ScopeV};
use crate::analyze::semantics::types::{ParsedTypeV, TypeId};
use crate::analyze::Span;
use crate::text;

verus! {

/// Whether an import has a given last name.
pub open spec fn imports(scope: ScopeV, name: Seq<char>, k: int) -> bool {
    0 <= k < scope.imports.len() && (text::split_last(scope.imports[k].0) matches Some((_, last))
        && last == name)
}

/// Whether an import is the first one with a given last name.
pub open spec fn imports_first(scope: ScopeV, name: Seq<char>, k: int) -> bool {
    imports(scope, name, k) && forall|j: int| 0 <= j < k ==> !#[trigger] imports(scope, name, j)
}

pub open spec fn is_known_type(scope: ScopeV, path: Seq<char>) -> bool {
    scope.known_types.contains(types::path_hash(path))
}

pub open spec fn is_known_fn(scope: ScopeV, path: Seq<char>) -> bool {
    scope.known_fns.contains(types::path_hash(path))
}

/// What the name of a struct stands for: one of the module, or else one with that path, or else one that
/// is imported. The number of an unknown one is zero.
pub open spec fn names_struct(scope: ScopeV, name: Seq<char>, id: TypeId) -> bool {
    let local = scope.path + "::"@ + name;
    if is_known_type(scope, local) {
        id == types::struct_id(local)
    } else if is_known_type(scope, name) {
        id == types::struct_id(name)
    } else {
        ||| exists|k: int| #[trigger]
            imports_first(scope, name, k) && id == types::struct_id(scope.imports[k].0)
                && is_known_type(scope, scope.imports[k].0)
        ||| (forall|k: int| !#[trigger] imports(scope, name, k)) && id == TypeId(0)
    }
}

/// What the name of a function stands for: one of the module, or else one with that path, or else one in
/// what is imported under its first name. An unknown one keeps its name.
pub open spec fn names_fn(scope: ScopeV, path: Seq<char>, found: Seq<char>) -> bool {
    let local = scope.path + "::"@ + path;
    if is_known_fn(scope, local) {
        found == local
    } else if is_known_fn(scope, path) {
        found == path
    } else {
        ||| exists|k: int| #[trigger]
            imports_first(scope, text::root_of(path), k) && (text::split_last(
                scope.imports[k].0,
            ) matches Some((parent, _)) && found == parent + "::"@ + path)
        ||| (forall|k: int| !#[trigger] imports(scope, text::root_of(path), k)) && found == path
    }
}

/// What a type that is written stands for.
pub open spec fn names_type(scope: ScopeV, t: ParsedTypeV, id: TypeId) -> bool
    decreases t,
{
    match t {
        ParsedTypeV::Primitive(p) => id == types::primitive_id(p),
        ParsedTypeV::Pointer(u) => exists|inner: TypeId|
            id == #[trigger] types::pointer_id(inner) && names_type(scope, *u, inner),
        ParsedTypeV::Struct(name) => names_struct(scope, name, id),
    }
}

/// Whether `b` is the expression `a` with its names resolved.
pub open spec fn resolves(scope: ScopeV, a: ExprV<ParsedV>, b: ExprV<TypeId>) -> bool
    decreases a, 0nat,
{
    &&& a.span == b.span
    &&& a.typ is Some == b.typ is Some
    &&& match (a.inner, b.inner) {
        (ExprInnerV::Const(x, t), ExprInnerV::Const(y, u)) => x == y && t == u,
        (ExprInnerV::Character(x), ExprInnerV::Character(y)) => x == y,
        (ExprInnerV::String(x), ExprInnerV::String(y)) => x == y,
        (ExprInnerV::Bool(x), ExprInnerV::Bool(y)) => x == y,
        (ExprInnerV::Ident(x), ExprInnerV::Ident(y)) => x == y,
        (ExprInnerV::Pointer(x), ExprInnerV::Pointer(y)) => x == y,
        (ExprInnerV::Deref(x, _), ExprInnerV::Deref(y, _)) => x == y,
        (ExprInnerV::Arithmetic(x, y, o, s), ExprInnerV::Arithmetic(z, w, p, t)) => o == p && s == t
            && resolves(scope, *x, *z) && resolves(scope, *y, *w),
        (ExprInnerV::Comparison(x, y, o, s), ExprInnerV::Comparison(z, w, p, t)) => o == p && s == t
            && resolves(scope, *x, *z) && resolves(scope, *y, *w),
        (ExprInnerV::Logical(x, y, o), ExprInnerV::Logical(z, w, p)) => o == p && resolves(
            scope,
            *x,
            *z,
        ) && resolves(scope, *y, *w),
        (ExprInnerV::Not(x), ExprInnerV::Not(z)) => resolves(scope, *x, *z),
        (ExprInnerV::Negate(x), ExprInnerV::Negate(z)) => resolves(scope, *x, *z),
        (ExprInnerV::Cast(x, t), ExprInnerV::Cast(z, u)) => resolves(scope, *x, *z) && names_type(
            scope,
            t.0,
            u,
        ),
        (
            ExprInnerV::Index { data: x, index: y, val_size: s },
            ExprInnerV::Index { data: z, index: w, val_size: t },
        ) => s == t && resolves(scope, *x, *z) && resolves(scope, *y, *w),
        (ExprInnerV::MemberAccess(x, m, _), ExprInnerV::MemberAccess(z, n, _)) => m == n && resolves(
            scope,
            *x,
            *z,
        ),
        (ExprInnerV::FnCall(f, xs), ExprInnerV::FnCall(g, ys)) => {
            &&& match (f, g) {
                (FnPtrV::Expr(e), FnPtrV::Named(name)) => e.inner matches ExprInnerV::Ident(path)
                    && names_fn(scope, path, name),
                (FnPtrV::Expr(e), FnPtrV::Expr(h)) => !(e.inner is Ident) && resolves(scope, *e, *h),
                _ => false,
            }
            &&& xs.len() == ys.len() && resolve_all(scope, xs, ys, xs.len())
        },
        (
            ExprInnerV::Construct { typ: t, fields: p },
            ExprInnerV::Construct { typ: u, fields: q },
        ) => names_type(scope, t.0, u) && p.len() == q.len() && resolve_fields(scope, p, q, p.len()),
        (ExprInnerV::SizeOf(t), ExprInnerV::SizeOf(u)) => names_type(scope, t.0, u),
        _ => false,
    }
}

pub open spec fn resolve_all(
    scope: ScopeV,
    a: Seq<ExprV<ParsedV>>,
    b: Seq<ExprV<TypeId>>,
    n: nat,
) -> bool
    decreases a, n,
{
    if n == 0 || n > a.len() {
        true
    } else {
        resolve_all(scope, a, b, (n - 1) as nat) && resolves(scope, a[n - 1], b[n - 1])
    }
}

pub open spec fn resolve_fields(
    scope: ScopeV,
    a: Seq<(Seq<char>, ExprV<ParsedV>)>,
    b: Seq<(Seq<char>, ExprV<TypeId>)>,
    n: nat,
) -> bool
    decreases a, n,
{
    if n == 0 || n > a.len() {
        true
    } else {
        &&& resolve_fields(scope, a, b, (n - 1) as nat)
        &&& a[n - 1].0 == b[n - 1].0
        &&& resolves(scope, a[n - 1].1, b[n - 1].1)
    }
}

proof fn lemma_import(scope: ScopeV, name: Seq<char>, i: int)
    requires
        0 <= i <= scope.imports.len(),
        forall|j: int| 0 <= j < i ==> !#[trigger] imports(scope, name, j),
    ensures
        match resolve::import_of(scope.imports, name, i) {
            Some((parent, path)) => exists|k: int| #[trigger]
                imports_first(scope, name, k) && path == scope.imports[k].0 && (text::split_last(
                    path,
                ) matches Some((p, _)) && p == parent),
            None => forall|k: int| !#[trigger] imports(scope, name, k),
        },
    decreases scope.imports.len() - i,
{
    if i < scope.imports.len() {
        if imports(scope, name, i) {
            assert(imports_first(scope, name, i));
        } else {
            lemma_import(scope, name, i + 1);
        }
    }
}

/// A type that is resolved is the one that was named.
pub proof fn law_type_named(scope: ScopeV, st: Resolving, t: ParsedTypeV, span: Span)
    ensures
        resolve::resolved_type(scope, st, t, span) matches Some((id, _)) ==> names_type(scope, t, id),
    decreases t,
{
    match t {
        ParsedTypeV::Pointer(u) => {
            law_type_named(scope, st, *u, span);
            if let Some((inner, _)) = resolve::resolved_type(scope, st, *u, span) {
                assert(names_type(scope, *u, inner));
            }
        },
        ParsedTypeV::Struct(name) => lemma_import(scope, name, 0),
        _ => {},
    }
}

/// A function that is called is the one that was named.
pub proof fn law_function_named(scope: ScopeV, path: Seq<char>)
    ensures
        names_fn(scope, path, resolve::function_path(scope, path).0),
{
    lemma_import(scope, text::root_of(path), 0);
}

/// An expression that is resolved is the one that was written, but for names of types and functions.
pub proof fn law_expr_resolves(scope: ScopeV, st: Resolving, e: ExprV<ParsedV>)
    ensures
        resolve::resolved_expr(scope, st, e) matches Some((x, _)) ==> resolves(scope, e, x),
    decreases e, 1nat,
{
    if let Some((typ, st1)) = resolve::resolved_opt_type(scope, st, e.typ) {
        match e.inner {
            ExprInnerV::Arithmetic(a, b, _, _) => lemma_pair(scope, st1, e, *a, *b),
            ExprInnerV::Comparison(a, b, _, _) => lemma_pair(scope, st1, e, *a, *b),
            ExprInnerV::Logical(a, b, _) => lemma_pair(scope, st1, e, *a, *b),
            ExprInnerV::Index { data, index, .. } => lemma_pair(scope, st1, e, *data, *index),
            ExprInnerV::Not(a) | ExprInnerV::Negate(a) | ExprInnerV::MemberAccess(a, _, _) => {
                law_expr_resolves(scope, st1, *a);
            },
            ExprInnerV::Cast(a, t) => {
                law_expr_resolves(scope, st1, *a);
                if let Some((_, st2)) = resolve::resolved_expr(scope, st1, *a) {
                    law_type_named(scope, st2, t.0, t.1);
                }
            },
            ExprInnerV::FnCall(f, args) => {
                if let FnPtrV::Expr(g) = f {
                    law_expr_resolves(scope, st1, *g);
                    if let ExprInnerV::Ident(path) = g.inner {
                        law_function_named(scope, path);
                    }
                }
                if let Some((_, st2)) = resolve::resolved_fn(scope, st1, f) {
                    lemma_all(scope, st2, args, 0, Seq::empty());
                }
            },
            ExprInnerV::Construct { typ: t, fields } => {
                law_type_named(scope, st1, t.0, t.1);
                if let Some((_, st2)) = resolve::resolved_type(scope, st1, t.0, t.1) {
                    lemma_fields(scope, st2, fields, 0, Seq::empty());
                }
            },
            ExprInnerV::SizeOf(t) => law_type_named(scope, st1, t.0, t.1),
            _ => {},
        }
    }
}

proof fn lemma_pair(
    scope: ScopeV,
    st: Resolving,
    e: ExprV<ParsedV>,
    a: ExprV<ParsedV>,
    b: ExprV<ParsedV>,
)
    requires
        decreases_to!(e => a),
        decreases_to!(e => b),
    ensures
        resolve::resolved_expr(scope, st, a) matches Some((x, st1)) ==> resolves(scope, a, x) && (
        resolve::resolved_expr(scope, st1, b) matches Some((y, _)) ==> resolves(scope, b, y)),
    decreases e, 0nat,
{
    law_expr_resolves(scope, st, a);
    if let Some((_, st1)) = resolve::resolved_expr(scope, st, a) {
        law_expr_resolves(scope, st1, b);
    }
}

proof fn lemma_all(
    scope: ScopeV,
    st: Resolving,
    args: Seq<ExprV<ParsedV>>,
    i: nat,
    done: Seq<ExprV<TypeId>>,
)
    requires
        i <= args.len(),
        done.len() == i,
        forall|k: int| 0 <= k < i ==> resolves(scope, args[k], #[trigger] done[k]),
    ensures
        resolve::resolved_exprs(scope, st, args, i, done) matches Some((xs, _)) ==> xs.len()
            == args.len() && resolve_all(scope, args, xs, args.len()),
    decreases args, (args.len() - i) as nat,
{
    if i < args.len() {
        law_expr_resolves(scope, st, args[i as int]);
        if let Some((x, st1)) = resolve::resolved_expr(scope, st, args[i as int]) {
            lemma_all(scope, st1, args, i + 1, done.push(x));
        }
    } else {
        lemma_all_of(scope, args, done, i);
    }
}

proof fn lemma_all_of(scope: ScopeV, a: Seq<ExprV<ParsedV>>, b: Seq<ExprV<TypeId>>, n: nat)
    requires
        n <= a.len(),
        n <= b.len(),
        forall|k: int| 0 <= k < n ==> resolves(scope, a[k], #[trigger] b[k]),
    ensures
        resolve_all(scope, a, b, n),
    decreases n,
{
    if n > 0 {
        assert(resolves(scope, a[n - 1], b[n - 1]));
        lemma_all_of(scope, a, b, (n - 1) as nat);
    }
}

proof fn lemma_fields(
    scope: ScopeV,
    st: Resolving,
    fields: Seq<(Seq<char>, ExprV<ParsedV>)>,
    i: nat,
    done: Seq<(Seq<char>, ExprV<TypeId>)>,
)
    requires
        i <= fields.len(),
        done.len() == i,
        forall|k: int|
            0 <= k < i ==> fields[k].0 == (#[trigger] done[k]).0 && resolves(
                scope,
                fields[k].1,
                done[k].1,
            ),
    ensures
        resolve::resolved_fields(scope, st, fields, i, done) matches Some((xs, _)) ==> xs.len()
            == fields.len() && resolve_fields(scope, fields, xs, fields.len()),
    decreases fields, (fields.len() - i) as nat,
{
    if i < fields.len() {
        law_expr_resolves(scope, st, fields[i as int].1);
        if let Some((x, st1)) = resolve::resolved_expr(scope, st, fields[i as int].1) {
            lemma_fields(scope, st1, fields, i + 1, done.push((fields[i as int].0, x)));
        }
    } else {
        lemma_fields_of(scope, fields, done, i);
    }
}

proof fn lemma_fields_of(
    scope: ScopeV,
    a: Seq<(Seq<char>, ExprV<ParsedV>)>,
    b: Seq<(Seq<char>, ExprV<TypeId>)>,
    n: nat,
)
    requires
        n <= a.len(),
        n <= b.len(),
        forall|k: int|
            0 <= k < n ==> a[k].0 == (#[trigger] b[k]).0 && resolves(scope, a[k].1, b[k].1),
    ensures
        resolve_fields(scope, a, b, n),
    decreases n,
{
    if n > 0 {
        assert(resolves(scope, a[n - 1].1, b[n - 1].1));
        lemma_fields_of(scope, a, b, (n - 1) as nat);
    }
}

pub open spec fn resolves_target(
    scope: ScopeV,
    a: AssignableV<ParsedV>,
    b: AssignableV<TypeId>,
) -> bool {
    match (a, b) {
        (AssignableV::Var(x), AssignableV::Var(y)) => x == y,
        (AssignableV::Ptr(x, _), AssignableV::Ptr(y, _)) => x == y,
        (
            AssignableV::Index { data: x, index: y, .. },
            AssignableV::Index { data: z, index: w, .. },
        ) => resolves(scope, x, z) && resolves(scope, y, w),
        (AssignableV::MemberAccess(x, m), AssignableV::MemberAccess(z, n)) => m == n && resolves(
            scope,
            x,
            z,
        ),
        _ => false,
    }
}

/// Whether `b` is the statement `a` with its names resolved.
pub open spec fn resolves_stmt(scope: ScopeV, a: StmtV<ParsedV>, b: StmtV<TypeId>) -> bool
    decreases a, 0nat,
{
    match (a, b) {
        (
            StmtV::Declare { var: v, expr: x, explicit_type: t, .. },
            StmtV::Declare { var: w, expr: y, explicit_type: u, .. },
        ) => v == w && resolves(scope, x, y) && match (t, u) {
            (Some(t), Some(u)) => names_type(scope, t.0, u),
            (None, None) => true,
            _ => false,
        },
        (
            StmtV::Assign { var: v, expr: x, .. },
            StmtV::Assign { var: w, expr: y, .. },
        ) => resolves_target(scope, v, w) && resolves(scope, x, y),
        (StmtV::Expr(x), StmtV::Expr(y)) => resolves(scope, x, y),
        (StmtV::Return(x), StmtV::Return(y)) => resolves(scope, x, y),
        (StmtV::If { guard: x, body: p }, StmtV::If { guard: y, body: q }) => resolves(scope, x, y)
            && p.len() == q.len() && resolve_stmts(scope, p, q, p.len()),
        (
            StmtV::WhileLoop { guard: x, body: p },
            StmtV::WhileLoop { guard: y, body: q },
        ) => resolves(scope, x, y) && p.len() == q.len() && resolve_stmts(scope, p, q, p.len()),
        _ => false,
    }
}

pub open spec fn resolve_stmts(
    scope: ScopeV,
    a: Seq<StmtV<ParsedV>>,
    b: Seq<StmtV<TypeId>>,
    n: nat,
) -> bool
    decreases a, n,
{
    if n == 0 || n > a.len() {
        true
    } else {
        resolve_stmts(scope, a, b, (n - 1) as nat) && resolves_stmt(scope, a[n - 1], b[n - 1])
    }
}

proof fn lemma_target(scope: ScopeV, st: Resolving, var: AssignableV<ParsedV>)
    ensures
        resolve::resolved_target(scope, st, var) matches Some((x, _)) ==> resolves_target(
            scope,
            var,
            x,
        ),
{
    match var {
        AssignableV::Index { data, index, .. } => {
            law_expr_resolves(scope, st, data);
            if let Some((_, st1)) = resolve::resolved_expr(scope, st, data) {
                law_expr_resolves(scope, st1, index);
            }
        },
        AssignableV::MemberAccess(a, _) => law_expr_resolves(scope, st, a),
        _ => {},
    }
}

/// A statement that is resolved is the one that was written, but for names of types and functions.
pub proof fn law_stmt_resolves(scope: ScopeV, st: Resolving, s: StmtV<ParsedV>)
    ensures
        resolve::resolved_stmt(scope, st, s) matches Some((x, _)) ==> resolves_stmt(scope, s, x),
    decreases s, 0nat,
{
    match s {
        StmtV::Declare { expr, explicit_type, .. } => {
            law_expr_resolves(scope, st, expr);
            if let Some((_, st1)) = resolve::resolved_expr(scope, st, expr) {
                if let Some(t) = explicit_type {
                    law_type_named(scope, st1, t.0, t.1);
                }
            }
        },
        StmtV::Assign { var, expr, .. } => {
            lemma_target(scope, st, var);
            if let Some((_, st1)) = resolve::resolved_target(scope, st, var) {
                law_expr_resolves(scope, st1, expr);
            }
        },
        StmtV::Expr(e) | StmtV::Return(e) => law_expr_resolves(scope, st, e),
        StmtV::If { guard, body } | StmtV::WhileLoop { guard, body } => {
            law_expr_resolves(scope, st, guard);
            if let Some((_, st1)) = resolve::resolved_expr(scope, st, guard) {
                lemma_stmts(scope, st1, body, 0, Seq::empty());
            }
        },
    }
}

proof fn lemma_stmts(
    scope: ScopeV,
    st: Resolving,
    stmts: Seq<StmtV<ParsedV>>,
    i: nat,
    done: Seq<StmtV<TypeId>>,
)
    requires
        i <= stmts.len(),
        done.len() == i,
        forall|k: int| 0 <= k < i ==> resolves_stmt(scope, stmts[k], #[trigger] done[k]),
    ensures
        resolve::resolved_stmts(scope, st, stmts, i, done) matches Some((xs, _)) ==> xs.len()
            == stmts.len() && resolve_stmts(scope, stmts, xs, stmts.len()),
    decreases stmts, (stmts.len() - i) as nat,
{
    if i < stmts.len() {
        law_stmt_resolves(scope, st, stmts[i as int]);
        if let Some((x, st1)) = resolve::resolved_stmt(scope, st, stmts[i as int]) {
            lemma_stmts(scope, st1, stmts, i + 1, done.push(x));
        }
    } else {
        lemma_stmts_of(scope, stmts, done, i);
    }
}

proof fn lemma_stmts_of(scope: ScopeV, a: Seq<StmtV<ParsedV>>, b: Seq<StmtV<TypeId>>, n: nat)
    requires
        n <= a.len(),
        n <= b.len(),
        forall|k: int| 0 <= k < n ==> resolves_stmt(scope, a[k], #[trigger] b[k]),
    ensures
        resolve_stmts(scope, a, b, n),
    decreases n,
{
    if n > 0 {
        assert(resolves_stmt(scope, a[n - 1], b[n - 1]));
        lemma_stmts_of(scope, a, b, (n - 1) as nat);
    }
}

pub open spec fn resolve_bindings(
    scope: ScopeV,
    a: Seq<(Seq<char>, ParsedV, Span)>,
    b: Seq<(Seq<char>, TypeId, Span)>,
) -> bool {
    &&& a.len() == b.len()
    &&& forall|k: int|
        0 <= k < b.len() ==> a[k].0 == (#[trigger] b[k]).0 && names_type(scope, a[k].1.0, b[k].1)
}

proof fn lemma_bindings(
    scope: ScopeV,
    st: Resolving,
    a: Seq<(Seq<char>, ParsedV, Span)>,
    i: nat,
    done: Seq<(Seq<char>, TypeId, Span)>,
)
    requires
        i <= a.len(),
        resolve_bindings(scope, a.take(i as int), done),
    ensures
        resolve::resolved_bindings(scope, st, a, i, done) matches Some((xs, _)) ==> resolve_bindings(
            scope,
            a,
            xs,
        ),
    decreases a.len() - i,
{
    if i < a.len() {
        let b = a[i as int];
        law_type_named(scope, st, b.1.0, b.1.1);
        if let Some((id, st1)) = resolve::resolved_type(scope, st, b.1.0, b.1.1) {
            let done1 = done.push((b.0, id, b.2));
            assert(resolve_bindings(scope, a.take(i as int + 1), done1)) by {
                assert forall|k: int| 0 <= k < done1.len() implies a.take(i as int + 1)[k].0 == (
                #[trigger] done1[k]).0 && names_type(
                    scope,
                    a.take(i as int + 1)[k].1.0,
                    done1[k].1,
                ) by {
                    if k < i {
                        assert(done1[k] == done[k]);
                        assert(a.take(i as int)[k] == a[k]);
                    }
                }
            }
            lemma_bindings(scope, st1, a, i + 1, done1);
        }
    } else {
        assert(a.take(i as int) =~= a);
    }
}

pub open spec fn resolves_fn(scope: ScopeV, a: FnDefV<ParsedV>, b: FnDefV<TypeId>) -> bool {
    &&& a.name == b.name
    &&& resolve_bindings(scope, a.args, b.args)
    &&& names_type(scope, a.ret_type.0, b.ret_type)
    &&& a.body.len() == b.body.len() && resolve_stmts(scope, a.body, b.body, a.body.len())
}

/// Whether `b` is the item `a` with its names resolved.
pub open spec fn resolves_item(scope: ScopeV, a: ItemV<ParsedV>, b: ItemV<TypeId>) -> bool {
    match (a, b) {
        (ItemV::Function(x), ItemV::Function(y)) => resolves_fn(scope, x, y),
        (
            ItemV::ForwardDecl { name: x, args: p, ret_type: t, .. },
            ItemV::ForwardDecl { name: y, args: q, ret_type: u, .. },
        ) => x == y && resolve_bindings(scope, p, q) && names_type(scope, t.0, u),
        (
            ItemV::MemorySegment { name: x, typ: t },
            ItemV::MemorySegment { name: y, typ: u },
        ) => x == y && names_type(scope, t.0, u),
        (
            ItemV::Struct { name: x, fields: p, .. },
            ItemV::Struct { name: y, fields: q, .. },
        ) => x == y && resolve_bindings(scope, p, q),
        (
            ItemV::Impl { struct_name: x, functions: p },
            ItemV::Impl { struct_name: y, functions: q },
        ) => x == y && p.len() == q.len() && forall|k: int|
            0 <= k < q.len() ==> resolves_fn(scope, p[k], #[trigger] q[k]),
        _ => false,
    }
}

proof fn lemma_def(scope: ScopeV, st: Resolving, def: FnDefV<ParsedV>)
    ensures
        resolve::resolved_def(scope, st, def) matches Some((x, _)) ==> resolves_fn(scope, def, x),
{
    lemma_bindings(scope, st, def.args, 0, Seq::empty());
    if let Some((_, st1)) = resolve::resolved_bindings(scope, st, def.args, 0, Seq::empty()) {
        lemma_stmts(scope, st1, def.body, 0, Seq::empty());
        if let Some((_, st2)) = resolve::resolved_stmts(scope, st1, def.body, 0, Seq::empty()) {
            law_type_named(scope, st2, def.ret_type.0, def.ret_type.1);
        }
    }
}

proof fn lemma_defs(
    scope: ScopeV,
    st: Resolving,
    defs: Seq<FnDefV<ParsedV>>,
    i: nat,
    done: Seq<FnDefV<TypeId>>,
)
    requires
        i <= defs.len(),
        done.len() == i,
        forall|k: int| 0 <= k < done.len() ==> resolves_fn(scope, defs[k], #[trigger] done[k]),
    ensures
        resolve::resolved_defs(scope, st, defs, i, done) matches Some((xs, _)) ==> xs.len()
            == defs.len() && forall|k: int|
            0 <= k < xs.len() ==> resolves_fn(scope, defs[k], #[trigger] xs[k]),
    decreases defs.len() - i,
{
    if i < defs.len() {
        lemma_def(scope, st, defs[i as int]);
        if let Some((x, st1)) = resolve::resolved_def(scope, st, defs[i as int]) {
            lemma_defs(scope, st1, defs, i + 1, done.push(x));
        }
    }
}

/// An item that is resolved is the one that was written, but for names of types and functions.
pub proof fn law_item_resolves(scope: ScopeV, st: Resolving, item: ItemV<ParsedV>)
    ensures
        resolve::resolved_item(scope, st, item) matches Some((x, _)) ==> resolves_item(
            scope,
            item,
            x,
        ),
{
    match item {
        ItemV::Function(def) => lemma_def(scope, st, def),
        ItemV::ForwardDecl { args, ret_type, .. } => {
            lemma_bindings(scope, st, args, 0, Seq::empty());
            if let Some((_, st1)) = resolve::resolved_bindings(scope, st, args, 0, Seq::empty()) {
                law_type_named(scope, st1, ret_type.0, ret_type.1);
            }
        },
        ItemV::MemorySegment { typ, .. } => law_type_named(scope, st, typ.0, typ.1),
        ItemV::Struct { fields, .. } => lemma_bindings(scope, st, fields, 0, Seq::empty()),
        ItemV::Impl { functions, .. } => lemma_defs(scope, st, functions, 0, Seq::empty()),
        ItemV::ExternLib(_) => {},
    }
}

/// What a name in a tree is resolved by.
pub open spec fn scope_of(known: KnownV, tree: AstV<ParsedV>) -> ScopeV {
    ScopeV {
        path: tree.mangled_path->0,
        imports: tree.imports,
        known_types: known.types,
        known_fns: known.fns,
    }
}

/// How many items the first `n` trees have.
pub open spec fn count(trees: Seq<AstV<ParsedV>>, n: nat) -> nat
    decreases n,
{
    if n == 0 || n > trees.len() {
        0
    } else {
        count(trees, (n - 1) as nat) + trees[n - 1].items.len()
    }
}

/// The items of the first `n` trees stand one behind the other, with their names resolved.
pub open spec fn stand(
    known: KnownV,
    trees: Seq<AstV<ParsedV>>,
    n: nat,
    out: Seq<ItemV<TypeId>>,
) -> bool {
    forall|i: int, k: int|
        0 <= i < n && 0 <= k < trees[i].items.len() ==> resolves_item(
            scope_of(known, trees[i]),
            #[trigger] trees[i].items[k],
            out[count(trees, i as nat) + k],
        )
}

proof fn lemma_items(
    scope: ScopeV,
    st: Resolving,
    items: Seq<ItemV<ParsedV>>,
    i: nat,
    base: nat,
    done: Seq<ItemV<TypeId>>,
)
    requires
        i <= items.len(),
        done.len() == base + i,
        forall|k: int| 0 <= k < i ==> resolves_item(scope, #[trigger] items[k], done[base + k]),
    ensures
        resolve::resolved_items(scope, st, items, i, done) matches Some((xs, _)) ==> {
            &&& xs.len() == base + items.len()
            &&& xs.take(done.len() as int) == done
            &&& forall|k: int|
                0 <= k < items.len() ==> resolves_item(scope, #[trigger] items[k], xs[base + k])
        },
    decreases items.len() - i,
{
    if i < items.len() {
        law_item_resolves(scope, st, items[i as int]);
        if let Some((x, st1)) = resolve::resolved_item(scope, st, items[i as int]) {
            let done1 = done.push(x);
            assert forall|k: int| 0 <= k < i + 1 implies resolves_item(
                scope,
                #[trigger] items[k],
                done1[base + k],
            ) by {
                if k < i {
                    assert(done1[base + k] == done[base + k]);
                }
            }
            lemma_items(scope, st1, items, i + 1, base, done1);
            if let Some((xs, _)) = resolve::resolved_items(scope, st1, items, i + 1, done1) {
                assert(xs.take(done.len() as int) =~= xs.take(done1.len() as int).take(
                    done.len() as int,
                ));
                assert(done1.take(done.len() as int) =~= done);
            }
        }
    } else {
        assert(done.take(done.len() as int) =~= done);
    }
}

/// Resolving trees puts their items one behind the other and leaves everything in them as it was written,
/// but for names of types and functions.
pub proof fn law_trees_resolve(
    known: KnownV,
    st: Resolving,
    trees: Seq<AstV<ParsedV>>,
    i: nat,
    done: Seq<ItemV<TypeId>>,
)
    requires
        i <= trees.len(),
        done.len() == count(trees, i),
        stand(known, trees, i, done),
    ensures
        resolve::resolved_trees(known, st, trees, i, done) matches Some((out, _)) ==> out.len()
            == count(trees, trees.len()) && stand(known, trees, trees.len(), out),
    decreases trees.len() - i,
{
    if i < trees.len() && trees[i as int].mangled_path is Some {
        let tree = trees[i as int];
        let scope = scope_of(known, tree);
        let st0 = resolve::checked_imports(scope, st, 0);
        lemma_from(scope, st0, tree.items, done);
        if let Some((done1, st1)) = resolve::resolved_items(scope, st0, tree.items, 0, done) {
            assert(stand(known, trees, i + 1, done1)) by {
                assert forall|j: int, k: int|
                    0 <= j < i + 1 && 0 <= k < trees[j].items.len() implies resolves_item(
                    scope_of(known, trees[j]),
                    #[trigger] trees[j].items[k],
                    done1[count(trees, j as nat) + k],
                ) by {
                    if j < i {
                        lemma_count(trees, j as nat, i);
                        let at = count(trees, j as nat) + k;
                        assert(done1.take(done.len() as int)[at] == done[at]);
                    }
                }
            }
            law_trees_resolve(known, st1, trees, i + 1, done1);
        }
    }
}

proof fn lemma_from(
    scope: ScopeV,
    st: Resolving,
    items: Seq<ItemV<ParsedV>>,
    done: Seq<ItemV<TypeId>>,
)
    ensures
        resolve::resolved_items(scope, st, items, 0, done) matches Some((xs, _)) ==> {
            &&& xs.len() == done.len() + items.len()
            &&& xs.take(done.len() as int) == done
            &&& forall|k: int|
                0 <= k < items.len() ==> resolves_item(
                    scope,
                    #[trigger] items[k],
                    xs[done.len() + k],
                )
        },
{
    lemma_items(scope, st, items, 0, done.len(), done);
}

proof fn lemma_count(trees: Seq<AstV<ParsedV>>, j: nat, i: nat)
    requires
        j < i <= trees.len(),
    ensures
        count(trees, j) + trees[j as int].items.len() <= count(trees, i),
    decreases i,
{
    if j + 1 < i {
        lemma_count(trees, j, (i - 1) as nat);
    }
}

} // verus!
