//! What holds of every program that is checked.

use vstd::prelude::*;

use crate::analyze::ast;
use crate::analyze::ast::{AssignableV, AstV, ExprInnerV, ExprV, FnDefV, FnPtrV, ItemV, StmtV};
use crate::analyze::semantics;
use crate::analyze::semantics::types;
use crate::analyze::semantics::types::{TypeId, TypesV};
use crate::analyze::semantics::{Checking, Verdict};
use crate::analyze::{ErrorV, Span};
use crate::text;

verus! {

/// From `a` to `b` errors were only added.
#[verifier::opaque]
pub open spec fn adds_errors(a: Checking, b: Checking) -> bool {
    a.errs.is_prefix_of(b.errs)
}

/// Errors were only added, and at least one if there is no type.
pub open spec fn typed_or_reported(st: Checking, typ: Option<TypeId>, next: Checking) -> bool {
    adds_errors(st, next) && (typ is None ==> st.errs.len() < next.errs.len())
}

proof fn lemma_trans(a: Checking, b: Checking, c: Checking)
    requires
        adds_errors(a, b),
        adds_errors(b, c),
    ensures
        adds_errors(a, c),
        a.errs.len() <= b.errs.len() <= c.errs.len(),
{
    reveal(adds_errors);
}

proof fn lemma_adds(a: Checking, b: Checking)
    ensures
        adds_errors(a, b) ==> a.errs.len() <= b.errs.len(),
        a.errs == b.errs ==> adds_errors(a, b),
{
    reveal(adds_errors);
}

proof fn lemma_reported(st: Checking, e: ErrorV)
    ensures
        adds_errors(st, st.reported(e)),
        st.reported(e).errs.len() == st.errs.len() + 1,
{
    reveal(adds_errors);
}

proof fn lemma_simple(st: Checking, span: Span, message: Seq<char>, label: Seq<char>)
    ensures
        adds_errors(st, st.simple(span, message, label)),
        st.simple(span, message, label).errs.len() == st.errs.len() + 1,
{
    lemma_reported(st, ErrorV::simple(span, message, label));
}

proof fn lemma_var(st: Checking, var: Seq<char>, span: Span)
    ensures
        typed_or_reported(
            st,
            semantics::var_type(st, var, span).0,
            semantics::var_type(st, var, span).1,
        ),
{
    reveal(adds_errors);
}

proof fn lemma_pointee(st: Checking, var: Seq<char>, span: Span)
    ensures
        semantics::pointee_type(st, var, span) matches Some(r) ==> typed_or_reported(st, r.0, r.1),
{
    reveal(adds_errors);
}

proof fn lemma_mismatched(st: Checking, a: Span, t: TypeId, b: Span, u: TypeId)
    ensures
        semantics::mismatched(st, a, t, b, u) matches Some(r) ==> typed_or_reported(st, None, r),
{
    reveal(adds_errors);
}

proof fn lemma_sign(st: Checking, a: Span, t: TypeId, b: Span, u: TypeId)
    ensures
        semantics::arithmetic_sign(st, a, t, b, u) matches Some(r) ==> adds_errors(st, r.1) && (
        r.0 is None ==> st.errs.len() < r.1.errs.len()),
{
    reveal(adds_errors);
}

proof fn lemma_bool(st: Checking, typ: Option<TypeId>, span: Span, message: Seq<char>)
    ensures
        adds_errors(st, semantics::bool_wanted(st, typ, span, message)),
{
    reveal(adds_errors);
}

proof fn lemma_negation(st: Checking, typ: Option<TypeId>, span: Span)
    ensures
        semantics::negation_type(st, typ, span) matches Some(r) ==> adds_errors(st, r.1),
{
    reveal(adds_errors);
}

proof fn lemma_cast(st: Checking, span: Span, from: Option<TypeId>, to: TypeId)
    ensures
        semantics::cast_checked(st, span, from, to) matches Some(r) ==> adds_errors(st, r),
{
    reveal(adds_errors);
}

proof fn lemma_index(
    st: Checking,
    t: TypeId,
    index: Option<TypeId>,
    index_span: Span,
    span: Span,
)
    ensures
        semantics::index_type(st, t, index, index_span, span) matches Some(r) ==> typed_or_reported(
            st,
            r.0,
            r.1,
        ),
{
    reveal(adds_errors);
}

proof fn lemma_member(st: Checking, span: Span, parent: Option<TypeId>, member: Seq<char>)
    ensures
        semantics::member_type(st, span, parent, member) matches Some(r) ==> adds_errors(st, r.1)
            && (r.0 is None && parent is Some ==> st.errs.len() < r.1.errs.len()),
{
    reveal(adds_errors);
}

/// Checking an expression leaves its place as it is, and the nesting of its operands.
pub proof fn law_nesting_stays(st: Checking, expr: ExprV<TypeId>, hint: Option<TypeId>)
    ensures
        semantics::check_expr(st, expr, hint) matches Some(x) ==> ast::nesting(x.expr)
            == ast::nesting(expr) && x.expr.span == expr.span,
    decreases ast::nesting(expr), 1nat, 0nat,
{
    match expr.inner {
        ExprInnerV::Arithmetic(..) | ExprInnerV::Comparison(..) => lemma_nested_numbers(
            st,
            expr,
            hint,
        ),
        ExprInnerV::Logical(..) | ExprInnerV::Index { .. } => lemma_nested_pair(st, expr, hint),
        ExprInnerV::Not(a) => law_nesting_stays(st, *a, None),
        ExprInnerV::Negate(a) => law_nesting_stays(st, *a, None),
        ExprInnerV::Cast(a, _) => law_nesting_stays(st, *a, None),
        ExprInnerV::MemberAccess(a, _, _) => law_nesting_stays(st, *a, None),
        ExprInnerV::FnCall(_, args) => {
            lemma_nested_args(st, args, 0, Seq::empty(), Seq::empty());
            if let Some((xs, _, _)) = semantics::check_args(
                st,
                args,
                0,
                Seq::empty(),
                Seq::empty(),
            ) {
                ast::lemma_same_args(xs, args, args.len());
            }
        },
        ExprInnerV::Construct { typ, fields } => {
            if let types::TypeKindV::Struct { fields: decl, .. } = st.info(typ).kind {
                lemma_nested_fields(st, decl, 0, fields, fields, Seq::empty());
                if let Some((xs, _, _)) = semantics::check_fields(
                    st,
                    decl,
                    0,
                    fields,
                    fields,
                    Seq::empty(),
                ) {
                    ast::lemma_same_fields(xs, fields, fields.len());
                }
            }
        },
        _ => {},
    }
}

proof fn lemma_nested_numbers(st: Checking, expr: ExprV<TypeId>, hint: Option<TypeId>)
    requires
        expr.inner is Arithmetic || expr.inner is Comparison,
    ensures
        semantics::check_expr(st, expr, hint) matches Some(x) ==> ast::nesting(x.expr)
            == ast::nesting(expr) && x.expr.span == expr.span,
    decreases ast::nesting(expr), 0nat, 0nat,
{
    match expr.inner {
        ExprInnerV::Arithmetic(a, b, _, _) => {
            law_nesting_stays(st, *a, hint);
            if let Some(x) = semantics::check_expr(st, *a, hint) {
                law_nesting_stays(x.st, *b, x.typ);
            }
        },
        ExprInnerV::Comparison(a, b, _, _) => {
            law_nesting_stays(st, *a, None);
            if let Some(x) = semantics::check_expr(st, *a, None) {
                law_nesting_stays(x.st, *b, None);
            }
        },
        _ => {},
    }
}

proof fn lemma_nested_pair(st: Checking, expr: ExprV<TypeId>, hint: Option<TypeId>)
    requires
        expr.inner is Logical || expr.inner is Index,
    ensures
        semantics::check_expr(st, expr, hint) matches Some(x) ==> ast::nesting(x.expr)
            == ast::nesting(expr) && x.expr.span == expr.span,
    decreases ast::nesting(expr), 0nat, 0nat,
{
    match expr.inner {
        ExprInnerV::Logical(a, b, _) => {
            let wanted = Some(semantics::prim(types::Primitive::Bool));
            law_nesting_stays(st, *a, wanted);
            if let Some(x) = semantics::check_expr(st, *a, wanted) {
                let message = "expected bool for logical operation"@;
                law_nesting_stays(
                    semantics::bool_wanted(x.st, x.typ, a.span, message),
                    *b,
                    wanted,
                );
            }
        },
        ExprInnerV::Index { data, index, .. } => {
            law_nesting_stays(st, *data, None);
            if let Some(x) = semantics::check_expr(st, *data, None) {
                law_nesting_stays(x.st, *index, Some(semantics::prim(types::Primitive::U64)));
            }
        },
        _ => {},
    }
}

proof fn lemma_nested_args(
    st: Checking,
    args: Seq<ExprV<TypeId>>,
    i: nat,
    done: Seq<ExprV<TypeId>>,
    typed: Seq<(TypeId, Span)>,
)
    requires
        done.len() == i <= args.len(),
        forall|j: int| 0 <= j < i ==> ast::nesting(#[trigger] done[j]) == ast::nesting(args[j]),
    ensures
        semantics::check_args(st, args, i, done, typed) matches Some(r) ==> r.0.len() == args.len()
            && forall|j: int|
            0 <= j < args.len() ==> ast::nesting(#[trigger] r.0[j]) == ast::nesting(args[j]),
    decreases ast::nesting_of_args(args, args.len()), 2nat, args.len() - i,
{
    if i < args.len() {
        ast::lemma_arg_nesting(args, args.len(), i as int);
        law_nesting_stays(st, args[i as int], None);
        if let Some(x) = semantics::check_expr(st, args[i as int], None) {
            let typed1 = match x.typ {
                Some(t) => typed.push((t, args[i as int].span)),
                None => typed,
            };
            lemma_nested_args(x.st, args, i + 1, done.push(x.expr), typed1);
        }
    }
}

/// A value for a field is one of the values.
pub(crate) proof fn lemma_init_index(fields: Seq<(Seq<char>, ExprV<TypeId>)>, name: Seq<char>, i: nat)
    ensures
        semantics::init_index(fields, name, i) matches Some(k) ==> i <= k < fields.len()
            && fields[k].0 == name,
    decreases fields.len() - i,
{
    if i < fields.len() {
        lemma_init_index(fields, name, i + 1);
    }
}

/// The values in `done` are nested as deeply as those in `fields`.
pub open spec fn same_nesting(
    done: Seq<(Seq<char>, ExprV<TypeId>)>,
    fields: Seq<(Seq<char>, ExprV<TypeId>)>,
) -> bool {
    &&& done.len() == fields.len()
    &&& forall|j: int|
        0 <= j < fields.len() ==> ast::nesting((#[trigger] done[j]).1) == ast::nesting(fields[j].1)
}

proof fn lemma_nested_fields(
    st: Checking,
    decl: Seq<(Seq<char>, TypeId, u64, Span)>,
    i: nat,
    fields: Seq<(Seq<char>, ExprV<TypeId>)>,
    done: Seq<(Seq<char>, ExprV<TypeId>)>,
    missing: Seq<Seq<char>>,
)
    requires
        same_nesting(done, fields),
    ensures
        semantics::check_fields(st, decl, i, fields, done, missing) matches Some(r) ==> same_nesting(
            r.0,
            fields,
        ),
    decreases ast::nesting_of_fields(fields, fields.len()), 2nat, decl.len() - i,
{
    if i < decl.len() {
        let (name, wanted, _, decl_span) = decl[i as int];
        lemma_init_index(fields, name, 0);
        match semantics::init_index(fields, name, 0) {
            None => lemma_nested_fields(st, decl, i + 1, fields, done, missing.push(name)),
            Some(k) => {
                ast::lemma_field_nesting(fields, fields.len(), k);
                law_nesting_stays(st, done[k].1, Some(wanted));
                if let Some(x) = semantics::check_expr(st, done[k].1, Some(wanted)) {
                    if let Some(st1) = semantics::field_checked(
                        x.st,
                        x.typ,
                        done[k].1.span,
                        wanted,
                        decl_span,
                    ) {
                        let done1 = done.update(k, (done[k].0, x.expr));
                        lemma_nested_fields(st1, decl, i + 1, fields, done1, missing);
                    }
                }
            },
        }
    }
}

/// Checking an expression only adds errors, and an expression that gets no type is reported.
pub proof fn law_untyped_is_reported(st: Checking, expr: ExprV<TypeId>, hint: Option<TypeId>)
    ensures
        semantics::check_expr(st, expr, hint) matches Some(x) ==> typed_or_reported(
            st,
            x.typ,
            x.st,
        ),
    decreases ast::nesting(expr), 1nat, 0nat,
{
    match expr.inner {
        ExprInnerV::Arithmetic(..) => lemma_arithmetic(st, expr, hint),
        ExprInnerV::Comparison(..) => lemma_comparison(st, expr, hint),
        ExprInnerV::Logical(..) => lemma_logical(st, expr, hint),
        ExprInnerV::Not(..) | ExprInnerV::Negate(..) | ExprInnerV::Cast(..) => lemma_unary(
            st,
            expr,
            hint,
        ),
        ExprInnerV::Index { .. } => lemma_indexed(st, expr, hint),
        ExprInnerV::MemberAccess(..) => lemma_access(st, expr, hint),
        ExprInnerV::FnCall(..) => lemma_called(st, expr, hint),
        ExprInnerV::Construct { .. } => lemma_construct(st, expr, hint),
        ExprInnerV::Ident(var) => lemma_var(st, var, expr.span),
        ExprInnerV::Pointer(var) => {
            lemma_var(st, var, expr.span);
            reveal(adds_errors);
        },
        ExprInnerV::Deref(var, _) => lemma_pointee(st, var, expr.span),
        _ => lemma_adds(st, st),
    }
}

proof fn lemma_arithmetic(st: Checking, expr: ExprV<TypeId>, hint: Option<TypeId>)
    requires
        expr.inner is Arithmetic,
    ensures
        semantics::check_expr(st, expr, hint) matches Some(x) ==> typed_or_reported(
            st,
            x.typ,
            x.st,
        ),
    decreases ast::nesting(expr), 0nat, 0nat,
{
    if let ExprInnerV::Arithmetic(a, b, _, _) = expr.inner {
        law_untyped_is_reported(st, *a, hint);
        if let Some(x) = semantics::check_expr(st, *a, hint) {
            if let Some(t) = x.typ {
                law_untyped_is_reported(x.st, *b, Some(t));
                if let Some(y) = semantics::check_expr(x.st, *b, Some(t)) {
                    lemma_trans(st, x.st, y.st);
                    if let Some(u) = y.typ {
                        lemma_sign(y.st, a.span, t, b.span, u);
                        if let Some((_, st1)) = semantics::arithmetic_sign(
                            y.st,
                            a.span,
                            t,
                            b.span,
                            u,
                        ) {
                            lemma_trans(st, y.st, st1);
                        }
                    }
                }
            }
        }
    }
}

proof fn lemma_comparison(st: Checking, expr: ExprV<TypeId>, hint: Option<TypeId>)
    requires
        expr.inner is Comparison,
    ensures
        semantics::check_expr(st, expr, hint) matches Some(x) ==> typed_or_reported(
            st,
            x.typ,
            x.st,
        ),
    decreases ast::nesting(expr), 0nat, 0nat,
{
    if let ExprInnerV::Comparison(a, b, _, _) = expr.inner {
        law_untyped_is_reported(st, *a, None);
        if let Some(x) = semantics::check_expr(st, *a, None) {
            law_untyped_is_reported(x.st, *b, None);
            if let Some(y) = semantics::check_expr(x.st, *b, None) {
                lemma_trans(st, x.st, y.st);
                if let (Some(t), Some(u)) = (x.typ, y.typ) {
                    lemma_mismatched(y.st, a.span, t, b.span, u);
                    if let Some(st1) = semantics::mismatched(y.st, a.span, t, b.span, u) {
                        lemma_trans(st, y.st, st1);
                    }
                }
            }
        }
    }
}

proof fn lemma_logical(st: Checking, expr: ExprV<TypeId>, hint: Option<TypeId>)
    requires
        expr.inner is Logical,
    ensures
        semantics::check_expr(st, expr, hint) matches Some(x) ==> typed_or_reported(
            st,
            x.typ,
            x.st,
        ),
    decreases ast::nesting(expr), 0nat, 0nat,
{
    let bool_type = Some(semantics::prim(types::Primitive::Bool));
    let message = "expected bool for logical operation"@;
    if let ExprInnerV::Logical(a, b, _) = expr.inner {
        law_untyped_is_reported(st, *a, bool_type);
        if let Some(x) = semantics::check_expr(st, *a, bool_type) {
            let st1 = semantics::bool_wanted(x.st, x.typ, a.span, message);
            lemma_bool(x.st, x.typ, a.span, message);
            lemma_trans(st, x.st, st1);
            law_untyped_is_reported(st1, *b, bool_type);
            if let Some(y) = semantics::check_expr(st1, *b, bool_type) {
                lemma_trans(st, st1, y.st);
                lemma_bool(y.st, y.typ, b.span, message);
                lemma_trans(st, y.st, semantics::bool_wanted(y.st, y.typ, b.span, message));
            }
        }
    }
}

proof fn lemma_unary(st: Checking, expr: ExprV<TypeId>, hint: Option<TypeId>)
    requires
        expr.inner is Not || expr.inner is Negate || expr.inner is Cast,
    ensures
        semantics::check_expr(st, expr, hint) matches Some(x) ==> typed_or_reported(
            st,
            x.typ,
            x.st,
        ),
    decreases ast::nesting(expr), 0nat, 0nat,
{
    match expr.inner {
        ExprInnerV::Not(a) => {
            law_untyped_is_reported(st, *a, None);
            if let Some(x) = semantics::check_expr(st, *a, None) {
                let message = "cannot negate non-boolean value"@;
                lemma_bool(x.st, x.typ, a.span, message);
                lemma_trans(st, x.st, semantics::bool_wanted(x.st, x.typ, a.span, message));
            }
        },
        ExprInnerV::Negate(a) => {
            law_untyped_is_reported(st, *a, None);
            if let Some(x) = semantics::check_expr(st, *a, None) {
                lemma_negation(x.st, x.typ, a.span);
                if let Some((_, st1)) = semantics::negation_type(x.st, x.typ, a.span) {
                    lemma_trans(st, x.st, st1);
                }
            }
        },
        ExprInnerV::Cast(a, to) => {
            law_untyped_is_reported(st, *a, None);
            if let Some(x) = semantics::check_expr(st, *a, None) {
                lemma_cast(x.st, a.span, x.typ, to);
                if let Some(st1) = semantics::cast_checked(x.st, a.span, x.typ, to) {
                    lemma_trans(st, x.st, st1);
                }
            }
        },
        _ => {},
    }
}

proof fn lemma_indexed(st: Checking, expr: ExprV<TypeId>, hint: Option<TypeId>)
    requires
        expr.inner is Index,
    ensures
        semantics::check_expr(st, expr, hint) matches Some(x) ==> typed_or_reported(
            st,
            x.typ,
            x.st,
        ),
    decreases ast::nesting(expr), 0nat, 0nat,
{
    let wanted = Some(semantics::prim(types::Primitive::U64));
    if let ExprInnerV::Index { data, index, .. } = expr.inner {
        law_untyped_is_reported(st, *data, None);
        if let Some(x) = semantics::check_expr(st, *data, None) {
            law_untyped_is_reported(x.st, *index, wanted);
            if let Some(y) = semantics::check_expr(x.st, *index, wanted) {
                lemma_trans(st, x.st, y.st);
                if let Some(t) = x.typ {
                    lemma_index(y.st, t, y.typ, index.span, expr.span);
                    if let Some((_, st1)) = semantics::index_type(
                        y.st,
                        t,
                        y.typ,
                        index.span,
                        expr.span,
                    ) {
                        lemma_trans(st, y.st, st1);
                    }
                }
            }
        }
    }
}

proof fn lemma_access(st: Checking, expr: ExprV<TypeId>, hint: Option<TypeId>)
    requires
        expr.inner is MemberAccess,
    ensures
        semantics::check_expr(st, expr, hint) matches Some(x) ==> typed_or_reported(
            st,
            x.typ,
            x.st,
        ),
    decreases ast::nesting(expr), 0nat, 0nat,
{
    if let ExprInnerV::MemberAccess(a, member, _) = expr.inner {
        law_untyped_is_reported(st, *a, None);
        if let Some(x) = semantics::check_expr(st, *a, None) {
            lemma_member(x.st, a.span, x.typ, member);
            if let Some((_, st1)) = semantics::member_type(x.st, a.span, x.typ, member) {
                lemma_trans(st, x.st, st1);
            }
        }
    }
}

proof fn lemma_called(st: Checking, expr: ExprV<TypeId>, hint: Option<TypeId>)
    requires
        expr.inner is FnCall,
    ensures
        semantics::check_expr(st, expr, hint) matches Some(x) ==> typed_or_reported(
            st,
            x.typ,
            x.st,
        ),
    decreases ast::nesting(expr), 0nat, 0nat,
{
    if let ExprInnerV::FnCall(f, args) = expr.inner {
        lemma_args(st, args, 0, Seq::empty(), Seq::empty());
        if let Some((_, ts, st1)) = semantics::check_args(
            st,
            args,
            0,
            Seq::empty(),
            Seq::empty(),
        ) {
            if let FnPtrV::Named(path) = f {
                lemma_call(st1, path, expr.span, args.len(), ts);
                if let Some((_, st2)) = semantics::call_type(
                    st1,
                    path,
                    expr.span,
                    args.len(),
                    ts,
                ) {
                    lemma_trans(st, st1, st2);
                }
            }
        }
    }
}

proof fn lemma_construct(st: Checking, expr: ExprV<TypeId>, hint: Option<TypeId>)
    requires
        expr.inner is Construct,
    ensures
        semantics::check_expr(st, expr, hint) matches Some(x) ==> typed_or_reported(
            st,
            x.typ,
            x.st,
        ),
    decreases ast::nesting(expr), 0nat, 0nat,
{
    if let ExprInnerV::Construct { typ, fields } = expr.inner {
        lemma_simple(st, expr.span, "invalid construct type"@, "expected struct"@);
        if st.knows(typ) {
            match st.info(typ).kind {
                types::TypeKindV::Struct { fields: decl, .. } => {
                    lemma_fields(st, decl, 0, fields, fields, Seq::empty());
                    if let Some((xs, missing, st1)) = semantics::check_fields(
                        st,
                        decl,
                        0,
                        fields,
                        fields,
                        Seq::empty(),
                    ) {
                        lemma_unknown(st1, typ, decl, fields, 0);
                        if let Some(st2) = semantics::unknown_fields(st1, typ, decl, fields, 0) {
                            lemma_trans(st, st1, st2);
                            let st3 = semantics::missing_reported(st2, expr.span, missing);
                            lemma_missing(st2, expr.span, missing);
                            lemma_trans(st, st2, st3);
                            let built = semantics::constructed(st3, typ, xs, expr.span);
                            lemma_adds(st3, built.st);
                            lemma_trans(st, st3, built.st);
                        }
                    }
                },
                _ => {
                    let st1 = st.simple(expr.span, "invalid construct type"@, "expected struct"@);
                    let built = semantics::constructed(st1, typ, fields, expr.span);
                    lemma_adds(st1, built.st);
                    lemma_trans(st, st1, built.st);
                },
            }
        }
    }
}

proof fn lemma_missing(st: Checking, span: Span, missing: Seq<Seq<char>>)
    ensures
        adds_errors(st, semantics::missing_reported(st, span, missing)),
{
    reveal(adds_errors);
}

pub(crate) proof fn lemma_args(
    st: Checking,
    args: Seq<ExprV<TypeId>>,
    i: nat,
    done: Seq<ExprV<TypeId>>,
    typed: Seq<(TypeId, Span)>,
)
    ensures
        semantics::check_args(st, args, i, done, typed) matches Some(r) ==> adds_errors(st, r.2),
    decreases ast::nesting_of_args(args, args.len()), 2nat, args.len() - i,
{
    if i < args.len() {
        ast::lemma_arg_nesting(args, args.len(), i as int);
        law_untyped_is_reported(st, args[i as int], None);
        if let Some(x) = semantics::check_expr(st, args[i as int], None) {
            let typed1 = match x.typ {
                Some(t) => typed.push((t, args[i as int].span)),
                None => typed,
            };
            lemma_args(x.st, args, i + 1, done.push(x.expr), typed1);
            if let Some(r) = semantics::check_args(x.st, args, i + 1, done.push(x.expr), typed1) {
                lemma_trans(st, x.st, r.2);
            }
        }
    } else {
        lemma_adds(st, st);
    }
}

pub(crate) proof fn lemma_args_checked(
    st: Checking,
    args: Seq<(TypeId, Span)>,
    decl: Seq<(Span, TypeId)>,
    i: nat,
)
    ensures
        semantics::args_checked(st, args, decl, i) matches Some(r) ==> adds_errors(st, r),
    decreases args.len() - i,
{
    if i < args.len() && i < decl.len() {
        let (t, span) = args[i as int];
        let (decl_span, u) = decl[i as int];
        if t == u {
            lemma_args_checked(st, args, decl, i + 1);
        } else if st.named(t, u) {
            let st1 = st.reported(
                ErrorV::at(span).says("incompatible types"@).label(
                    span,
                    "this is of type "@ + st.name(t)->0,
                ).note(decl_span, "function accepts argument of type "@ + st.name(u)->0),
            );
            assert(st1.errs.drop_last() =~= st.errs);
            lemma_reported_is(st, st1);
            lemma_args_checked(st1, args, decl, i + 1);
            if let Some(r) = semantics::args_checked(st1, args, decl, i + 1) {
                lemma_trans(st, st1, r);
            }
        }
    } else {
        lemma_adds(st, st);
    }
}

proof fn lemma_reported_is(st: Checking, next: Checking)
    requires
        next.errs.len() == st.errs.len() + 1,
        next.errs.drop_last() == st.errs,
    ensures
        adds_errors(st, next),
{
    reveal(adds_errors);
    assert(next.errs.take(st.errs.len() as int) =~= next.errs.drop_last());
}

pub(crate) proof fn lemma_call(
    st: Checking,
    path: Seq<char>,
    span: Span,
    count: nat,
    args: Seq<(TypeId, Span)>,
)
    ensures
        semantics::call_type(st, path, span, count, args) matches Some(r) ==> adds_errors(st, r.1)
            && (r.0 is None ==> st.errs.len() < r.1.errs.len()),
{
    if st.fns.contains_key(path) {
        let sig = st.fns[path];
        lemma_args_checked(st, args, sig.args, 0);
        let st1 = st.reported(
            ErrorV::at(span).says("invalid argument count"@).label(
                span,
                "expected "@ + text::decimal(sig.args.len()) + " arguments, got "@ + text::decimal(
                    count,
                ),
            ).note(sig.span, "function defined here"@),
        );
        assert(st1.errs.drop_last() =~= st.errs);
        lemma_reported_is(st, st1);
        lemma_args_checked(st1, args, sig.args, 0);
        let counted = if sig.args.len() != count {
            st1
        } else {
            st
        };
        lemma_adds(st, st);
        if let Some(st2) = semantics::args_checked(counted, args, sig.args, 0) {
            lemma_trans(st, counted, st2);
            let st3 = Checking { called: st2.called.insert(path), ..st2 };
            lemma_adds(st2, st3);
            lemma_trans(st, st2, st3);
        }
    } else {
        lemma_simple(st, span, "invalid function call"@, path + " is not a function"@);
    }
}

pub(crate) proof fn lemma_fields(
    st: Checking,
    decl: Seq<(Seq<char>, TypeId, u64, Span)>,
    i: nat,
    fields: Seq<(Seq<char>, ExprV<TypeId>)>,
    done: Seq<(Seq<char>, ExprV<TypeId>)>,
    missing: Seq<Seq<char>>,
)
    ensures
        semantics::check_fields(st, decl, i, fields, done, missing) matches Some(r) ==> adds_errors(
            st,
            r.2,
        ),
    decreases ast::nesting_of_fields(fields, fields.len()), 2nat, decl.len() - i,
{
    if i < decl.len() {
        let (name, wanted, _, decl_span) = decl[i as int];
        match semantics::init_index(fields, name, 0) {
            None => lemma_fields(st, decl, i + 1, fields, done, missing.push(name)),
            Some(k) => if ast::nesting(done[k].1) <= ast::nesting_of_fields(fields, fields.len()) {
                law_untyped_is_reported(st, done[k].1, Some(wanted));
                if let Some(x) = semantics::check_expr(st, done[k].1, Some(wanted)) {
                    if let Some(st1) = semantics::field_checked(
                        x.st,
                        x.typ,
                        done[k].1.span,
                        wanted,
                        decl_span,
                    ) {
                        lemma_field(x.st, x.typ, done[k].1.span, wanted, decl_span);
                        lemma_trans(st, x.st, st1);
                        let done1 = done.update(k, (done[k].0, x.expr));
                        lemma_fields(st1, decl, i + 1, fields, done1, missing);
                        if let Some(r) = semantics::check_fields(
                            st1,
                            decl,
                            i + 1,
                            fields,
                            done1,
                            missing,
                        ) {
                            lemma_trans(st, st1, r.2);
                        }
                    }
                }
            },
        }
    } else {
        lemma_adds(st, st);
    }
}

pub(crate) proof fn lemma_field(
    st: Checking,
    typ: Option<TypeId>,
    span: Span,
    wanted: TypeId,
    decl_span: Span,
)
    ensures
        semantics::field_checked(st, typ, span, wanted, decl_span) matches Some(r) ==> adds_errors(
            st,
            r,
        ),
{
    reveal(adds_errors);
}

pub(crate) proof fn lemma_unknown(
    st: Checking,
    typ: TypeId,
    decl: Seq<(Seq<char>, TypeId, u64, Span)>,
    fields: Seq<(Seq<char>, ExprV<TypeId>)>,
    i: nat,
)
    ensures
        semantics::unknown_fields(st, typ, decl, fields, i) matches Some(r) ==> adds_errors(st, r),
    decreases fields.len() - i,
{
    if i < fields.len() {
        let (name, expr) = fields[i as int];
        lemma_unknown(st, typ, decl, fields, i + 1);
        if let Some(n) = st.name(typ) {
            let st1 = st.simple(
                expr.span,
                "unknown field"@,
                "type "@ + n + " does not have a field named "@ + name,
            );
            lemma_simple(
                st,
                expr.span,
                "unknown field"@,
                "type "@ + n + " does not have a field named "@ + name,
            );
            lemma_unknown(st1, typ, decl, fields, i + 1);
            if let Some(r) = semantics::unknown_fields(st1, typ, decl, fields, i + 1) {
                lemma_trans(st, st1, r);
            }
        }
    } else {
        lemma_adds(st, st);
    }
}

/// Whether a statement holds a return.
pub open spec fn contains_return(stmt: StmtV<TypeId>) -> bool
    decreases stmt, 0nat,
{
    match stmt {
        StmtV::Return(_) => true,
        StmtV::If { body, .. } => some_returns(body, 0),
        StmtV::WhileLoop { body, .. } => some_returns(body, 0),
        _ => false,
    }
}

/// Whether one of the statements from `i` on holds a return.
pub open spec fn some_returns(stmts: Seq<StmtV<TypeId>>, i: nat) -> bool
    decreases stmts, stmts.len() - i,
{
    i < stmts.len() && (contains_return(stmts[i as int]) || some_returns(stmts, i + 1))
}

pub(crate) proof fn lemma_target(st: Checking, var: AssignableV<TypeId>, span: Span)
    ensures
        semantics::check_target(st, var, span) matches Some(r) ==> adds_errors(st, r.2),
{
    match var {
        AssignableV::Var(name) => lemma_var(st, name, span),
        AssignableV::Ptr(name, _) => lemma_pointee(st, name, span),
        AssignableV::Index { data, index, .. } => {
            let wanted = Some(semantics::prim(types::Primitive::U64));
            law_untyped_is_reported(st, data, None);
            if let Some(x) = semantics::check_expr(st, data, None) {
                law_untyped_is_reported(x.st, index, wanted);
                if let Some(y) = semantics::check_expr(x.st, index, wanted) {
                    lemma_trans(st, x.st, y.st);
                    if let Some(t) = x.typ {
                        lemma_index(y.st, t, y.typ, index.span, span);
                        if let Some((_, st1)) = semantics::index_type(
                            y.st,
                            t,
                            y.typ,
                            index.span,
                            span,
                        ) {
                            lemma_trans(st, y.st, st1);
                        }
                    }
                }
            }
        },
        AssignableV::MemberAccess(parent, member) => {
            law_untyped_is_reported(st, parent, None);
            if let Some(x) = semantics::check_expr(st, parent, None) {
                lemma_member_target(x.st, x.typ, member, span);
                if let Some((_, st1)) = semantics::member_target(x.st, x.typ, member, span) {
                    lemma_trans(st, x.st, st1);
                }
            }
        },
    }
}

proof fn lemma_member_target(
    st: Checking,
    parent: Option<TypeId>,
    member: Seq<char>,
    span: Span,
)
    ensures
        semantics::member_target(st, parent, member, span) matches Some(r) ==> adds_errors(st, r.1),
{
    reveal(adds_errors);
}

proof fn lemma_checks(
    st: Checking,
    typ: Option<TypeId>,
    other: Option<TypeId>,
    ret: TypeId,
    a: Span,
    b: Span,
)
    ensures
        semantics::declared_checked(st, typ, other, a, b) matches Some(r) ==> adds_errors(st, r),
        semantics::assigned_checked(st, typ, other, a, b) matches Some(r) ==> adds_errors(st, r),
        semantics::guard_checked(st, typ, a) matches Some(r) ==> adds_errors(st, r),
        semantics::return_checked(st, typ, ret, a, b) matches Some(r) ==> adds_errors(st, r),
{
    reveal(adds_errors);
}

proof fn lemma_declared(st: Checking, var: Seq<char>, typ: TypeId, span: Span)
    ensures
        adds_errors(st, semantics::declared(st, var, typ, span)),
{
    reveal(adds_errors);
}

proof fn lemma_declaration(st: Checking, stmt: StmtV<TypeId>, ret: TypeId, fn_span: Span)
    requires
        stmt is Declare || stmt is Assign || stmt is Expr || stmt is Return,
    ensures
        semantics::check_stmt(st, stmt, ret, fn_span) matches Some(r) ==> adds_errors(st, r.2)
            && r.1 == stmt is Return,
{
    match stmt {
        StmtV::Declare { var, expr, var_span, explicit_type } => {
            law_untyped_is_reported(st, expr, None);
            if let Some(x) = semantics::check_expr(st, expr, None) {
                lemma_checks(x.st, x.typ, explicit_type, ret, expr.span, var_span);
                if let Some(st1) = semantics::declared_checked(
                    x.st,
                    x.typ,
                    explicit_type,
                    expr.span,
                    var_span,
                ) {
                    lemma_trans(st, x.st, st1);
                    let typ = match x.typ {
                        Some(t) => t,
                        None => semantics::prim(types::Primitive::Unit),
                    };
                    lemma_declared(st1, var, typ, var_span);
                    lemma_trans(st, st1, semantics::declared(st1, var, typ, var_span));
                }
            }
        },
        StmtV::Assign { var, expr, var_span } => {
            law_untyped_is_reported(st, expr, None);
            if let Some(x) = semantics::check_expr(st, expr, None) {
                lemma_target(x.st, var, var_span);
                if let Some((_, decl, st1)) = semantics::check_target(x.st, var, var_span) {
                    lemma_trans(st, x.st, st1);
                    lemma_checks(st1, x.typ, decl, ret, expr.span, var_span);
                    if let Some(st2) = semantics::assigned_checked(
                        st1,
                        x.typ,
                        decl,
                        expr.span,
                        var_span,
                    ) {
                        lemma_trans(st, st1, st2);
                    }
                }
            }
        },
        StmtV::Expr(expr) => {
            law_untyped_is_reported(st, expr, None);
        },
        StmtV::Return(expr) => {
            law_untyped_is_reported(st, expr, Some(ret));
            if let Some(x) = semantics::check_expr(st, expr, Some(ret)) {
                lemma_checks(x.st, x.typ, None, ret, expr.span, fn_span);
                if let Some(st1) = semantics::return_checked(
                    x.st,
                    x.typ,
                    ret,
                    expr.span,
                    fn_span,
                ) {
                    lemma_trans(st, x.st, st1);
                }
            }
        },
        _ => {},
    }
}

/// Checking a statement only adds errors, and tells whether the statement holds a return.
pub proof fn law_statement(st: Checking, stmt: StmtV<TypeId>, ret: TypeId, fn_span: Span)
    ensures
        semantics::check_stmt(st, stmt, ret, fn_span) matches Some(r) ==> adds_errors(st, r.2)
            && r.1 == contains_return(stmt),
    decreases stmt, 0nat,
{
    match stmt {
        StmtV::If { guard, body } | StmtV::WhileLoop { guard, body } => {
            let bool_type = Some(semantics::prim(types::Primitive::Bool));
            law_untyped_is_reported(st, guard, bool_type);
            if let Some(x) = semantics::check_expr(st, guard, bool_type) {
                lemma_checks(x.st, x.typ, None, ret, guard.span, fn_span);
                if let Some(st1) = semantics::guard_checked(x.st, x.typ, guard.span) {
                    lemma_trans(st, x.st, st1);
                    law_body(st1, body, 0, Seq::empty(), false, ret, fn_span);
                    if let Some((_, _, st2)) = semantics::check_stmts(
                        st1,
                        body,
                        0,
                        Seq::empty(),
                        false,
                        ret,
                        fn_span,
                    ) {
                        lemma_trans(st, st1, st2);
                    }
                }
            }
        },
        _ => lemma_declaration(st, stmt, ret, fn_span),
    }
}

/// Checking statements only adds errors, and tells whether one of them holds a return.
pub proof fn law_body(
    st: Checking,
    stmts: Seq<StmtV<TypeId>>,
    i: nat,
    done: Seq<StmtV<TypeId>>,
    has_return: bool,
    ret: TypeId,
    fn_span: Span,
)
    ensures
        semantics::check_stmts(st, stmts, i, done, has_return, ret, fn_span) matches Some(r)
            ==> adds_errors(st, r.2) && r.1 == (has_return || some_returns(stmts, i)),
    decreases stmts, stmts.len() - i,
{
    if i < stmts.len() {
        law_statement(st, stmts[i as int], ret, fn_span);
        if let Some((x, r, st1)) = semantics::check_stmt(st, stmts[i as int], ret, fn_span) {
            law_body(st1, stmts, i + 1, done.push(x), has_return || r, ret, fn_span);
            if let Some((_, _, st2)) = semantics::check_stmts(
                st1,
                stmts,
                i + 1,
                done.push(x),
                has_return || r,
                ret,
                fn_span,
            ) {
                lemma_trans(st, st1, st2);
            }
        }
    } else {
        lemma_adds(st, st);
    }
}

pub(crate) proof fn lemma_def(
    st: Checking,
    def: FnDefV<TypeId>,
    path: Seq<char>,
    main: Seq<char>,
    message: Seq<char>,
    label: Seq<char>,
)
    ensures
        semantics::check_def(st, def, path, main, message, label) matches Some(r) ==> {
            &&& adds_errors(st, r.1)
            &&& !some_returns(def.body, 0) && (path == main || def.ret_type != semantics::prim(
                types::Primitive::Unit,
            )) ==> st.errs.len() < r.1.errs.len()
        },
{
    let st1 = Checking {
        vars: semantics::with_args(st.vars, def.args, def.args.len()),
        ..st
    };
    lemma_adds(st, st1);
    law_body(st1, def.body, 0, Seq::empty(), false, def.ret_type, def.decl_span);
    if let Some((_, has_return, st2)) = semantics::check_stmts(
        st1,
        def.body,
        0,
        Seq::empty(),
        false,
        def.ret_type,
        def.decl_span,
    ) {
        lemma_trans(st, st1, st2);
        lemma_simple(st2, def.decl_span, message, label);
        lemma_trans(st, st2, st2.simple(def.decl_span, message, label));
        if let Some((_, st3)) = semantics::check_def(st, def, path, main, message, label) {
            let checked = if !has_return && (path == main || def.ret_type != semantics::prim(
                types::Primitive::Unit,
            )) {
                st2.simple(def.decl_span, message, label)
            } else {
                st2
            };
            lemma_adds(checked, st3);
            lemma_trans(st, checked, st3);
        }
    }
}

/// A function without a return that has to have one is reported.
pub proof fn law_missing_return(
    st: Checking,
    def: FnDefV<TypeId>,
    path: Seq<char>,
    main: Seq<char>,
    message: Seq<char>,
    label: Seq<char>,
)
    requires
        !some_returns(def.body, 0),
        path == main || def.ret_type != semantics::prim(types::Primitive::Unit),
    ensures
        semantics::check_def(st, def, path, main, message, label) matches Some(r) ==> st.errs.len()
            < r.1.errs.len(),
{
    lemma_def(st, def, path, main, message, label);
}

pub(crate) proof fn lemma_methods(
    st: Checking,
    struct_name: Seq<char>,
    defs: Seq<FnDefV<TypeId>>,
    i: nat,
    done: Seq<FnDefV<TypeId>>,
    main: Seq<char>,
)
    ensures
        semantics::check_methods(st, struct_name, defs, i, done, main) matches Some(r)
            ==> adds_errors(st, r.1),
    decreases defs.len() - i,
{
    if i < defs.len() {
        let def = defs[i as int];
        let path = text::path_of(struct_name, def.name);
        let message = "no return statement found in function"@;
        let label = "function must return a value"@;
        lemma_def(st, def, path, main, message, label);
        if let Some((def, st1)) = semantics::check_def(st, def, path, main, message, label) {
            lemma_methods(st1, struct_name, defs, i + 1, done.push(def), main);
            if let Some((_, st2)) = semantics::check_methods(
                st1,
                struct_name,
                defs,
                i + 1,
                done.push(def),
                main,
            ) {
                lemma_trans(st, st1, st2);
            }
        }
    } else {
        lemma_adds(st, st);
    }
}

pub(crate) proof fn lemma_item(st: Checking, item: ItemV<TypeId>, main: Seq<char>)
    ensures
        semantics::check_item(st, item, main) matches Some(r) ==> adds_errors(st, r.1),
{
    let st1 = Checking { vars: Map::empty(), ..st };
    lemma_adds(st, st1);
    match item {
        ItemV::Function(def) => lemma_def(
            st1,
            def,
            def.name,
            main,
            "no return statement found in function main"@,
            "main must return a value"@,
        ),
        ItemV::Impl { struct_name, functions } => lemma_methods(
            st1,
            struct_name,
            functions,
            0,
            Seq::empty(),
            main,
        ),
        _ => lemma_adds(st1, st1),
    }
    if let Some((_, st2)) = semantics::check_item(st, item, main) {
        lemma_trans(st, st1, st2);
    }
}

/// An error that was found is never forgotten: checking items only adds errors.
pub proof fn law_items(
    st: Checking,
    items: Seq<ItemV<TypeId>>,
    i: nat,
    done: Seq<ItemV<TypeId>>,
    main: Seq<char>,
)
    ensures
        semantics::check_items(st, items, i, done, main) matches Some(r) ==> adds_errors(st, r.1),
    decreases items.len() - i,
{
    if i < items.len() {
        lemma_item(st, items[i as int], main);
        if let Some((x, st1)) = semantics::check_item(st, items[i as int], main) {
            law_items(st1, items, i + 1, done.push(x), main);
            if let Some((_, st2)) = semantics::check_items(st1, items, i + 1, done.push(x), main) {
                lemma_trans(st, st1, st2);
            }
        }
    } else {
        lemma_adds(st, st);
    }
}

proof fn lemma_kept(
    used: Set<Seq<char>>,
    items: Seq<ItemV<TypeId>>,
    i: nat,
    done: Seq<ItemV<TypeId>>,
)
    requires
        forall|k: int| 0 <= k < done.len() ==> is_kept(used, #[trigger] done[k]),
    ensures
        forall|k: int|
            0 <= k < semantics::kept_items(used, items, i, done).len() ==> is_kept(
                used,
                #[trigger] semantics::kept_items(used, items, i, done)[k],
            ),
        forall|k: int|
            0 <= k < done.len() ==> semantics::kept_items(used, items, i, done).contains(
                #[trigger] done[k],
            ),
        forall|j: int|
            i <= j < items.len() && is_used_function(used, #[trigger] items[j])
                ==> semantics::kept_items(used, items, i, done).contains(items[j]),
    decreases items.len() - i,
{
    if i < items.len() {
        let item = items[i as int];
        let done1 = match item {
            ItemV::Function(def) => if used.contains(def.name) {
                done.push(item)
            } else {
                done
            },
            ItemV::Impl { struct_name, functions } => done.push(
                ItemV::Impl {
                    struct_name,
                    functions: semantics::kept_methods(
                        used,
                        struct_name,
                        functions,
                        0,
                        Seq::empty(),
                    ),
                },
            ),
            ItemV::Struct { .. } | ItemV::MemorySegment { .. } => done.push(item),
            ItemV::ForwardDecl { .. } | ItemV::ExternLib(_) => done,
        };
        if let ItemV::Impl { struct_name, functions } = item {
            lemma_kept_methods(used, struct_name, functions, 0, Seq::empty());
        }
        assert(done1.len() > done.len() ==> is_kept(used, done1.last()));
        assert forall|k: int| 0 <= k < done1.len() implies is_kept(used, #[trigger] done1[k]) by {
            if k < done.len() {
                assert(done1[k] == done[k]);
            }
        }
        lemma_kept(used, items, i + 1, done1);
        let kept = semantics::kept_items(used, items, i, done);
        assert(kept == semantics::kept_items(used, items, i + 1, done1));
        assert forall|k: int| 0 <= k < done.len() implies kept.contains(#[trigger] done[k]) by {
            assert(done1[k] == done[k]);
        }
        assert forall|j: int|
            i <= j < items.len() && is_used_function(used, #[trigger] items[j]) implies kept.contains(
            items[j],
        ) by {
            if j == i {
                assert(done1.last() == items[j]);
                assert(done1[done.len() as int] == items[j]);
            }
        }
    } else {
        assert forall|k: int| 0 <= k < done.len() implies done.contains(#[trigger] done[k]) by {}
    }
}

/// Whether an item is a function that is used.
pub open spec fn is_used_function(used: Set<Seq<char>>, item: ItemV<TypeId>) -> bool {
    item matches ItemV::Function(def) && used.contains(def.name)
}

proof fn lemma_kept_methods(
    used: Set<Seq<char>>,
    struct_name: Seq<char>,
    defs: Seq<FnDefV<TypeId>>,
    i: nat,
    done: Seq<FnDefV<TypeId>>,
)
    requires
        methods_used(used, struct_name, done),
    ensures
        methods_used(
            used,
            struct_name,
            semantics::kept_methods(used, struct_name, defs, i, done),
        ),
    decreases defs.len() - i,
{
    if i < defs.len() {
        if used.contains(text::path_of(struct_name, defs[i as int].name)) {
            lemma_kept_methods(used, struct_name, defs, i + 1, done.push(defs[i as int]));
        } else {
            lemma_kept_methods(used, struct_name, defs, i + 1, done);
        }
    }
}

/// Whether all functions of an implementation are used.
pub open spec fn methods_used(
    used: Set<Seq<char>>,
    struct_name: Seq<char>,
    defs: Seq<FnDefV<TypeId>>,
) -> bool {
    forall|k: int|
        0 <= k < defs.len() ==> used.contains(
            text::path_of(struct_name, (#[trigger] defs[k]).name),
        )
}

/// Whether an item can be left in a program that holds no function that is not used.
pub open spec fn is_kept(used: Set<Seq<char>>, item: ItemV<TypeId>) -> bool {
    match item {
        ItemV::Function(def) => used.contains(def.name),
        ItemV::Impl { struct_name, functions } => methods_used(used, struct_name, functions),
        ItemV::Struct { .. } | ItemV::MemorySegment { .. } => true,
        ItemV::ForwardDecl { .. } | ItemV::ExternLib(_) => false,
    }
}

/// A program that was checked holds the functions that are used and no other, whether or not errors were
/// found in it.
pub proof fn law_analysis(st: Checking, tree: AstV<TypeId>, main: Seq<char>)
    ensures
        semantics::analysis(st, tree, main) matches Some((kept, st1)) ==> {
            &&& semantics::check_items(
                semantics::with_items(st, tree.items, 0),
                tree.items,
                0,
                Seq::empty(),
                main,
            ) matches Some((items, st2))
            &&& st2 == st1
            &&& forall|j: int|
                0 <= j < items.len() && is_used_function(
                    semantics::used(st1.calls, main),
                    #[trigger] items[j],
                ) ==> kept.items.contains(items[j])
            &&& forall|k: int|
                0 <= k < kept.items.len() ==> is_kept(
                    semantics::used(st1.calls, main),
                    #[trigger] kept.items[k],
                )
        },
{
    let st0 = semantics::with_items(st, tree.items, 0);
    if let Some((items, st1)) = semantics::check_items(st0, tree.items, 0, Seq::empty(), main) {
        lemma_kept(semantics::used(st1.calls, main), items, 0, Seq::empty());
    }
}

/// A program that is found valid holds the functions that are used and no other, and no error was
/// found in it; one that is not is told at least one error.
pub proof fn law_verdict(tree: AstV<TypeId>, types: TypesV, main: Seq<char>)
    ensures
        semantics::verdict(tree, types, main) matches Some(Verdict::Invalid(errs)) ==> errs.len()
            > 0,
        semantics::verdict(tree, types, main) matches Some(Verdict::Valid(valid, _)) ==> ({
            let st = semantics::with_items(semantics::initial(types), tree.items, 0);
            &&& st.errs.len() == 0
            &&& semantics::check_items(st, tree.items, 0, Seq::empty(), main) matches Some(
                (items, st1),
            )
            &&& st1.errs.len() == 0
            &&& forall|j: int|
                0 <= j < items.len() && is_used_function(
                    semantics::used(st1.calls, main),
                    #[trigger] items[j],
                ) ==> valid.items.contains(items[j])
            &&& forall|k: int|
                0 <= k < valid.items.len() ==> is_kept(
                    semantics::used(st1.calls, main),
                    #[trigger] valid.items[k],
                )
        }),
{
    let st = semantics::with_items(semantics::initial(types), tree.items, 0);
    law_items(st, tree.items, 0, Seq::empty(), main);
    reveal(adds_errors);
    if let Some((items, st1)) = semantics::check_items(st, tree.items, 0, Seq::empty(), main) {
        lemma_kept(semantics::used(st1.calls, main), items, 0, Seq::empty());
    }
}

} // verus!
