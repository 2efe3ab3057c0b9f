//! When a program is well typed, and that only such programs pass the check.

use vstd::prelude::*;

use crate::analyze::ast;
use crate::analyze::ast::{AssignableV, AstV, ExprInnerV, ExprV, FnDefV, FnPtrV, ItemV, StmtV};
use crate::analyze::semantics;
use crate::analyze::semantics::laws;
use crate::analyze::semantics::types;
use crate::analyze::semantics::types::{
    Primitive, Sign, TypeId, TypeKindV, TypesV,
};
use crate::analyze::semantics::{Checking, SigV, Verdict};
use crate::analyze::Span;
use crate::ir;
use crate::ir::ValSize;
use crate::text;

verus! {

/// What the names in a function stand for.
pub struct Env {
    pub vars: Map<Seq<char>, TypeId>,
    pub globals: Map<Seq<char>, TypeId>,
    pub fns: Map<Seq<char>, SigV>,
    pub types: TypesV,
}

impl Env {
    /// The type of a variable: a variable of the function hides a global one.
    pub open spec fn var(self, name: Seq<char>) -> Option<TypeId> {
        if self.vars.contains_key(name) {
            Some(self.vars[name])
        } else if self.globals.contains_key(name) {
            Some(self.globals[name])
        } else {
            None
        }
    }

    pub open spec fn with(self, vars: Map<Seq<char>, TypeId>) -> Env {
        Env { vars, ..self }
    }

    pub open spec fn kind(self, t: TypeId) -> Option<TypeKindV> {
        if self.types.contains_key(t.0) {
            Some(self.types[t.0].kind)
        } else {
            None
        }
    }

    /// The type that a pointer type leads to.
    pub open spec fn behind(self, t: TypeId) -> Option<TypeId> {
        match self.kind(t) {
            Some(TypeKindV::Pointer(v)) => Some(v),
            _ => None,
        }
    }

    /// The sign of a type of numbers.
    pub open spec fn sign(self, t: TypeId) -> Option<Sign> {
        match self.kind(t) {
            Some(TypeKindV::Primitive(p)) => if p == Primitive::I8 || p == Primitive::I64 {
                Some(Sign::Signed)
            } else if p == Primitive::U8 || p == Primitive::U64 {
                Some(Sign::Unsigned)
            } else {
                None
            },
            _ => None,
        }
    }

    /// Whether values of a type take as many bytes as can be handled at once.
    pub open spec fn sized(self, t: TypeId, size: Option<ValSize>) -> bool {
        size matches Some(s) && self.types.contains_key(t.0) && self.types[t.0].size
            == ir::val_bytes(s)
    }

    /// Whether a struct type has a member with a given name and type: the first with that name counts.
    pub open spec fn member(self, t: TypeId, name: Seq<char>, typ: TypeId) -> bool {
        self.kind(t) matches Some(TypeKindV::Struct { fields, .. }) && exists|i: int|
            first_field(fields, name, i) && (#[trigger] fields[i]).1 == typ
    }
}

pub open spec fn first_field(
    fields: Seq<(Seq<char>, TypeId, u64, Span)>,
    name: Seq<char>,
    i: int,
) -> bool {
    &&& 0 <= i < fields.len()
    &&& fields[i].0 == name
    &&& forall|j: int| 0 <= j < i ==> (#[trigger] fields[j]).0 != name
}

pub open spec fn id(p: Primitive) -> TypeId {
    types::primitive_id(p)
}

/// The type of the value of an expression. A comparison notes the type of what it compares.
pub open spec fn value_type(e: ExprV<TypeId>) -> Option<TypeId> {
    match e.inner {
        ExprInnerV::Comparison(..) => Some(id(Primitive::Bool)),
        _ => e.typ,
    }
}

pub open spec fn is_word(t: TypeId) -> bool {
    t == id(Primitive::I64) || t == id(Primitive::U64)
}

/// Whether two primitive types lie next to each other on the line `u64`, `i64`, `i8`, `char`.
pub open spec fn on_line(a: TypeId, b: TypeId) -> bool {
    ||| a == id(Primitive::U64) && b == id(Primitive::I64)
    ||| a == id(Primitive::I64) && b == id(Primitive::I8)
    ||| a == id(Primitive::I8) && b == id(Primitive::Char)
}

/// Whether values of one type can be cast to another: between pointers, between pointers and 64-bit
/// numbers, and between neighbours on the line of primitive types.
pub open spec fn can_cast(env: Env, from: TypeId, to: TypeId) -> bool {
    ||| env.behind(from) is Some && env.behind(to) is Some
    ||| env.behind(from) is Some && is_word(to)
    ||| is_word(from) && env.behind(to) is Some
    ||| on_line(from, to)
    ||| on_line(to, from)
}

/// Whether there is a value for a field.
pub open spec fn has_value(fields: Seq<(Seq<char>, ExprV<TypeId>)>, name: Seq<char>) -> bool {
    exists|k: int| 0 <= k < fields.len() && (#[trigger] fields[k]).0 == name
}

/// Whether a field is declared.
pub open spec fn is_declared(decl: Seq<(Seq<char>, TypeId, u64, Span)>, name: Seq<char>) -> bool {
    exists|i: int| 0 <= i < decl.len() && (#[trigger] decl[i]).0 == name
}

/// Whether an expression with its types noted is well typed.
pub open spec fn typed(env: Env, e: ExprV<TypeId>) -> bool
    decreases e, 0nat,
{
    match e.inner {
        ExprInnerV::Const(_, Some(p)) => e.typ == Some(id(p)),
        ExprInnerV::Const(_, None) => e.typ matches Some(t) && is_word(t),
        ExprInnerV::Character(_) => e.typ == Some(id(Primitive::Char)),
        ExprInnerV::String(_) => e.typ == Some(types::pointer_id(id(Primitive::Char))),
        ExprInnerV::Bool(_) => e.typ == Some(id(Primitive::Bool)),
        ExprInnerV::SizeOf(_) => e.typ == Some(id(Primitive::U64)),
        ExprInnerV::Ident(var) => env.var(var) is Some && e.typ == env.var(var),
        ExprInnerV::Pointer(var) => env.var(var) matches Some(t) && e.typ == Some(
            types::pointer_id(t),
        ),
        ExprInnerV::Deref(var, noted) => env.var(var) matches Some(t) && env.behind(t) is Some
            && e.typ == env.behind(t) && noted == e.typ,
        ExprInnerV::Arithmetic(a, b, _, sign) => {
            &&& typed(env, *a) && typed(env, *b)
            &&& value_type(*a) == e.typ && value_type(*b) == e.typ
            &&& e.typ matches Some(t) && env.sign(t) is Some && sign == env.sign(t)
        },
        ExprInnerV::Comparison(a, b, _, sign) => {
            &&& typed(env, *a) && typed(env, *b)
            &&& value_type(*a) == e.typ && value_type(*b) == e.typ
            &&& e.typ matches Some(t) && sign == env.sign(t)
        },
        ExprInnerV::Logical(a, b, _) => {
            &&& typed(env, *a) && typed(env, *b)
            &&& value_type(*a) == Some(id(Primitive::Bool))
            &&& value_type(*b) == Some(id(Primitive::Bool))
            &&& e.typ == Some(id(Primitive::Bool))
        },
        ExprInnerV::Not(a) => {
            &&& typed(env, *a)
            &&& value_type(*a) == Some(id(Primitive::Bool))
            &&& e.typ == Some(id(Primitive::Bool))
        },
        ExprInnerV::Negate(a) => {
            &&& typed(env, *a)
            &&& value_type(*a) == Some(id(Primitive::I64))
            &&& e.typ == Some(id(Primitive::I64))
        },
        ExprInnerV::Cast(a, to) => {
            &&& typed(env, *a)
            &&& value_type(*a) matches Some(t) && can_cast(env, t, to)
            &&& e.typ == Some(to)
        },
        ExprInnerV::Index { data, index, val_size } => {
            &&& typed(env, *data) && typed(env, *index)
            &&& value_type(*index) == Some(id(Primitive::U64))
            &&& value_type(*data) matches Some(t) && env.behind(t) is Some && e.typ == env.behind(t)
                && env.sized(e.typ->0, val_size)
        },
        ExprInnerV::MemberAccess(a, member, noted) => {
            &&& typed(env, *a)
            &&& value_type(*a) matches Some(t) && noted == Some(
                match env.behind(t) {
                    Some(v) => v,
                    None => t,
                },
            ) && e.typ is Some && env.member(noted->0, member, e.typ->0)
        },
        ExprInnerV::FnCall(f, args) => {
            &&& f matches FnPtrV::Named(path) && env.fns.contains_key(path) && {
                let sig = env.fns[path];
                &&& e.typ == Some(sig.ret)
                &&& sig.args.len() == args.len()
                &&& forall|k: int|
                    0 <= k < args.len() ==> value_type(#[trigger] args[k]) == Some(sig.args[k].1)
            }
            &&& typed_args(env, args, args.len())
        },
        ExprInnerV::Construct { typ, fields } => {
            &&& e.typ == Some(types::pointer_id(typ))
            &&& env.kind(typ) matches Some(TypeKindV::Struct { fields: decl, .. }) && {
                &&& forall|i: int|
                    0 <= i < decl.len() ==> has_value(fields, (#[trigger] decl[i]).0)
                &&& forall|k: int|
                    0 <= k < fields.len() ==> is_declared(decl, (#[trigger] fields[k]).0)
            }
        },
    }
}

/// Whether the first `n` arguments are well typed.
pub open spec fn typed_args(env: Env, args: Seq<ExprV<TypeId>>, n: nat) -> bool
    decreases args, n,
{
    if n == 0 || n > args.len() {
        true
    } else {
        typed(env, args[n - 1]) && typed_args(env, args, (n - 1) as nat)
    }
}

/// Whether two expressions are one, but for what is noted of types.
pub open spec fn alike(a: ExprV<TypeId>, b: ExprV<TypeId>) -> bool
    decreases a, 0nat,
{
    &&& a.span == b.span
    &&& match (a.inner, b.inner) {
        (ExprInnerV::Deref(x, _), ExprInnerV::Deref(y, _)) => x == y,
        (ExprInnerV::Arithmetic(x, y, o, _), ExprInnerV::Arithmetic(z, w, p, _)) => alike(*x, *z)
            && alike(*y, *w) && o == p,
        (ExprInnerV::Comparison(x, y, o, _), ExprInnerV::Comparison(z, w, p, _)) => alike(*x, *z)
            && alike(*y, *w) && o == p,
        (ExprInnerV::Logical(x, y, o), ExprInnerV::Logical(z, w, p)) => alike(*x, *z) && alike(
            *y,
            *w,
        ) && o == p,
        (ExprInnerV::Not(x), ExprInnerV::Not(y)) => alike(*x, *y),
        (ExprInnerV::Negate(x), ExprInnerV::Negate(y)) => alike(*x, *y),
        (ExprInnerV::Cast(x, t), ExprInnerV::Cast(y, u)) => alike(*x, *y) && t == u,
        (
            ExprInnerV::Index { data: x, index: y, .. },
            ExprInnerV::Index { data: z, index: w, .. },
        ) => alike(*x, *z) && alike(*y, *w),
        (ExprInnerV::MemberAccess(x, m, _), ExprInnerV::MemberAccess(y, n, _)) => alike(*x, *y) && m
            == n,
        (ExprInnerV::FnCall(f, xs), ExprInnerV::FnCall(g, ys)) => f == g && xs.len() == ys.len()
            && alike_args(xs, ys, xs.len()),
        (
            ExprInnerV::Construct { typ: t, fields: xs },
            ExprInnerV::Construct { typ: u, fields: ys },
        ) => t == u && xs.len() == ys.len() && forall|k: int|
            0 <= k < xs.len() ==> (#[trigger] xs[k]).0 == ys[k].0,
        (x, y) => x == y,
    }
}

pub open spec fn alike_args(a: Seq<ExprV<TypeId>>, b: Seq<ExprV<TypeId>>, n: nat) -> bool
    decreases a, n,
{
    if n == 0 || n > a.len() {
        true
    } else {
        alike(a[n - 1], b[n - 1]) && alike_args(a, b, (n - 1) as nat)
    }
}

pub open spec fn env_of(st: Checking, t: TypesV) -> Env {
    Env { vars: st.vars, globals: st.globals, fns: st.fns, types: t }
}

/// Every type that is known in `a` is known in `b`, as the same.
pub open spec fn known_in(a: TypesV, b: TypesV) -> bool {
    forall|k: u64| #[trigger] a.contains_key(k) ==> b.contains_key(k) && b[k] == a[k]
}

/// Nothing was declared from `a` to `b`, and no type was forgotten.
pub open spec fn same_names(a: Checking, b: Checking) -> bool {
    &&& a.vars == b.vars
    &&& a.globals == b.globals
    &&& a.fns == b.fns
    &&& known_in(a.types, b.types)
}

pub open spec fn silent(a: Checking, b: Checking) -> bool {
    a.errs.len() == b.errs.len()
}

/// What is known of an expression that was checked without an error.
pub open spec fn passed(
    st: Checking,
    e: ExprV<TypeId>,
    x: semantics::Checked,
    t: TypesV,
) -> bool {
    &&& same_names(st, x.st)
    &&& known_in(x.st.types, t) ==> typed(env_of(st, t), x.expr)
    &&& x.typ is Some && value_type(x.expr) == x.typ
    &&& alike(e, x.expr)
}

proof fn lemma_errs(a: Checking, b: Checking)
    requires
        laws::adds_errors(a, b),
    ensures
        a.errs.len() <= b.errs.len(),
{
    reveal(laws::adds_errors);
}

/// An expression in which no error is found is well typed, whatever types become known later, and
/// checking it leaves it as it is but for its types.
pub proof fn law_passed(st: Checking, e: ExprV<TypeId>, hint: Option<TypeId>, t: TypesV)
    ensures
        semantics::check_expr(st, e, hint) matches Some(x) ==> silent(st, x.st) ==> passed(
            st,
            e,
            x,
            t,
        ),
    decreases ast::nesting(e), 1nat, 0nat,
{
    laws::law_untyped_is_reported(st, e, hint);
    match e.inner {
        ExprInnerV::Arithmetic(..) => lemma_arithmetic(st, e, hint, t),
        ExprInnerV::Comparison(..) => lemma_comparison(st, e, hint, t),
        ExprInnerV::Logical(..) => lemma_logical(st, e, hint, t),
        ExprInnerV::Not(..) | ExprInnerV::Negate(..) => lemma_opposite(st, e, hint, t),
        ExprInnerV::Cast(..) => lemma_cast(st, e, hint, t),
        ExprInnerV::Index { .. } => lemma_index(st, e, hint, t),
        ExprInnerV::MemberAccess(..) => lemma_member(st, e, hint, t),
        ExprInnerV::FnCall(..) => lemma_call(st, e, hint, t),
        ExprInnerV::Construct { .. } => lemma_construct(st, e, hint, t),
        _ => {},
    }
}

proof fn lemma_arithmetic(st: Checking, e: ExprV<TypeId>, hint: Option<TypeId>, t: TypesV)
    requires
        e.inner is Arithmetic,
    ensures
        semantics::check_expr(st, e, hint) matches Some(x) ==> silent(st, x.st) ==> passed(
            st,
            e,
            x,
            t,
        ),
    decreases ast::nesting(e), 0nat, 0nat,
{
    if let ExprInnerV::Arithmetic(a, b, _, _) = e.inner {
        laws::law_untyped_is_reported(st, *a, hint);
        if let Some(x) = semantics::check_expr(st, *a, hint) {
            lemma_errs(st, x.st);
            law_passed(st, *a, hint, t);
            if let Some(u) = x.typ {
                laws::law_untyped_is_reported(x.st, *b, Some(u));
                law_passed(x.st, *b, Some(u), t);
                if let Some(y) = semantics::check_expr(x.st, *b, Some(u)) {
                    lemma_errs(x.st, y.st);
                }
            }
        }
    }
}

proof fn lemma_comparison(st: Checking, e: ExprV<TypeId>, hint: Option<TypeId>, t: TypesV)
    requires
        e.inner is Comparison,
    ensures
        semantics::check_expr(st, e, hint) matches Some(x) ==> silent(st, x.st) ==> passed(
            st,
            e,
            x,
            t,
        ),
    decreases ast::nesting(e), 0nat, 0nat,
{
    if let ExprInnerV::Comparison(a, b, _, _) = e.inner {
        laws::law_untyped_is_reported(st, *a, None);
        if let Some(x) = semantics::check_expr(st, *a, None) {
            lemma_errs(st, x.st);
            law_passed(st, *a, None, t);
            laws::law_untyped_is_reported(x.st, *b, None);
            law_passed(x.st, *b, None, t);
            if let Some(y) = semantics::check_expr(x.st, *b, None) {
                lemma_errs(x.st, y.st);
            }
        }
    }
}

proof fn lemma_logical(st: Checking, e: ExprV<TypeId>, hint: Option<TypeId>, t: TypesV)
    requires
        e.inner is Logical,
    ensures
        semantics::check_expr(st, e, hint) matches Some(x) ==> silent(st, x.st) ==> passed(
            st,
            e,
            x,
            t,
        ),
    decreases ast::nesting(e), 0nat, 0nat,
{
    let wanted = Some(semantics::prim(Primitive::Bool));
    let message = "expected bool for logical operation"@;
    if let ExprInnerV::Logical(a, b, _) = e.inner {
        laws::law_untyped_is_reported(st, *a, wanted);
        law_passed(st, *a, wanted, t);
        if let Some(x) = semantics::check_expr(st, *a, wanted) {
            lemma_errs(st, x.st);
            let st1 = semantics::bool_wanted(x.st, x.typ, a.span, message);
            laws::law_untyped_is_reported(st1, *b, wanted);
            law_passed(st1, *b, wanted, t);
            if let Some(y) = semantics::check_expr(st1, *b, wanted) {
                lemma_errs(st1, y.st);
            }
        }
    }
}

proof fn lemma_opposite(st: Checking, e: ExprV<TypeId>, hint: Option<TypeId>, t: TypesV)
    requires
        e.inner is Not || e.inner is Negate,
    ensures
        semantics::check_expr(st, e, hint) matches Some(x) ==> silent(st, x.st) ==> passed(
            st,
            e,
            x,
            t,
        ),
    decreases ast::nesting(e), 0nat, 0nat,
{
    let a = match e.inner {
        ExprInnerV::Not(a) => a,
        _ => e.inner->Negate_0,
    };
    laws::law_untyped_is_reported(st, *a, None);
    law_passed(st, *a, None, t);
    if let Some(x) = semantics::check_expr(st, *a, None) {
        lemma_errs(st, x.st);
    }
}

proof fn lemma_cast(st: Checking, e: ExprV<TypeId>, hint: Option<TypeId>, t: TypesV)
    requires
        e.inner is Cast,
    ensures
        semantics::check_expr(st, e, hint) matches Some(x) ==> silent(st, x.st) ==> passed(
            st,
            e,
            x,
            t,
        ),
    decreases ast::nesting(e), 0nat, 0nat,
{
    if let ExprInnerV::Cast(a, to) = e.inner {
        laws::law_untyped_is_reported(st, *a, None);
        law_passed(st, *a, None, t);
        if let Some(x) = semantics::check_expr(st, *a, None) {
            lemma_errs(st, x.st);
        }
    }
}

proof fn lemma_index(st: Checking, e: ExprV<TypeId>, hint: Option<TypeId>, t: TypesV)
    requires
        e.inner is Index,
    ensures
        semantics::check_expr(st, e, hint) matches Some(x) ==> silent(st, x.st) ==> passed(
            st,
            e,
            x,
            t,
        ),
    decreases ast::nesting(e), 0nat, 0nat,
{
    let wanted = Some(semantics::prim(Primitive::U64));
    if let ExprInnerV::Index { data, index, .. } = e.inner {
        laws::law_untyped_is_reported(st, *data, None);
        law_passed(st, *data, None, t);
        if let Some(x) = semantics::check_expr(st, *data, None) {
            lemma_errs(st, x.st);
            laws::law_untyped_is_reported(x.st, *index, wanted);
            law_passed(x.st, *index, wanted, t);
            if let Some(y) = semantics::check_expr(x.st, *index, wanted) {
                lemma_errs(x.st, y.st);
            }
        }
    }
}

proof fn lemma_first_field(fields: Seq<(Seq<char>, TypeId, u64, Span)>, name: Seq<char>)
    ensures
        0 <= types::field_index(fields, name),
        types::field_named(fields, name) matches Some(f) ==> exists|i: int|
            first_field(fields, name, i) && #[trigger] fields[i] == f,
    decreases fields.len(),
{
    if fields.len() > 0 {
        let rest = fields.drop_first();
        lemma_first_field(rest, name);
        if fields[0].0 == name {
            assert(first_field(fields, name, 0));
        } else if let Some(f) = types::field_named(fields, name) {
            let i0 = types::field_index(rest, name);
            assert(rest[i0] == fields[i0 + 1]);
            assert(types::field_named(rest, name) == Some(f));
            let i = choose|i: int| first_field(rest, name, i) && #[trigger] rest[i] == f;
            assert(rest[i] == fields[i + 1]);
            assert forall|j: int| 0 <= j < i + 1 implies (#[trigger] fields[j]).0 != name by {
                if j > 0 {
                    assert(rest[j - 1] == fields[j]);
                }
            }
            assert(first_field(fields, name, i + 1));
        }
    }
}

proof fn lemma_member(st: Checking, e: ExprV<TypeId>, hint: Option<TypeId>, t: TypesV)
    requires
        e.inner is MemberAccess,
    ensures
        semantics::check_expr(st, e, hint) matches Some(x) ==> silent(st, x.st) ==> passed(
            st,
            e,
            x,
            t,
        ),
    decreases ast::nesting(e), 0nat, 0nat,
{
    if let ExprInnerV::MemberAccess(a, member, _) = e.inner {
        laws::law_untyped_is_reported(st, *a, None);
        law_passed(st, *a, None, t);
        if let Some(x) = semantics::check_expr(st, *a, None) {
            lemma_errs(st, x.st);
            if let Some(u) = x.typ {
                let p = semantics::without_pointer(x.st, u);
                if let TypeKindV::Struct { fields, .. } = x.st.info(p).kind {
                    lemma_first_field(fields, member);
                }
            }
        }
    }
}

proof fn lemma_call(st: Checking, e: ExprV<TypeId>, hint: Option<TypeId>, t: TypesV)
    requires
        e.inner is FnCall,
    ensures
        semantics::check_expr(st, e, hint) matches Some(x) ==> silent(st, x.st) ==> passed(
            st,
            e,
            x,
            t,
        ),
    decreases ast::nesting(e), 0nat, 0nat,
{
    if let ExprInnerV::FnCall(f, args) = e.inner {
        if let FnPtrV::Named(path) = f {
            laws::lemma_args(st, args, 0, Seq::empty(), Seq::empty());
            lemma_args(st, args, 0, Seq::empty(), Seq::empty(), t);
            if let Some((xs, ts, st1)) = semantics::check_args(
                st,
                args,
                0,
                Seq::empty(),
                Seq::empty(),
            ) {
                lemma_errs(st, st1);
                if st1.fns.contains_key(path) {
                    let sig = st1.fns[path];
                    lemma_args_checked(st1, ts, sig.args, 0);
                    laws::lemma_call(st1, path, e.span, args.len(), ts);
                    if let Some((typ, st2)) = semantics::call_type(
                        st1,
                        path,
                        e.span,
                        args.len(),
                        ts,
                    ) {
                        lemma_errs(st1, st2);
                        if silent(st, st2) {
                            lemma_counted(st1, path, e.span, args.len(), ts);
                        }
                    }
                }
            }
        }
    }
}

/// Arguments of another number than declared are reported.
proof fn lemma_counted(
    st: Checking,
    path: Seq<char>,
    span: Span,
    count: nat,
    ts: Seq<(TypeId, Span)>,
)
    requires
        st.fns.contains_key(path),
    ensures
        semantics::call_type(st, path, span, count, ts) matches Some(r) ==> silent(st, r.1)
            ==> st.fns[path].args.len() == count && (semantics::args_checked(
            st,
            ts,
            st.fns[path].args,
            0,
        ) matches Some(st2) && silent(st, st2)),
{
    let sig = st.fns[path];
    if sig.args.len() != count {
        let st1 = st.reported(
            crate::analyze::ErrorV::at(span).says("invalid argument count"@).label(
                span,
                "expected "@ + crate::text::decimal(sig.args.len()) + " arguments, got "@
                    + crate::text::decimal(count),
            ).note(sig.span, "function defined here"@),
        );
        laws::lemma_args_checked(st1, ts, sig.args, 0);
        if let Some(st2) = semantics::args_checked(st1, ts, sig.args, 0) {
            lemma_errs(st1, st2);
        }
    }
}

/// An argument of another type than declared is reported.
proof fn lemma_args_checked(
    st: Checking,
    ts: Seq<(TypeId, Span)>,
    decl: Seq<(Span, TypeId)>,
    i: nat,
)
    ensures
        semantics::args_checked(st, ts, decl, i) matches Some(r) ==> silent(st, r) ==> same_names(
            st,
            r,
        ) && forall|k: int|
            i <= k < ts.len() && k < decl.len() ==> (#[trigger] ts[k]).0 == decl[k].1,
    decreases ts.len() - i,
{
    if i < ts.len() && i < decl.len() {
        let (t, span) = ts[i as int];
        let (decl_span, u) = decl[i as int];
        if t == u {
            lemma_args_checked(st, ts, decl, i + 1);
        } else if st.named(t, u) {
            let st1 = st.reported(
                crate::analyze::ErrorV::at(span).says("incompatible types"@).label(
                    span,
                    "this is of type "@ + st.name(t)->0,
                ).note(decl_span, "function accepts argument of type "@ + st.name(u)->0),
            );
            laws::lemma_args_checked(st1, ts, decl, i + 1);
            if let Some(r) = semantics::args_checked(st1, ts, decl, i + 1) {
                lemma_errs(st1, r);
            }
        }
    }
}

/// What is known of the first `n` arguments that were checked.
pub open spec fn passed_args(
    env: Env,
    args: Seq<ExprV<TypeId>>,
    xs: Seq<ExprV<TypeId>>,
    ts: Seq<(TypeId, Span)>,
    n: int,
) -> bool {
    &&& xs.len() == n
    &&& ts.len() == n
    &&& forall|k: int| 0 <= k < n ==> alike(args[k], #[trigger] xs[k])
    &&& forall|k: int| 0 <= k < n ==> value_type(#[trigger] xs[k]) == Some(ts[k].0)
    &&& forall|k: int| 0 <= k < n ==> typed(env, #[trigger] xs[k])
}

proof fn lemma_args(
    st: Checking,
    args: Seq<ExprV<TypeId>>,
    i: nat,
    done: Seq<ExprV<TypeId>>,
    ts: Seq<(TypeId, Span)>,
    t: TypesV,
)
    requires
        i <= args.len(),
        known_in(st.types, t) ==> passed_args(env_of(st, t), args, done, ts, i as int),
        done.len() == i,
        ts.len() == i,
        forall|k: int| 0 <= k < i ==> alike(args[k], #[trigger] done[k]),
        forall|k: int| 0 <= k < i ==> value_type(#[trigger] done[k]) == Some(ts[k].0),
    ensures
        semantics::check_args(st, args, i, done, ts) matches Some((xs, us, r)) ==> silent(st, r) ==> {
            &&& same_names(st, r)
            &&& xs.len() == args.len() && us.len() == args.len()
            &&& known_in(r.types, t) ==> typed_args(env_of(st, t), xs, xs.len())
            &&& alike_args(args, xs, args.len())
            &&& forall|k: int| 0 <= k < args.len() ==> value_type(#[trigger] xs[k]) == Some(us[k].0)
        },
    decreases ast::nesting_of_args(args, args.len()), 2nat, args.len() - i,
{
    if i < args.len() {
        ast::lemma_arg_nesting(args, args.len(), i as int);
        laws::law_untyped_is_reported(st, args[i as int], None);
        law_passed(st, args[i as int], None, t);
        if let Some(x) = semantics::check_expr(st, args[i as int], None) {
            lemma_errs(st, x.st);
            let ts1 = match x.typ {
                Some(u) => ts.push((u, args[i as int].span)),
                None => ts,
            };
            let done1 = done.push(x.expr);
            laws::lemma_args(x.st, args, i + 1, done1, ts1);
            if let Some((xs, us, r)) = semantics::check_args(x.st, args, i + 1, done1, ts1) {
                lemma_errs(x.st, r);
                if silent(st, r) {
                    lemma_args(x.st, args, i + 1, done1, ts1, t);
                }
            }
        }
    } else {
        lemma_typed_args(env_of(st, t), done, i);
        lemma_alike_args(args, done, i);
    }
}

proof fn lemma_typed_args(env: Env, xs: Seq<ExprV<TypeId>>, n: nat)
    requires
        n <= xs.len(),
    ensures
        (forall|k: int| 0 <= k < n ==> typed(env, #[trigger] xs[k])) ==> typed_args(env, xs, n),
    decreases n,
{
    if n > 0 {
        lemma_typed_args(env, xs, (n - 1) as nat);
    }
}

proof fn lemma_alike_args(a: Seq<ExprV<TypeId>>, b: Seq<ExprV<TypeId>>, n: nat)
    requires
        n <= a.len(),
        n <= b.len(),
        forall|k: int| 0 <= k < n ==> alike(a[k], #[trigger] b[k]),
    ensures
        alike_args(a, b, n),
    decreases n,
{
    if n > 0 {
        assert(alike(a[n - 1], b[n - 1]));
        lemma_alike_args(a, b, (n - 1) as nat);
    }
}

proof fn lemma_construct(st: Checking, e: ExprV<TypeId>, hint: Option<TypeId>, t: TypesV)
    requires
        e.inner is Construct,
    ensures
        semantics::check_expr(st, e, hint) matches Some(x) ==> silent(st, x.st) ==> passed(
            st,
            e,
            x,
            t,
        ),
    decreases ast::nesting(e), 0nat, 0nat,
{
    if let ExprInnerV::Construct { typ, fields } = e.inner {
        if st.knows(typ) {
            if let TypeKindV::Struct { fields: decl, .. } = st.info(typ).kind {
                laws::lemma_fields(st, decl, 0, fields, fields, Seq::empty());
                lemma_fields(st, decl, 0, fields, fields, Seq::empty(), t);
                if let Some((xs, missing, st1)) = semantics::check_fields(
                    st,
                    decl,
                    0,
                    fields,
                    fields,
                    Seq::empty(),
                ) {
                    lemma_errs(st, st1);
                    laws::lemma_unknown(st1, typ, decl, fields, 0);
                    lemma_unknown(st1, typ, decl, fields, 0);
                    if let Some(st2) = semantics::unknown_fields(st1, typ, decl, fields, 0) {
                        lemma_errs(st1, st2);
                        if silent(st, semantics::missing_reported(st2, e.span, missing)) {
                            assert(missing.len() == 0);
                            assert forall|i: int| 0 <= i < decl.len() implies has_value(
                                xs,
                                (#[trigger] decl[i]).0,
                            ) by {
                                laws::lemma_init_index(fields, decl[i].0, 0);
                                let k = semantics::init_index(fields, decl[i].0, 0)->0;
                                assert(xs[k].0 == fields[k].0);
                            }
                            assert forall|k: int| 0 <= k < xs.len() implies is_declared(
                                decl,
                                (#[trigger] xs[k]).0,
                            ) by {
                                assert(xs[k].0 == fields[k].0);
                                lemma_first_field(decl, fields[k].0);
                                let f = types::field_named(decl, fields[k].0)->0;
                                let i = choose|i: int|
                                    first_field(decl, fields[k].0, i) && #[trigger] decl[i] == f;
                                assert(decl[i].0 == xs[k].0);
                            }
                        }
                    }
                }
            }
        }
    }
}

proof fn lemma_fields(
    st: Checking,
    decl: Seq<(Seq<char>, TypeId, u64, Span)>,
    i: nat,
    fields: Seq<(Seq<char>, ExprV<TypeId>)>,
    done: Seq<(Seq<char>, ExprV<TypeId>)>,
    missing: Seq<Seq<char>>,
    t: TypesV,
)
    requires
        done.len() == fields.len(),
        forall|k: int| 0 <= k < done.len() ==> (#[trigger] done[k]).0 == fields[k].0,
    ensures
        semantics::check_fields(st, decl, i, fields, done, missing) matches Some((xs, miss, r))
            ==> silent(st, r) ==> {
            &&& same_names(st, r)
            &&& xs.len() == fields.len()
            &&& forall|k: int| 0 <= k < xs.len() ==> (#[trigger] xs[k]).0 == fields[k].0
            &&& missing.len() <= miss.len()
            &&& miss.len() == 0 ==> forall|j: int|
                i <= j < decl.len() ==> semantics::init_index(
                    fields,
                    (#[trigger] decl[j]).0,
                    0,
                ) is Some
        },
    decreases ast::nesting_of_fields(fields, fields.len()), 2nat, decl.len() - i,
{
    if i < decl.len() {
        let (name, wanted, _, decl_span) = decl[i as int];
        laws::lemma_init_index(fields, name, 0);
        match semantics::init_index(fields, name, 0) {
            None => lemma_fields(st, decl, i + 1, fields, done, missing.push(name), t),
            Some(k) => if ast::nesting(done[k].1) <= ast::nesting_of_fields(fields, fields.len()) {
                laws::law_untyped_is_reported(st, done[k].1, Some(wanted));
                law_passed(st, done[k].1, Some(wanted), t);
                if let Some(x) = semantics::check_expr(st, done[k].1, Some(wanted)) {
                    lemma_errs(st, x.st);
                    if let Some(st1) = semantics::field_checked(
                        x.st,
                        x.typ,
                        done[k].1.span,
                        wanted,
                        decl_span,
                    ) {
                        laws::lemma_field(x.st, x.typ, done[k].1.span, wanted, decl_span);
                        lemma_errs(x.st, st1);
                        let done1 = done.update(k, (done[k].0, x.expr));
                        laws::lemma_fields(st1, decl, i + 1, fields, done1, missing);
                        lemma_fields(st1, decl, i + 1, fields, done1, missing, t);
                        if let Some((_, _, r)) = semantics::check_fields(
                            st1,
                            decl,
                            i + 1,
                            fields,
                            done1,
                            missing,
                        ) {
                            lemma_errs(st1, r);
                            if silent(st, r) {
                                assert(st1 == x.st);
                                assert(same_names(st, r));
                            }
                        }
                    }
                }
            },
        }
    }
}

proof fn lemma_unknown(
    st: Checking,
    typ: TypeId,
    decl: Seq<(Seq<char>, TypeId, u64, Span)>,
    fields: Seq<(Seq<char>, ExprV<TypeId>)>,
    i: nat,
)
    ensures
        semantics::unknown_fields(st, typ, decl, fields, i) matches Some(r) ==> silent(st, r) ==> r
            == st && forall|k: int|
            i <= k < fields.len() ==> types::field_named(decl, (#[trigger] fields[k]).0) is Some,
    decreases fields.len() - i,
{
    if i < fields.len() {
        let (name, expr) = fields[i as int];
        if types::field_named(decl, name) is Some {
            lemma_unknown(st, typ, decl, fields, i + 1);
        } else if let Some(n) = st.name(typ) {
            let st1 = st.simple(
                expr.span,
                "unknown field"@,
                "type "@ + n + " does not have a field named "@ + name,
            );
            laws::lemma_unknown(st1, typ, decl, fields, i + 1);
            if let Some(r) = semantics::unknown_fields(st1, typ, decl, fields, i + 1) {
                lemma_errs(st1, r);
            }
        }
    }
}

/// Whether a value of type `t` can be assigned. What is behind an index takes values of any type.
pub open spec fn typed_target(env: Env, var: AssignableV<TypeId>, t: TypeId) -> bool {
    match var {
        AssignableV::Var(name) => env.var(name) == Some(t),
        AssignableV::Ptr(name, size) => env.var(name) matches Some(u) && env.behind(u) == Some(t)
            && env.sized(t, size),
        AssignableV::Index { data, index, val_size } => {
            &&& typed(env, data) && typed(env, index)
            &&& value_type(index) == Some(id(Primitive::U64))
            &&& value_type(data) matches Some(u) && env.behind(u) matches Some(v) && env.sized(
                v,
                val_size,
            )
        },
        AssignableV::MemberAccess(parent, member) => {
            &&& typed(env, parent)
            &&& value_type(parent) matches Some(u) && env.behind(u) matches Some(p) && env.member(
                p,
                member,
                t,
            )
        },
    }
}

/// What is known behind a statement: a declaration makes a variable known, also one inside.
pub open spec fn after(env: Env, s: StmtV<TypeId>) -> Env
    decreases s, 0nat,
{
    match s {
        StmtV::Declare { var, expr, .. } => Env {
            vars: env.vars.insert(
                var,
                match value_type(expr) {
                    Some(t) => t,
                    None => id(Primitive::Unit),
                },
            ),
            ..env
        },
        StmtV::If { body, .. } => after_all(env, body, body.len()),
        StmtV::WhileLoop { body, .. } => after_all(env, body, body.len()),
        _ => env,
    }
}

/// What is known behind the first `n` statements.
pub open spec fn after_all(env: Env, stmts: Seq<StmtV<TypeId>>, n: nat) -> Env
    decreases stmts, n,
{
    if n == 0 || n > stmts.len() {
        env
    } else {
        after(after_all(env, stmts, (n - 1) as nat), stmts[n - 1])
    }
}

/// Whether a statement of a function that gives back a `ret` is well typed. No variable is declared
/// twice.
pub open spec fn typed_stmt(env: Env, s: StmtV<TypeId>, ret: TypeId) -> bool
    decreases s, 0nat,
{
    match s {
        StmtV::Declare { var, expr, explicit_type, .. } => {
            &&& typed(env, expr)
            &&& explicit_type matches Some(t) ==> value_type(expr) == Some(t)
            &&& !env.vars.contains_key(var)
        },
        StmtV::Assign { var, expr, .. } => {
            &&& typed(env, expr)
            &&& value_type(expr) matches Some(t) && typed_target(env, var, t)
        },
        StmtV::Expr(expr) => typed(env, expr),
        StmtV::Return(expr) => typed(env, expr) && value_type(expr) == Some(ret),
        StmtV::If { guard, body } => {
            &&& typed(env, guard) && value_type(guard) == Some(id(Primitive::Bool))
            &&& typed_stmts(env, body, ret, body.len())
        },
        StmtV::WhileLoop { guard, body } => {
            &&& typed(env, guard) && value_type(guard) == Some(id(Primitive::Bool))
            &&& typed_stmts(env, body, ret, body.len())
        },
    }
}

/// Whether the first `n` statements are well typed.
pub open spec fn typed_stmts(env: Env, stmts: Seq<StmtV<TypeId>>, ret: TypeId, n: nat) -> bool
    decreases stmts, n,
{
    if n == 0 || n > stmts.len() {
        true
    } else {
        &&& typed_stmts(env, stmts, ret, (n - 1) as nat)
        &&& typed_stmt(after_all(env, stmts, (n - 1) as nat), stmts[n - 1], ret)
    }
}

pub open spec fn alike_target(a: AssignableV<TypeId>, b: AssignableV<TypeId>) -> bool {
    match (a, b) {
        (AssignableV::Var(x), AssignableV::Var(y)) => x == y,
        (AssignableV::Ptr(x, _), AssignableV::Ptr(y, _)) => x == y,
        (
            AssignableV::Index { data: x, index: y, .. },
            AssignableV::Index { data: z, index: w, .. },
        ) => alike(x, z) && alike(y, w),
        (AssignableV::MemberAccess(x, m), AssignableV::MemberAccess(y, n)) => alike(x, y) && m == n,
        _ => false,
    }
}

/// Whether two statements are one, but for what is noted of types.
pub open spec fn alike_stmt(a: StmtV<TypeId>, b: StmtV<TypeId>) -> bool
    decreases a, 0nat,
{
    match (a, b) {
        (
            StmtV::Declare { var: v, expr: x, explicit_type: t, .. },
            StmtV::Declare { var: w, expr: y, explicit_type: u, .. },
        ) => v == w && alike(x, y) && t == u,
        (StmtV::Assign { var: v, expr: x, .. }, StmtV::Assign { var: w, expr: y, .. }) => alike_target(
            v,
            w,
        ) && alike(x, y),
        (StmtV::Expr(x), StmtV::Expr(y)) => alike(x, y),
        (StmtV::Return(x), StmtV::Return(y)) => alike(x, y),
        (StmtV::If { guard: x, body: p }, StmtV::If { guard: y, body: q }) => alike(x, y) && p.len()
            == q.len() && alike_stmts(p, q, p.len()),
        (StmtV::WhileLoop { guard: x, body: p }, StmtV::WhileLoop { guard: y, body: q }) => alike(
            x,
            y,
        ) && p.len() == q.len() && alike_stmts(p, q, p.len()),
        _ => false,
    }
}

pub open spec fn alike_stmts(a: Seq<StmtV<TypeId>>, b: Seq<StmtV<TypeId>>, n: nat) -> bool
    decreases a, n,
{
    if n == 0 || n > a.len() {
        true
    } else {
        alike_stmts(a, b, (n - 1) as nat) && alike_stmt(a[n - 1], b[n - 1])
    }
}

proof fn lemma_target(st: Checking, var: AssignableV<TypeId>, span: Span, t: TypesV)
    ensures
        semantics::check_target(st, var, span) matches Some((x, decl, r)) ==> silent(st, r) ==> {
            &&& same_names(st, r)
            &&& alike_target(var, x)
            &&& decl is None ==> x is Index
            &&& known_in(r.types, t) ==> forall|u: TypeId|
                (decl == Some(u) || decl is None) ==> #[trigger] typed_target(env_of(st, t), x, u)
        },
{
    match var {
        AssignableV::Index { data, index, .. } => {
            let wanted = Some(semantics::prim(Primitive::U64));
            laws::law_untyped_is_reported(st, data, None);
            law_passed(st, data, None, t);
            if let Some(x) = semantics::check_expr(st, data, None) {
                lemma_errs(st, x.st);
                laws::law_untyped_is_reported(x.st, index, wanted);
                law_passed(x.st, index, wanted, t);
                if let Some(y) = semantics::check_expr(x.st, index, wanted) {
                    lemma_errs(x.st, y.st);
                }
            }
        },
        AssignableV::MemberAccess(parent, member) => {
            laws::law_untyped_is_reported(st, parent, None);
            law_passed(st, parent, None, t);
            if let Some(x) = semantics::check_expr(st, parent, None) {
                lemma_errs(st, x.st);
                if let Some(u) = x.typ {
                    if let Some(p) = x.st.info(u).pointee() {
                        if let TypeKindV::Struct { fields, .. } = x.st.info(p).kind {
                            lemma_first_field(fields, member);
                        }
                    }
                }
            }
        },
        _ => {},
    }
}

/// What is known of a statement that was checked without an error.
pub open spec fn stmt_passed(
    st: Checking,
    s: StmtV<TypeId>,
    x: StmtV<TypeId>,
    r: Checking,
    ret: TypeId,
    t: TypesV,
) -> bool {
    &&& env_of(r, t) == after(env_of(st, t), x)
    &&& known_in(st.types, r.types)
    &&& known_in(r.types, t) ==> typed_stmt(env_of(st, t), x, ret)
    &&& alike_stmt(s, x)
}

proof fn lemma_simple_stmt(
    st: Checking,
    s: StmtV<TypeId>,
    ret: TypeId,
    fn_span: Span,
    t: TypesV,
)
    requires
        s is Expr || s is Return,
    ensures
        semantics::check_stmt(st, s, ret, fn_span) matches Some((x, _, r)) ==> silent(st, r)
            ==> stmt_passed(st, s, x, r, ret, t),
{
    match s {
        StmtV::Expr(expr) => {
            law_passed(st, expr, None, t);
        },
        StmtV::Return(expr) => {
            laws::law_untyped_is_reported(st, expr, Some(ret));
            law_passed(st, expr, Some(ret), t);
            if let Some(x) = semantics::check_expr(st, expr, Some(ret)) {
                lemma_errs(st, x.st);
            }
        },
        _ => {},
    }
}

proof fn lemma_declare(st: Checking, s: StmtV<TypeId>, ret: TypeId, fn_span: Span, t: TypesV)
    requires
        s is Declare,
    ensures
        semantics::check_stmt(st, s, ret, fn_span) matches Some((x, _, r)) ==> silent(st, r)
            ==> stmt_passed(st, s, x, r, ret, t),
{
    if let StmtV::Declare { var, expr, var_span, explicit_type } = s {
        laws::law_untyped_is_reported(st, expr, None);
        law_passed(st, expr, None, t);
        if let Some(x) = semantics::check_expr(st, expr, None) {
            lemma_errs(st, x.st);
        }
    }
}

proof fn lemma_assign(st: Checking, s: StmtV<TypeId>, ret: TypeId, fn_span: Span, t: TypesV)
    requires
        s is Assign,
    ensures
        semantics::check_stmt(st, s, ret, fn_span) matches Some((x, _, r)) ==> silent(st, r)
            ==> stmt_passed(st, s, x, r, ret, t),
{
    if let StmtV::Assign { var, expr, var_span } = s {
        laws::law_untyped_is_reported(st, expr, None);
        law_passed(st, expr, None, t);
        if let Some(x) = semantics::check_expr(st, expr, None) {
            lemma_errs(st, x.st);
            laws::lemma_target(x.st, var, var_span);
            lemma_target(x.st, var, var_span, t);
            if let Some((y, decl, st1)) = semantics::check_target(x.st, var, var_span) {
                lemma_errs(x.st, st1);
                if let Some(u) = x.typ {
                    assert(env_of(x.st, t) == env_of(st, t) || !same_names(st, x.st));
                    if known_in(st1.types, t) && silent(st, st1) && (decl == Some(u) || decl is None) {
                        assert(typed_target(env_of(x.st, t), y, u));
                    }
                }
            }
        }
    }
}

/// A statement in which no error is found is well typed, and checking leaves it as it is but for types.
pub proof fn law_stmt_passed(
    st: Checking,
    s: StmtV<TypeId>,
    ret: TypeId,
    fn_span: Span,
    t: TypesV,
)
    ensures
        semantics::check_stmt(st, s, ret, fn_span) matches Some((x, _, r)) ==> silent(st, r)
            ==> stmt_passed(st, s, x, r, ret, t),
    decreases s, 0nat,
{
    match s {
        StmtV::Expr(_) | StmtV::Return(_) => lemma_simple_stmt(st, s, ret, fn_span, t),
        StmtV::Declare { .. } => lemma_declare(st, s, ret, fn_span, t),
        StmtV::Assign { .. } => lemma_assign(st, s, ret, fn_span, t),
        StmtV::If { guard, body } | StmtV::WhileLoop { guard, body } => {
            let wanted = Some(semantics::prim(Primitive::Bool));
            laws::law_untyped_is_reported(st, guard, wanted);
            law_passed(st, guard, wanted, t);
            if let Some(x) = semantics::check_expr(st, guard, wanted) {
                lemma_errs(st, x.st);
                if let Some(st1) = semantics::guard_checked(x.st, x.typ, guard.span) {
                    laws::law_body(st1, body, 0, Seq::empty(), false, ret, fn_span);
                    law_stmts_passed(st1, st1, body, 0, Seq::empty(), false, ret, fn_span, t);
                    if let Some((_, _, r)) = semantics::check_stmts(
                        st1,
                        body,
                        0,
                        Seq::empty(),
                        false,
                        ret,
                        fn_span,
                    ) {
                        lemma_errs(st1, r);
                    }
                }
            }
        },
    }
}

/// The statements of a function in which no error is found are well typed.
pub proof fn law_stmts_passed(
    first: Checking,
    st: Checking,
    stmts: Seq<StmtV<TypeId>>,
    i: nat,
    done: Seq<StmtV<TypeId>>,
    has_return: bool,
    ret: TypeId,
    fn_span: Span,
    t: TypesV,
)
    requires
        i <= stmts.len(),
        done.len() == i,
        known_in(first.types, st.types),
        env_of(st, t) == after_all(env_of(first, t), done, i),
        known_in(st.types, t) ==> typed_stmts(env_of(first, t), done, ret, i),
        forall|k: int| 0 <= k < i ==> alike_stmt(stmts[k], #[trigger] done[k]),
    ensures
        semantics::check_stmts(st, stmts, i, done, has_return, ret, fn_span) matches Some((xs, _, r))
            ==> silent(st, r) ==> {
            &&& xs.len() == stmts.len()
            &&& known_in(first.types, r.types)
            &&& env_of(r, t) == after_all(env_of(first, t), xs, xs.len())
            &&& known_in(r.types, t) ==> typed_stmts(env_of(first, t), xs, ret, xs.len())
            &&& alike_stmts(stmts, xs, stmts.len())
        },
    decreases stmts, stmts.len() - i,
{
    if i < stmts.len() {
        laws::law_statement(st, stmts[i as int], ret, fn_span);
        law_stmt_passed(st, stmts[i as int], ret, fn_span, t);
        if let Some((x, r, st1)) = semantics::check_stmt(st, stmts[i as int], ret, fn_span) {
            lemma_errs(st, st1);
            let done1 = done.push(x);
            laws::law_body(st1, stmts, i + 1, done1, has_return || r, ret, fn_span);
            if let Some((xs, _, end)) = semantics::check_stmts(
                st1,
                stmts,
                i + 1,
                done1,
                has_return || r,
                ret,
                fn_span,
            ) {
                lemma_errs(st1, end);
                if silent(st, end) {
                    lemma_prefix(env_of(first, t), done, x, ret, i);
                    law_stmts_passed(
                        first,
                        st1,
                        stmts,
                        i + 1,
                        done1,
                        has_return || r,
                        ret,
                        fn_span,
                        t,
                    );
                }
            }
        }
    } else {
        lemma_alike_stmts(stmts, done, i);
    }
}

/// One more statement makes no difference to those before it.
proof fn lemma_prefix(env: Env, done: Seq<StmtV<TypeId>>, x: StmtV<TypeId>, ret: TypeId, n: nat)
    requires
        n <= done.len(),
    ensures
        after_all(env, done.push(x), n) == after_all(env, done, n),
        typed_stmts(env, done.push(x), ret, n) == typed_stmts(env, done, ret, n),
    decreases n,
{
    if n > 0 {
        lemma_prefix(env, done, x, ret, (n - 1) as nat);
        assert(done.push(x)[n - 1] == done[n - 1]);
    }
}

proof fn lemma_alike_stmts(a: Seq<StmtV<TypeId>>, b: Seq<StmtV<TypeId>>, n: nat)
    requires
        n <= a.len(),
        n <= b.len(),
        forall|k: int| 0 <= k < n ==> alike_stmt(a[k], #[trigger] b[k]),
    ensures
        alike_stmts(a, b, n),
    decreases n,
{
    if n > 0 {
        assert(alike_stmt(a[n - 1], b[n - 1]));
        lemma_alike_stmts(a, b, (n - 1) as nat);
    }
}

/// What is known when a body begins: what was known `before`, and the arguments. The last argument
/// with a name counts.
pub open spec fn takes(
    before: Map<Seq<char>, TypeId>,
    args: Seq<(Seq<char>, TypeId, Span)>,
    vars: Map<Seq<char>, TypeId>,
) -> bool {
    &&& forall|name: Seq<char>| #[trigger]
        vars.contains_key(name) ==> is_arg(args, name) || before.contains_key(name) && before[name]
            == vars[name]
    &&& forall|k: int|
        0 <= k < args.len() && is_arg(args.skip(k + 1), (#[trigger] args[k]).0) == false
            ==> vars.contains_key(args[k].0) && vars[args[k].0] == args[k].1
}

pub open spec fn is_arg(args: Seq<(Seq<char>, TypeId, Span)>, name: Seq<char>) -> bool {
    exists|k: int| 0 <= k < args.len() && (#[trigger] args[k]).0 == name
}

/// Whether the body of a function is well typed.
pub open spec fn typed_fn(env: Env, def: FnDefV<TypeId>) -> bool {
    exists|vars: Map<Seq<char>, TypeId>| #[trigger]
        takes(env.vars, def.args, vars) && typed_stmts(
            env.with(vars),
            def.body,
            def.ret_type,
            def.body.len(),
        )
}

/// Whether the body of a function is well typed, given some variables. The variables of the functions
/// of an implementation are known in those that follow.
pub open spec fn typed_method(env: Env, def: FnDefV<TypeId>) -> bool {
    exists|vars: Map<Seq<char>, TypeId>| typed_fn(env.with(vars), def)
}

pub open spec fn typed_item(env: Env, item: ItemV<TypeId>) -> bool {
    match item {
        ItemV::Function(def) => typed_fn(Env { vars: Map::empty(), ..env }, def),
        ItemV::Impl { functions, .. } => forall|k: int|
            0 <= k < functions.len() ==> typed_method(env, #[trigger] functions[k]),
        _ => true,
    }
}

pub open spec fn alike_fn(a: FnDefV<TypeId>, b: FnDefV<TypeId>) -> bool {
    &&& a.name == b.name && a.args == b.args && a.ret_type == b.ret_type
    &&& a.body.len() == b.body.len() && alike_stmts(a.body, b.body, a.body.len())
}

/// Whether an item is a part of another one, but for what is noted of types.
pub open spec fn part_of(b: ItemV<TypeId>, a: ItemV<TypeId>) -> bool {
    match (a, b) {
        (ItemV::Function(x), ItemV::Function(y)) => alike_fn(x, y),
        (
            ItemV::Impl { struct_name: s, functions: x },
            ItemV::Impl { struct_name: u, functions: y },
        ) => s == u && forall|k: int| 0 <= k < y.len() ==> is_one_of(#[trigger] y[k], x),
        _ => a == b,
    }
}

pub open spec fn is_one_of(b: FnDefV<TypeId>, defs: Seq<FnDefV<TypeId>>) -> bool {
    exists|k: int| 0 <= k < defs.len() && alike_fn(#[trigger] defs[k], b)
}

pub open spec fn is_part(b: ItemV<TypeId>, items: Seq<ItemV<TypeId>>) -> bool {
    exists|k: int| 0 <= k < items.len() && part_of(b, #[trigger] items[k])
}

proof fn lemma_takes(
    before: Map<Seq<char>, TypeId>,
    args: Seq<(Seq<char>, TypeId, Span)>,
    n: nat,
)
    requires
        n <= args.len(),
    ensures
        takes(before, args.take(n as int), semantics::with_args(before, args, n)),
    decreases n,
{
    let some = args.take(n as int);
    let vars = semantics::with_args(before, args, n);
    if n > 0 {
        let m = (n - 1) as nat;
        let less = args.take(m as int);
        lemma_takes(before, args, m);
        let old_vars = semantics::with_args(before, args, m);
        assert forall|name: Seq<char>| #[trigger] vars.contains_key(name) implies is_arg(some, name)
            || before.contains_key(name) && before[name] == vars[name] by {
            if name == args[n - 1].0 {
                assert(some[n - 1].0 == name);
            } else {
                assert(old_vars.contains_key(name));
                if is_arg(less, name) {
                    let k = choose|k: int| 0 <= k < less.len() && (#[trigger] less[k]).0 == name;
                    assert(some[k].0 == name);
                }
            }
        }
        assert forall|k: int|
            0 <= k < some.len() && is_arg(some.skip(k + 1), (#[trigger] some[k]).0)
                == false implies vars.contains_key(some[k].0) && vars[some[k].0] == some[k].1 by {
            if k < n - 1 {
                let rest = some.skip(k + 1);
                assert(rest[n - 1 - (k + 1)] == some[n - 1]);
                assert(rest[n - 1 - (k + 1)].0 != some[k].0);
                assert(less[k] == some[k]);
                if is_arg(less.skip(k + 1), less[k].0) {
                    let j = choose|j: int|
                        0 <= j < less.skip(k + 1).len() && (#[trigger] less.skip(k + 1)[j]).0
                            == less[k].0;
                    assert(rest[j] == less.skip(k + 1)[j]);
                }
            }
        }
    }
}

proof fn lemma_typed_fn(env: Env, def: FnDefV<TypeId>, vars: Map<Seq<char>, TypeId>)
    requires
        takes(env.vars, def.args, vars),
        typed_stmts(env.with(vars), def.body, def.ret_type, def.body.len()),
    ensures
        typed_fn(env, def),
{
}

/// A function in which no error is found is well typed.
pub proof fn law_fn_passed(
    st: Checking,
    def: FnDefV<TypeId>,
    path: Seq<char>,
    main: Seq<char>,
    message: Seq<char>,
    label: Seq<char>,
    t: TypesV,
)
    ensures
        semantics::check_def(st, def, path, main, message, label) matches Some((x, r)) ==> silent(
            st,
            r,
        ) ==> {
            &&& known_in(st.types, r.types)
            &&& r.globals == st.globals && r.fns == st.fns
            &&& alike_fn(def, x)
            &&& known_in(r.types, t) ==> typed_fn(env_of(st, t), x)
        },
{
    let vars = semantics::with_args(st.vars, def.args, def.args.len());
    let st1 = Checking { vars, ..st };
    laws::law_body(st1, def.body, 0, Seq::empty(), false, def.ret_type, def.decl_span);
    law_stmts_passed(
        st1,
        st1,
        def.body,
        0,
        Seq::empty(),
        false,
        def.ret_type,
        def.decl_span,
        t,
    );
    lemma_takes(st.vars, def.args, def.args.len());
    assert(def.args.take(def.args.len() as int) =~= def.args);
    if let Some((body, _, st2)) = semantics::check_stmts(
        st1,
        def.body,
        0,
        Seq::empty(),
        false,
        def.ret_type,
        def.decl_span,
    ) {
        lemma_errs(st1, st2);
        lemma_after_keeps(env_of(st1, t), body, body.len());
        if silent(st, st2) && known_in(st2.types, t) {
            assert(env_of(st, t).with(vars) == env_of(st1, t));
            lemma_typed_fn(env_of(st, t), FnDefV { body, ..def }, vars);
        }
    }
}

/// Statements make nothing but variables known.
proof fn lemma_after_keeps(env: Env, stmts: Seq<StmtV<TypeId>>, n: nat)
    ensures
        after_all(env, stmts, n).globals == env.globals,
        after_all(env, stmts, n).fns == env.fns,
    decreases stmts, n,
{
    if 0 < n <= stmts.len() {
        lemma_after_keeps(env, stmts, (n - 1) as nat);
        lemma_after_one(after_all(env, stmts, (n - 1) as nat), stmts[n - 1]);
    }
}

proof fn lemma_after_one(env: Env, s: StmtV<TypeId>)
    ensures
        after(env, s).globals == env.globals,
        after(env, s).fns == env.fns,
    decreases s, 0nat,
{
    match s {
        StmtV::If { body, .. } | StmtV::WhileLoop { body, .. } => {
            lemma_after_keeps(env, body, body.len());
        },
        _ => {},
    }
}

proof fn lemma_methods_passed(
    st: Checking,
    struct_name: Seq<char>,
    defs: Seq<FnDefV<TypeId>>,
    i: nat,
    done: Seq<FnDefV<TypeId>>,
    main: Seq<char>,
    t: TypesV,
)
    requires
        i <= defs.len(),
        forall|k: int| 0 <= k < done.len() ==> is_one_of(#[trigger] done[k], defs),
        known_in(st.types, t) ==> forall|k: int|
            0 <= k < done.len() ==> typed_method(env_of(st, t), #[trigger] done[k]),
    ensures
        semantics::check_methods(st, struct_name, defs, i, done, main) matches Some((xs, r))
            ==> silent(st, r) ==> {
            &&& known_in(st.types, r.types)
            &&& r.globals == st.globals && r.fns == st.fns
            &&& forall|k: int| 0 <= k < xs.len() ==> is_one_of(#[trigger] xs[k], defs)
            &&& known_in(r.types, t) ==> forall|k: int|
                0 <= k < xs.len() ==> typed_method(env_of(st, t), #[trigger] xs[k])
        },
    decreases defs.len() - i,
{
    if i < defs.len() {
        let def = defs[i as int];
        let path = text::path_of(struct_name, def.name);
        let message = "no return statement found in function"@;
        let label = "function must return a value"@;
        laws::lemma_def(st, def, path, main, message, label);
        law_fn_passed(st, def, path, main, message, label, t);
        if let Some((x, st1)) = semantics::check_def(st, def, path, main, message, label) {
            lemma_errs(st, st1);
            laws::lemma_methods(st1, struct_name, defs, i + 1, done.push(x), main);
            if let Some((_, r)) = semantics::check_methods(
                st1,
                struct_name,
                defs,
                i + 1,
                done.push(x),
                main,
            ) {
                lemma_errs(st1, r);
                if silent(st, r) {
                    assert(alike_fn(defs[i as int], x));
                    assert(is_one_of(x, defs));
                    if known_in(st1.types, t) {
                        assert(typed_fn(env_of(st, t).with(st.vars), x));
                        assert(typed_method(env_of(st, t), x));
                        assert forall|k: int| 0 <= k < done.push(x).len() implies typed_method(
                            env_of(st1, t),
                            #[trigger] done.push(x)[k],
                        ) by {
                            let y = done.push(x)[k];
                            assert(k < done.len() ==> y == done[k]);
                            let vars = choose|vars: Map<Seq<char>, TypeId>|
                                typed_fn(env_of(st, t).with(vars), y);
                            assert(env_of(st, t).with(vars) == env_of(st1, t).with(vars));
                        }
                    }
                    lemma_methods_passed(st1, struct_name, defs, i + 1, done.push(x), main, t);
                    if known_in(r.types, t) {
                        let xs = semantics::check_methods(
                            st1,
                            struct_name,
                            defs,
                            i + 1,
                            done.push(x),
                            main,
                        )->Some_0.0;
                        assert forall|k: int| 0 <= k < xs.len() implies typed_method(
                            env_of(st, t),
                            #[trigger] xs[k],
                        ) by {
                            let vars = choose|vars: Map<Seq<char>, TypeId>|
                                typed_fn(env_of(st1, t).with(vars), xs[k]);
                            assert(env_of(st, t).with(vars) == env_of(st1, t).with(vars));
                        }
                    }
                }
            }
        }
    }
}

proof fn lemma_item_passed(st: Checking, item: ItemV<TypeId>, main: Seq<char>, t: TypesV)
    ensures
        semantics::check_item(st, item, main) matches Some((x, r)) ==> silent(st, r) ==> {
            &&& known_in(st.types, r.types)
            &&& r.globals == st.globals && r.fns == st.fns
            &&& part_of(x, item)
            &&& known_in(r.types, t) ==> typed_item(env_of(st, t), x)
        },
{
    let st1 = Checking { vars: Map::empty(), ..st };
    match item {
        ItemV::Function(def) => law_fn_passed(
            st1,
            def,
            def.name,
            main,
            "no return statement found in function main"@,
            "main must return a value"@,
            t,
        ),
        ItemV::Impl { struct_name, functions } => {
            lemma_methods_passed(st1, struct_name, functions, 0, Seq::empty(), main, t);
            if let Some((ItemV::Impl { functions: xs, .. }, r)) = semantics::check_item(st, item, main) {
                if silent(st, r) && known_in(r.types, t) {
                    assert forall|k: int| 0 <= k < xs.len() implies typed_method(
                        env_of(st, t),
                        #[trigger] xs[k],
                    ) by {
                        let vars = choose|vars: Map<Seq<char>, TypeId>|
                            typed_fn(env_of(st1, t).with(vars), xs[k]);
                        assert(env_of(st, t).with(vars) == env_of(st1, t).with(vars));
                    }
                }
            }
        },
        _ => {},
    }
}

/// Typing an item goes by no variable from outside.
proof fn lemma_item_env(a: Env, b: Env, item: ItemV<TypeId>)
    requires
        a.globals == b.globals,
        a.fns == b.fns,
        a.types == b.types,
        typed_item(a, item),
    ensures
        typed_item(b, item),
{
    match item {
        ItemV::Function(_) => {
            assert(Env { vars: Map::empty(), ..a } == Env { vars: Map::empty(), ..b });
        },
        ItemV::Impl { functions, .. } => {
            assert forall|k: int| 0 <= k < functions.len() implies typed_method(
                b,
                #[trigger] functions[k],
            ) by {
                let vars = choose|vars: Map<Seq<char>, TypeId>|
                    typed_fn(a.with(vars), functions[k]);
                assert(a.with(vars) == b.with(vars));
            }
        },
        _ => {},
    }
}

proof fn lemma_items_passed(
    first: Checking,
    st: Checking,
    items: Seq<ItemV<TypeId>>,
    i: nat,
    done: Seq<ItemV<TypeId>>,
    main: Seq<char>,
    t: TypesV,
)
    requires
        i <= items.len(),
        st.globals == first.globals,
        st.fns == first.fns,
        forall|k: int| 0 <= k < done.len() ==> is_part(#[trigger] done[k], items),
        known_in(st.types, t) ==> forall|k: int|
            0 <= k < done.len() ==> typed_item(env_of(first, t), #[trigger] done[k]),
    ensures
        semantics::check_items(st, items, i, done, main) matches Some((xs, r)) ==> silent(st, r)
            ==> {
            &&& known_in(st.types, r.types)
            &&& forall|k: int| 0 <= k < xs.len() ==> is_part(#[trigger] xs[k], items)
            &&& known_in(r.types, t) ==> forall|k: int|
                0 <= k < xs.len() ==> typed_item(env_of(first, t), #[trigger] xs[k])
        },
    decreases items.len() - i,
{
    if i < items.len() {
        laws::lemma_item(st, items[i as int], main);
        lemma_item_passed(st, items[i as int], main, t);
        if let Some((x, st1)) = semantics::check_item(st, items[i as int], main) {
            lemma_errs(st, st1);
            laws::law_items(st1, items, i + 1, done.push(x), main);
            if let Some((_, r)) = semantics::check_items(st1, items, i + 1, done.push(x), main) {
                lemma_errs(st1, r);
                if silent(st, r) {
                    assert(part_of(x, items[i as int]));
                    assert(is_part(x, items));
                    if known_in(st1.types, t) {
                        lemma_item_env(env_of(st, t), env_of(first, t), x);
                        assert forall|k: int| 0 <= k < done.push(x).len() implies typed_item(
                            env_of(first, t),
                            #[trigger] done.push(x)[k],
                        ) by {
                            assert(k < done.len() ==> done.push(x)[k] == done[k]);
                        }
                    }
                    lemma_items_passed(first, st1, items, i + 1, done.push(x), main, t);
                }
            }
        }
    }
}

/// What is left out of an implementation leaves the rest as it was.
proof fn lemma_kept_methods_were(
    used: Set<Seq<char>>,
    struct_name: Seq<char>,
    defs: Seq<FnDefV<TypeId>>,
    i: nat,
    done: Seq<FnDefV<TypeId>>,
)
    requires
        forall|k: int| 0 <= k < done.len() ==> defs.contains(#[trigger] done[k]),
    ensures
        forall|k: int|
            0 <= k < semantics::kept_methods(used, struct_name, defs, i, done).len()
                ==> defs.contains(
                #[trigger] semantics::kept_methods(used, struct_name, defs, i, done)[k],
            ),
    decreases defs.len() - i,
{
    if i < defs.len() {
        assert(defs.contains(defs[i as int]));
        if used.contains(text::path_of(struct_name, defs[i as int].name)) {
            let done1 = done.push(defs[i as int]);
            lemma_kept_methods_were(used, struct_name, defs, i + 1, done1);
            assert(semantics::kept_methods(used, struct_name, defs, i, done)
                == semantics::kept_methods(used, struct_name, defs, i + 1, done1));
        } else {
            lemma_kept_methods_were(used, struct_name, defs, i + 1, done);
            assert(semantics::kept_methods(used, struct_name, defs, i, done)
                == semantics::kept_methods(used, struct_name, defs, i + 1, done));
        }
    }
}

/// What is true of each item, and of an implementation also without some of its functions, is true of
/// what is kept.
proof fn lemma_kept_were(
    env: Env,
    tree: Seq<ItemV<TypeId>>,
    used: Set<Seq<char>>,
    items: Seq<ItemV<TypeId>>,
    i: nat,
    done: Seq<ItemV<TypeId>>,
)
    requires
        forall|k: int|
            0 <= k < items.len() ==> typed_item(env, #[trigger] items[k]) && is_part(items[k], tree),
        forall|k: int|
            0 <= k < done.len() ==> typed_item(env, #[trigger] done[k]) && is_part(done[k], tree),
    ensures
        forall|k: int|
            0 <= k < semantics::kept_items(used, items, i, done).len() ==> typed_item(
                env,
                #[trigger] semantics::kept_items(used, items, i, done)[k],
            ) && is_part(semantics::kept_items(used, items, i, done)[k], tree),
    decreases items.len() - i,
{
    if i < items.len() {
        let item = items[i as int];
        let done1 = match item {
            ItemV::Function(def) => if used.contains(def.name) {
                done.push(item)
            } else {
                done
            },
            ItemV::Impl { struct_name, functions } => done.push(
                ItemV::Impl {
                    struct_name,
                    functions: semantics::kept_methods(
                        used,
                        struct_name,
                        functions,
                        0,
                        Seq::empty(),
                    ),
                },
            ),
            ItemV::Struct { .. } | ItemV::MemorySegment { .. } => done.push(item),
            ItemV::ForwardDecl { .. } | ItemV::ExternLib(_) => done,
        };
        assert(typed_item(env, item) && is_part(item, tree));
        if let ItemV::Impl { struct_name, functions } = item {
            lemma_kept_impl(env, tree, used, struct_name, functions);
        }
        assert forall|k: int| 0 <= k < done1.len() implies typed_item(env, #[trigger] done1[k])
            && is_part(done1[k], tree) by {
            if k < done.len() {
                assert(done1[k] == done[k]);
            }
        }
        lemma_kept_were(env, tree, used, items, i + 1, done1);
        assert(semantics::kept_items(used, items, i, done) == semantics::kept_items(
            used,
            items,
            i + 1,
            done1,
        ));
    }
}

proof fn lemma_kept_impl(
    env: Env,
    tree: Seq<ItemV<TypeId>>,
    used: Set<Seq<char>>,
    struct_name: Seq<char>,
    functions: Seq<FnDefV<TypeId>>,
)
    requires
        typed_item(env, ItemV::Impl { struct_name, functions }),
        is_part(ItemV::Impl { struct_name, functions }, tree),
    ensures
        ({
            let kept = semantics::kept_methods(used, struct_name, functions, 0, Seq::empty());
            let x = ItemV::Impl { struct_name, functions: kept };
            typed_item(env, x) && is_part(x, tree)
        }),
{
    let item = ItemV::Impl { struct_name, functions };
    let kept = semantics::kept_methods(used, struct_name, functions, 0, Seq::empty());
    let x = ItemV::Impl { struct_name, functions: kept };
    lemma_kept_methods_were(used, struct_name, functions, 0, Seq::empty());
    assert forall|k: int| 0 <= k < kept.len() implies typed_method(env, #[trigger] kept[k]) by {
        assert(functions.contains(kept[k]));
    }
    let j = choose|j: int| 0 <= j < tree.len() && part_of(item, #[trigger] tree[j]);
    if let ItemV::Impl { functions: whole, .. } = tree[j] {
        assert forall|k: int| 0 <= k < kept.len() implies is_one_of(#[trigger] kept[k], whole) by {
            assert(functions.contains(kept[k]));
        }
    }
    assert(part_of(x, tree[j]));
}

/// Whether a function is known under a name, with the types that were declared.
pub open spec fn has_sig(
    fns: Map<Seq<char>, SigV>,
    name: Seq<char>,
    args: Seq<(Seq<char>, TypeId, Span)>,
    ret: TypeId,
) -> bool {
    &&& fns.contains_key(name)
    &&& fns[name].ret == ret
    &&& fns[name].args.len() == args.len()
    &&& forall|k: int| 0 <= k < args.len() ==> (#[trigger] fns[name].args[k]).1 == args[k].1
}

/// Whether what an item declares is known.
pub open spec fn is_known(fns: Map<Seq<char>, SigV>, item: ItemV<TypeId>) -> bool {
    match item {
        ItemV::Function(def) => has_sig(fns, def.name, def.args, def.ret_type),
        ItemV::ForwardDecl { name, args, ret_type, .. } => has_sig(fns, name, args, ret_type),
        ItemV::Impl { struct_name, functions } => methods_known(fns, struct_name, functions, 0),
        _ => true,
    }
}

pub open spec fn methods_known(
    fns: Map<Seq<char>, SigV>,
    struct_name: Seq<char>,
    defs: Seq<FnDefV<TypeId>>,
    from: int,
) -> bool {
    forall|k: int|
        from <= k < defs.len() ==> has_sig(
            fns,
            text::path_of(struct_name, (#[trigger] defs[k]).name),
            defs[k].args,
            defs[k].ret_type,
        )
}

/// Every function that is known in `a` is known in `b`, with the same types.
pub open spec fn fns_in(a: Map<Seq<char>, SigV>, b: Map<Seq<char>, SigV>) -> bool {
    forall|name: Seq<char>| #[trigger]
        a.contains_key(name) ==> b.contains_key(name) && b[name] == a[name]
}

proof fn lemma_methods_known(
    st: Checking,
    struct_name: Seq<char>,
    defs: Seq<FnDefV<TypeId>>,
    i: nat,
)
    ensures
        st.errs.len() <= semantics::with_methods(st, struct_name, defs, i).errs.len(),
        silent(st, semantics::with_methods(st, struct_name, defs, i)) ==> {
            &&& fns_in(st.fns, semantics::with_methods(st, struct_name, defs, i).fns)
            &&& methods_known(
                semantics::with_methods(st, struct_name, defs, i).fns,
                struct_name,
                defs,
                i as int,
            )
        },
    decreases defs.len() - i,
{
    if i < defs.len() {
        let def = defs[i as int];
        let name = text::path_of(struct_name, def.name);
        let st1 = semantics::with_function(st, name, semantics::sig_of(def));
        lemma_methods_known(st1, struct_name, defs, i + 1);
        let end = semantics::with_methods(st, struct_name, defs, i);
        if silent(st, end) {
            assert(st1.fns.contains_key(name));
            assert(has_sig(end.fns, name, def.args, def.ret_type));
            assert(fns_in(st.fns, end.fns)) by {
                assert forall|n: Seq<char>| #[trigger] st.fns.contains_key(n) implies end.fns.contains_key(
                    n,
                ) && end.fns[n] == st.fns[n] by {
                    assert(st1.fns.contains_key(n));
                }
            }
        }
    }
}

proof fn lemma_known(st: Checking, items: Seq<ItemV<TypeId>>, i: nat)
    ensures
        st.errs.len() <= semantics::with_items(st, items, i).errs.len(),
        silent(st, semantics::with_items(st, items, i)) ==> {
            &&& fns_in(st.fns, semantics::with_items(st, items, i).fns)
            &&& forall|k: int|
                i <= k < items.len() ==> is_known(
                    semantics::with_items(st, items, i).fns,
                    #[trigger] items[k],
                )
        },
    decreases items.len() - i,
{
    if i < items.len() {
        let st1 = semantics::with_item(st, items[i as int]);
        if let ItemV::Impl { struct_name, functions } = items[i as int] {
            lemma_methods_known(st, struct_name, functions, 0);
        }
        lemma_known(st1, items, i + 1);
        let end = semantics::with_items(st, items, i);
        if silent(st, end) {
            assert(fns_in(st.fns, st1.fns));
            assert(is_known(st1.fns, items[i as int]));
            assert(fns_in(st.fns, end.fns)) by {
                assert forall|n: Seq<char>| #[trigger] st.fns.contains_key(n) implies end.fns.contains_key(
                    n,
                ) && end.fns[n] == st.fns[n] by {
                    assert(st1.fns.contains_key(n));
                }
            }
            assert(is_known(end.fns, items[i as int])) by {
                if let ItemV::Impl { struct_name, functions } = items[i as int] {
                    assert forall|k: int| 0 <= k < functions.len() implies has_sig(
                        end.fns,
                        text::path_of(struct_name, (#[trigger] functions[k]).name),
                        functions[k].args,
                        functions[k].ret_type,
                    ) by {}
                }
            }
        }
    }
}

/// In a program that is found valid every function is well typed, where each function that is called
/// is known with the types with which it was declared. The functions are those of the program, but for
/// what is noted of types.
pub proof fn law_valid_is_typed(tree: AstV<TypeId>, types: TypesV, main: Seq<char>)
    ensures
        semantics::verdict(tree, types, main) matches Some(Verdict::Valid(valid, t)) ==> ({
            let known = semantics::with_items(semantics::initial(types), tree.items, 0);
            let env = env_of(known, t);
            &&& forall|k: int| 0 <= k < tree.items.len() ==> is_known(env.fns, #[trigger] tree.items[k])
            &&& forall|k: int|
                0 <= k < valid.items.len() ==> typed_item(env, #[trigger] valid.items[k])
                    && is_part(valid.items[k], tree.items)
        }),
{
    let st = semantics::initial(types);
    let known = semantics::with_items(st, tree.items, 0);
    lemma_known(st, tree.items, 0);
    laws::law_items(known, tree.items, 0, Seq::empty(), main);
    if let Some((items, r)) = semantics::check_items(known, tree.items, 0, Seq::empty(), main) {
        lemma_errs(known, r);
        lemma_items_passed(known, known, tree.items, 0, Seq::empty(), main, r.types);
        if r.errs.len() == 0 {
            lemma_kept_were(
                env_of(known, r.types),
                tree.items,
                semantics::used(r.calls, main),
                items,
                0,
                Seq::empty(),
            );
        }
    }
}

} // verus!
