//! Checks a resolved program: types, declarations and calls.

use vstd::hash_map::StringHashMap;
use vstd::prelude::*;

use crate::analyze::ast;
use crate::analyze::ast::{
    Assignable, AssignableV, AstV, Binding, ExprInner, ExprInnerV, ExprV, Expression, FnDef,
    FnDefV, FnPtr, FnPtrV, Item, ItemV, Statement, StmtV, AST,
};
use crate::analyze::semantics::types::resolve;
use crate::analyze::semantics::types::{
    Field, Primitive, Sign, TypeId, TypeInfoV, TypeKind, TypeKindV, TypeMap, TypesV,
};
use crate::analyze::{Error, ErrorContext, ErrorV, ErrorVec, Span, TextRange};
use crate::ir;
use crate::ir::ValSize;
use crate::names;
use crate::names::{NameMap, Names};
use crate::text;

pub mod laws;
pub mod types;
pub mod typing;

verus! {

/// A program in which no error was found.
pub struct ValidAST(pub AST<TypeId>);

/// The declaration of a function: its place, its type, and the places and types of its arguments.
pub struct FnSig {
    pub span: Span,
    pub ret: TypeId,
    pub args: Vec<(Span, TypeId)>,
}

/// What an [`FnSig`] says.
#[verifier::ext_equal]
pub struct SigV {
    pub span: Span,
    pub ret: TypeId,
    pub args: Seq<(Span, TypeId)>,
}

impl FnSig {
    pub open spec fn view(&self) -> SigV {
        SigV { span: self.span, ret: self.ret, args: self.args@ }
    }
}

/// What is known of a program while it is checked.
#[verifier::ext_equal]
pub struct Checking {
    /// The variables of the function that is checked.
    pub vars: Map<Seq<char>, TypeId>,
    pub globals: Map<Seq<char>, TypeId>,
    pub fns: Map<Seq<char>, SigV>,
    /// The functions that each function calls.
    pub calls: Map<Seq<char>, Set<Seq<char>>>,
    /// The functions called so far by the function that is checked.
    pub called: Set<Seq<char>>,
    pub types: TypesV,
    pub errs: Seq<ErrorV>,
}

impl Checking {
    pub open spec fn reported(self, e: ErrorV) -> Checking {
        Checking { errs: self.errs.push(e), ..self }
    }

    pub open spec fn simple(self, span: Span, message: Seq<char>, label: Seq<char>) -> Checking {
        self.reported(ErrorV::simple(span, message, label))
    }

    pub open spec fn knows(self, t: TypeId) -> bool {
        self.types.contains_key(t.0)
    }

    pub open spec fn info(self, t: TypeId) -> TypeInfoV {
        self.types[t.0]
    }

    pub open spec fn name(self, t: TypeId) -> Option<Seq<char>> {
        types::name_of_type(self.types, t)
    }

    /// Whether two types have names.
    pub open spec fn named(self, t: TypeId, u: TypeId) -> bool {
        self.name(t) is Some && self.name(u) is Some
    }
}

/// The text from the start of one span to the end of another.
pub open spec fn combined(a: Span, b: Span) -> Span {
    Span { file: a.file, range: TextRange { start: a.range.start, end: b.range.end } }
}

fn combine_span(a: Span, b: Span) -> (r: Span)
    ensures
        r == combined(a, b),
{
    Span { file: a.file, range: TextRange { start: a.range.start, end: b.range.end } }
}

/// An expression that was checked, with its type if it has one. A checked comparison remembers
/// the type of what is compared.
pub struct Checked {
    pub expr: ExprV<TypeId>,
    pub typ: Option<TypeId>,
    pub st: Checking,
}

pub open spec fn checked(inner: ExprInnerV<TypeId>, typ: Option<TypeId>, span: Span, st: Checking) -> Checked {
    Checked { expr: ExprV { inner, typ, span }, typ, st }
}

pub open spec fn prim(p: Primitive) -> TypeId {
    types::primitive_id(p)
}

/// The type of a variable. One that is not declared is reported.
pub open spec fn var_type(st: Checking, var: Seq<char>, span: Span) -> (Option<TypeId>, Checking) {
    if st.vars.contains_key(var) {
        (Some(st.vars[var]), st)
    } else if st.globals.contains_key(var) {
        (Some(st.globals[var]), st)
    } else {
        (None, st.simple(span, "undeclared variable"@, "this guy doesn't exist"@))
    }
}

/// The type that a variable points to. One that is no pointer is reported.
pub open spec fn pointee_type(st: Checking, var: Seq<char>, span: Span) -> Option<
    (Option<TypeId>, Checking),
> {
    match var_type(st, var, span) {
        (None, st1) => Some((None, st1)),
        (Some(t), st1) => if !st1.knows(t) {
            None
        } else {
            match st1.info(t).pointee() {
                Some(v) => Some((Some(v), st1)),
                None => match st1.name(t) {
                    None => None,
                    Some(n) => Some(
                        (
                            None,
                            st1.simple(
                                span,
                                "invalid pointer deref"@,
                                "cannot derefence type "@ + n,
                            ),
                        ),
                    ),
                },
            }
        },
    }
}

/// The type of a constant: the one that is written, or the one that is wanted if it is an integer
/// type, or `i64`.
pub open spec fn const_type(written: Option<Primitive>, hint: Option<TypeId>) -> TypeId {
    match written {
        Some(p) => prim(p),
        None => match hint {
            Some(t) => if types::compatible(t, prim(Primitive::I64)) {
                t
            } else {
                prim(Primitive::I64)
            },
            None => prim(Primitive::I64),
        },
    }
}

/// Two types that should be one are reported.
pub open spec fn mismatched(st: Checking, a: Span, t: TypeId, b: Span, u: TypeId) -> Option<
    Checking,
> {
    if st.named(t, u) {
        Some(
            st.reported(
                ErrorV::at(combined(a, b)).says("mismatched types"@).label(
                    a,
                    "this is of type "@ + st.name(t)->0,
                ).label(b, "this is of type "@ + st.name(u)->0),
            ),
        )
    } else {
        None
    }
}

/// The sign of an operation on two integers of one type. Other operands are reported.
pub open spec fn arithmetic_sign(st: Checking, a: Span, t: TypeId, b: Span, u: TypeId) -> Option<
    (Option<Sign>, Checking),
> {
    if t == u && !st.knows(t) {
        None
    } else if t == u && st.info(t).sign() is Some {
        Some((st.info(t).sign(), st))
    } else {
        let st1 = if t == u {
            st.reported(
                ErrorV::at(combined(a, b)).says("mismatched arithmetic types"@).label(
                    a,
                    "arithmetic only allowed on integer types"@,
                ),
            )
        } else {
            st
        };
        match mismatched(st1, a, t, b, u) {
            None => None,
            Some(st2) => Some((None, st2)),
        }
    }
}

/// A value that should be a boolean is reported if it has another type.
pub open spec fn bool_wanted(
    st: Checking,
    typ: Option<TypeId>,
    span: Span,
    message: Seq<char>,
) -> Checking {
    if typ is Some && typ->0 != prim(Primitive::Bool) {
        st.simple(span, message, "expected bool"@)
    } else {
        st
    }
}

/// A negated value is reported if it is unsigned, and if it is no `i64`.
pub open spec fn negation_type(st: Checking, typ: Option<TypeId>, span: Span) -> Option<
    (TypeId, Checking),
> {
    match typ {
        None => Some((prim(Primitive::Bool), st)),
        Some(t) => if !st.knows(t) {
            None
        } else {
            let st1 = if st.info(t).sign() == Some(Sign::Unsigned) {
                st.simple(
                    span,
                    "cannot negate an unsigned integer"@,
                    "expected signed integer"@,
                )
            } else {
                st
            };
            let st2 = if t != prim(Primitive::I64) {
                st1.simple(span, "cannot negate a non-integer"@, "expected signed integer"@)
            } else {
                st1
            };
            Some((t, st2))
        },
    }
}

/// The casts between primitive types, in one direction.
pub open spec fn default_cast(from: TypeId, to: TypeId) -> bool {
    ||| from == prim(Primitive::U64) && to == prim(Primitive::I64)
    ||| from == prim(Primitive::I64) && to == prim(Primitive::I8)
    ||| from == prim(Primitive::I8) && to == prim(Primitive::Char)
}

pub open spec fn is_word(t: TypeId) -> bool {
    t == prim(Primitive::I64) || t == prim(Primitive::U64)
}

/// Whether a value can be cast: between some primitive types, between pointers, and between
/// pointers and 64-bit integers.
pub open spec fn castable(st: Checking, from: TypeId, to: TypeId) -> bool {
    let from_ptr = st.info(from).pointee() is Some;
    let to_ptr = st.info(to).pointee() is Some;
    ||| default_cast(from, to)
    ||| default_cast(to, from)
    ||| from_ptr && to_ptr
    ||| from_ptr && is_word(to)
    ||| is_word(from) && to_ptr
}

/// A cast that is not possible is reported.
pub open spec fn cast_checked(st: Checking, span: Span, from: Option<TypeId>, to: TypeId) -> Option<
    Checking,
> {
    match from {
        None => Some(st),
        Some(t) => if !st.knows(t) || !st.knows(to) {
            None
        } else if castable(st, t, to) {
            Some(st)
        } else if st.named(t, to) {
            Some(
                st.simple(
                    span,
                    "invalid type cast"@,
                    "cannot cast from "@ + st.name(t)->0 + " to "@ + st.name(to)->0,
                ),
            )
        } else {
            None
        },
    }
}

/// The type of what lies behind a pointer of type `t`, indexed by a value of type `index`. An
/// index that is no `u64` is reported, and so is what is no pointer.
pub open spec fn index_type(
    st: Checking,
    t: TypeId,
    index: Option<TypeId>,
    index_span: Span,
    span: Span,
) -> Option<(Option<TypeId>, Checking)> {
    let wrong = index is Some && index->0 != prim(Primitive::U64);
    if wrong && !st.named(t, index->0) {
        None
    } else {
        let st1 = if wrong {
            st.reported(
                ErrorV::at(span).says(
                    "cannot index type "@ + st.name(t)->0 + " with value of type "@ + st.name(
                        index->0,
                    )->0,
                ).label(index_span, "expected u64"@),
            )
        } else {
            st
        };
        if !st1.knows(t) {
            None
        } else {
            match st1.info(t).pointee() {
                Some(v) => Some((Some(v), st1)),
                None => match st1.name(t) {
                    None => None,
                    Some(n) => Some(
                        (
                            None,
                            st1.reported(
                                ErrorV::at(span).says("cannot index variable of type "@ + n).label(
                                    index_span,
                                    "expected pointer"@,
                                ),
                            ),
                        ),
                    ),
                },
            }
        }
    }
}

/// The size of a value that is stored or loaded at once. `None` if the type is unknown or no such
/// value has its size.
pub open spec fn value_size(st: Checking, t: TypeId) -> Option<ValSize> {
    if st.knows(t) {
        ir::val_size(st.info(t).size)
    } else {
        None
    }
}

/// The type itself, or what it points to.
pub open spec fn without_pointer(st: Checking, t: TypeId) -> TypeId {
    match st.info(t).pointee() {
        Some(v) => v,
        None => t,
    }
}

/// The type of a struct, or of a pointer to one, and of one of its members. What is no struct or
/// has no such member is reported.
pub open spec fn member_type(
    st: Checking,
    span: Span,
    parent: Option<TypeId>,
    member: Seq<char>,
) -> Option<(Option<(TypeId, TypeId)>, Checking)> {
    match parent {
        None => Some((None, st)),
        Some(t) => {
            let p = without_pointer(st, t);
            if !st.knows(t) || !st.knows(p) {
                None
            } else {
                match st.info(p).kind {
                    TypeKindV::Struct { qualifier, fields } => match types::field_named(
                        fields,
                        member,
                    ) {
                        Some(f) => Some((Some((p, f.1)), st)),
                        None => Some(
                            (
                                None,
                                st.simple(
                                    span,
                                    "invalid member access"@,
                                    qualifier + " has no member named "@ + member,
                                ),
                            ),
                        ),
                    },
                    _ => match st.name(p) {
                        None => None,
                        Some(n) => Some(
                            (
                                None,
                                st.simple(
                                    span,
                                    "invalid member access"@,
                                    "cannot access type "@ + n,
                                ),
                            ),
                        ),
                    },
                }
            }
        },
    }
}

/// Reports the arguments from `i` on that have another type than declared.
pub open spec fn args_checked(
    st: Checking,
    args: Seq<(TypeId, Span)>,
    decl: Seq<(Span, TypeId)>,
    i: nat,
) -> Option<Checking>
    decreases args.len() - i,
{
    if i >= args.len() || i >= decl.len() {
        Some(st)
    } else {
        let (t, span) = args[i as int];
        let (decl_span, u) = decl[i as int];
        if t == u {
            args_checked(st, args, decl, i + 1)
        } else if st.named(t, u) {
            args_checked(
                st.reported(
                    ErrorV::at(span).says("incompatible types"@).label(
                        span,
                        "this is of type "@ + st.name(t)->0,
                    ).note(
                        decl_span,
                        "function accepts argument of type "@ + st.name(u)->0,
                    ),
                ),
                args,
                decl,
                i + 1,
            )
        } else {
            None
        }
    }
}

/// The type of a call. The types in `args` are those of the arguments that have one; `count` is
/// the number of all. A function that is not declared is reported, and so are wrong arguments.
pub open spec fn call_type(
    st: Checking,
    path: Seq<char>,
    span: Span,
    count: nat,
    args: Seq<(TypeId, Span)>,
) -> Option<(Option<TypeId>, Checking)> {
    if st.fns.contains_key(path) {
        let sig = st.fns[path];
        let st1 = if sig.args.len() != count {
            st.reported(
                ErrorV::at(span).says("invalid argument count"@).label(
                    span,
                    "expected "@ + text::decimal(sig.args.len()) + " arguments, got "@
                        + text::decimal(count),
                ).note(sig.span, "function defined here"@),
            )
        } else {
            st
        };
        match args_checked(st1, args, sig.args, 0) {
            None => None,
            Some(st2) => Some(
                (Some(sig.ret), Checking { called: st2.called.insert(path), ..st2 }),
            ),
        }
    } else {
        Some((None, st.simple(span, "invalid function call"@, path + " is not a function"@)))
    }
}

/// The position of the first value for a field, from `i` on.
pub open spec fn init_index(fields: Seq<(Seq<char>, ExprV<TypeId>)>, name: Seq<char>, i: nat) -> Option<
    int,
>
    decreases fields.len() - i,
{
    if i >= fields.len() {
        None
    } else if fields[i as int].0 == name {
        Some(i as int)
    } else {
        init_index(fields, name, i + 1)
    }
}

/// A value for a field is reported if it has another type.
pub open spec fn field_checked(
    st: Checking,
    typ: Option<TypeId>,
    span: Span,
    wanted: TypeId,
    decl_span: Span,
) -> Option<Checking> {
    if typ is Some && typ->0 != wanted {
        match st.name(wanted) {
            None => None,
            Some(n) => Some(
                st.reported(
                    ErrorV::at(span).says("invalid expression type"@).label(
                        span,
                        "expected type "@ + n,
                    ).note(decl_span, "field type defined here"@),
                ),
            ),
        }
    } else {
        Some(st)
    }
}

/// Reports the values from `i` on for which there is no field.
pub open spec fn unknown_fields(
    st: Checking,
    typ: TypeId,
    decl: Seq<(Seq<char>, TypeId, u64, Span)>,
    fields: Seq<(Seq<char>, ExprV<TypeId>)>,
    i: nat,
) -> Option<Checking>
    decreases fields.len() - i,
{
    if i >= fields.len() {
        Some(st)
    } else {
        let (name, expr) = fields[i as int];
        if types::field_named(decl, name) is Some {
            unknown_fields(st, typ, decl, fields, i + 1)
        } else {
            match st.name(typ) {
                None => None,
                Some(n) => unknown_fields(
                    st.simple(
                        expr.span,
                        "unknown field"@,
                        "type "@ + n + " does not have a field named "@ + name,
                    ),
                    typ,
                    decl,
                    fields,
                    i + 1,
                ),
            }
        }
    }
}

/// Reports the fields without a value.
pub open spec fn missing_reported(st: Checking, span: Span, missing: Seq<Seq<char>>) -> Checking {
    if missing.len() == 0 {
        st
    } else {
        let plural = if missing.len() > 1 {
            "s"@
        } else {
            ""@
        };
        st.simple(
            span,
            "missing field"@ + plural + " "@ + text::joined(missing, ", "@),
            "add missing fields"@,
        )
    }
}

/// Checks an expression. `hint` is the type that is wanted, if there is one. `None` where checking
/// cannot go on: a type is unknown, or a value cannot be loaded at once.
pub open spec fn check_expr(st: Checking, expr: ExprV<TypeId>, hint: Option<TypeId>) -> Option<Checked>
    decreases ast::nesting(expr), 0nat, 0nat,
{
    let span = expr.span;
    match expr.inner {
        ExprInnerV::Const(n, p) => Some(
            checked(expr.inner, Some(const_type(p, hint)), span, st),
        ),
        ExprInnerV::Character(_) => Some(
            checked(expr.inner, Some(prim(Primitive::Char)), span, st),
        ),
        ExprInnerV::String(_) => Some(
            checked(expr.inner, Some(types::pointer_id(prim(Primitive::Char))), span, st),
        ),
        ExprInnerV::Bool(_) => Some(checked(expr.inner, Some(prim(Primitive::Bool)), span, st)),
        ExprInnerV::Ident(var) => {
            let (typ, st1) = var_type(st, var, span);
            Some(checked(expr.inner, typ, span, st1))
        },
        ExprInnerV::Pointer(var) => match var_type(st, var, span) {
            (None, st1) => Some(checked(expr.inner, None, span, st1)),
            (Some(t), st1) => Some(
                checked(
                    expr.inner,
                    Some(types::pointer_id(t)),
                    span,
                    Checking { types: types::with_pointer(st1.types, t), ..st1 },
                ),
            ),
        },
        ExprInnerV::Deref(var, _) => match pointee_type(st, var, span) {
            None => None,
            Some((typ, st1)) => Some(checked(ExprInnerV::Deref(var, typ), typ, span, st1)),
        },
        ExprInnerV::Arithmetic(a, b, op, sign) => match check_expr(st, *a, hint) {
            None => None,
            Some(x) => match x.typ {
                None => Some(
                    checked(
                        ExprInnerV::Arithmetic(Box::new(x.expr), b, op, sign),
                        None,
                        span,
                        x.st,
                    ),
                ),
                Some(t) => match check_expr(x.st, *b, Some(t)) {
                    None => None,
                    Some(y) => match y.typ {
                        None => Some(
                            checked(
                                ExprInnerV::Arithmetic(Box::new(x.expr), Box::new(y.expr), op, sign),
                                None,
                                span,
                                y.st,
                            ),
                        ),
                        Some(u) => match arithmetic_sign(y.st, a.span, t, b.span, u) {
                            None => None,
                            Some((found, st1)) => Some(
                                checked(
                                    ExprInnerV::Arithmetic(
                                        Box::new(x.expr),
                                        Box::new(y.expr),
                                        op,
                                        if found is Some {
                                            found
                                        } else {
                                            sign
                                        },
                                    ),
                                    if found is Some {
                                        Some(t)
                                    } else {
                                        None
                                    },
                                    span,
                                    st1,
                                ),
                            ),
                        },
                    },
                },
            },
        },
        ExprInnerV::Comparison(a, b, op, sign) => match check_expr(st, *a, None) {
            None => None,
            Some(x) => match x.typ {
                None => Some(
                    checked(
                        ExprInnerV::Comparison(Box::new(x.expr), b, op, sign),
                        None,
                        span,
                        x.st,
                    ),
                ),
                Some(t) => match check_expr(x.st, *b, None) {
                    None => None,
                    Some(y) => match y.typ {
                        None => Some(
                            checked(
                                ExprInnerV::Comparison(Box::new(x.expr), Box::new(y.expr), op, sign),
                                None,
                                span,
                                y.st,
                            ),
                        ),
                        Some(u) => compared(y.st, span, x.expr, t, y.expr, u, a.span, b.span, op, sign),
                    },
                },
            },
        },
        ExprInnerV::Logical(a, b, op) => match check_expr(st, *a, Some(prim(Primitive::Bool))) {
            None => None,
            Some(x) => match check_expr(
                bool_wanted(x.st, x.typ, a.span, "expected bool for logical operation"@),
                *b,
                Some(prim(Primitive::Bool)),
            ) {
                None => None,
                Some(y) => Some(
                    checked(
                        ExprInnerV::Logical(Box::new(x.expr), Box::new(y.expr), op),
                        Some(prim(Primitive::Bool)),
                        span,
                        bool_wanted(y.st, y.typ, b.span, "expected bool for logical operation"@),
                    ),
                ),
            },
        },
        ExprInnerV::Negate(a) => match check_expr(st, *a, None) {
            None => None,
            Some(x) => match negation_type(x.st, x.typ, a.span) {
                None => None,
                Some((t, st1)) => Some(
                    checked(ExprInnerV::Negate(Box::new(x.expr)), Some(t), span, st1),
                ),
            },
        },
        ExprInnerV::Not(a) => match check_expr(st, *a, None) {
            None => None,
            Some(x) => Some(
                checked(
                    ExprInnerV::Not(Box::new(x.expr)),
                    Some(prim(Primitive::Bool)),
                    span,
                    bool_wanted(x.st, x.typ, a.span, "cannot negate non-boolean value"@),
                ),
            ),
        },
        ExprInnerV::Cast(a, to) => match check_expr(st, *a, None) {
            None => None,
            Some(x) => match cast_checked(x.st, a.span, x.typ, to) {
                None => None,
                Some(st1) => Some(
                    checked(ExprInnerV::Cast(Box::new(x.expr), to), Some(to), span, st1),
                ),
            },
        },
        ExprInnerV::Index { data, index, val_size } => match check_expr(st, *data, None) {
            None => None,
            Some(x) => match x.typ {
                None => Some(
                    checked(
                        ExprInnerV::Index { data: Box::new(x.expr), index, val_size },
                        None,
                        span,
                        x.st,
                    ),
                ),
                Some(t) => match check_expr(x.st, *index, Some(prim(Primitive::U64))) {
                    None => None,
                    Some(y) => match index_type(y.st, t, y.typ, index.span, span) {
                        None => None,
                        Some((typ, st1)) => if typ is Some && value_size(st1, typ->0) is None {
                            None
                        } else {
                            Some(
                                checked(
                                    ExprInnerV::Index {
                                        data: Box::new(x.expr),
                                        index: Box::new(y.expr),
                                        val_size: if typ is Some {
                                            value_size(st1, typ->0)
                                        } else {
                                            val_size
                                        },
                                    },
                                    typ,
                                    span,
                                    st1,
                                ),
                            )
                        },
                    },
                },
            },
        },
        ExprInnerV::MemberAccess(a, member, id) => match check_expr(st, *a, None) {
            None => None,
            Some(x) => match member_type(x.st, a.span, x.typ, member) {
                None => None,
                Some((None, st1)) => Some(
                    checked(
                        ExprInnerV::MemberAccess(Box::new(x.expr), member, id),
                        None,
                        span,
                        st1,
                    ),
                ),
                Some((Some((parent, typ)), st1)) => Some(
                    checked(
                        ExprInnerV::MemberAccess(Box::new(x.expr), member, Some(parent)),
                        Some(typ),
                        span,
                        st1,
                    ),
                ),
            },
        },
        ExprInnerV::FnCall(f, args) => match f {
            FnPtrV::Expr(_) => None,
            FnPtrV::Named(path) => match check_args(st, args, 0, Seq::empty(), Seq::empty()) {
                None => None,
                Some((xs, ts, st1)) => match call_type(st1, path, span, args.len(), ts) {
                    None => None,
                    Some((typ, st2)) => Some(
                        checked(ExprInnerV::FnCall(f, xs), typ, span, st2),
                    ),
                },
            },
        },
        ExprInnerV::Construct { typ, fields } => if !st.knows(typ) {
            None
        } else {
            match st.info(typ).kind {
                TypeKindV::Struct { fields: decl, .. } => match check_fields(
                    st,
                    decl,
                    0,
                    fields,
                    fields,
                    Seq::empty(),
                ) {
                    None => None,
                    Some((xs, missing, st1)) => match unknown_fields(st1, typ, decl, fields, 0) {
                        None => None,
                        Some(st2) => Some(
                            constructed(missing_reported(st2, span, missing), typ, xs, span),
                        ),
                    },
                },
                _ => Some(
                    constructed(
                        st.simple(span, "invalid construct type"@, "expected struct"@),
                        typ,
                        fields,
                        span,
                    ),
                ),
            }
        },
        ExprInnerV::SizeOf(_) => Some(checked(expr.inner, Some(prim(Primitive::U64)), span, st)),
    }
}

/// A value of a struct type, reached by a pointer.
pub open spec fn constructed(
    st: Checking,
    typ: TypeId,
    fields: Seq<(Seq<char>, ExprV<TypeId>)>,
    span: Span,
) -> Checked {
    checked(
        ExprInnerV::Construct { typ, fields },
        Some(types::pointer_id(typ)),
        span,
        Checking { types: types::with_pointer(st.types, typ), ..st },
    )
}

/// Two checked operands, compared.
pub open spec fn compared(
    st: Checking,
    span: Span,
    x: ExprV<TypeId>,
    t: TypeId,
    y: ExprV<TypeId>,
    u: TypeId,
    a: Span,
    b: Span,
    op: ast::CompareOp,
    sign: Option<Sign>,
) -> Option<Checked> {
    if t == u {
        if st.knows(t) {
            Some(
                Checked {
                    expr: ExprV {
                        inner: ExprInnerV::Comparison(
                            Box::new(x),
                            Box::new(y),
                            op,
                            st.info(t).sign(),
                        ),
                        typ: Some(t),
                        span,
                    },
                    typ: Some(prim(Primitive::Bool)),
                    st,
                },
            )
        } else {
            None
        }
    } else {
        match mismatched(st, a, t, b, u) {
            None => None,
            Some(st1) => Some(
                checked(
                    ExprInnerV::Comparison(Box::new(x), Box::new(y), op, sign),
                    None,
                    span,
                    st1,
                ),
            ),
        }
    }
}

/// Checks the arguments from `i` on, behind those in `done`. Those that have a type are listed
/// with it behind the ones in `typed`.
pub open spec fn check_args(
    st: Checking,
    args: Seq<ExprV<TypeId>>,
    i: nat,
    done: Seq<ExprV<TypeId>>,
    typed: Seq<(TypeId, Span)>,
) -> Option<(Seq<ExprV<TypeId>>, Seq<(TypeId, Span)>, Checking)>
    decreases ast::nesting_of_args(args, args.len()), 1nat, args.len() - i,
{
    if i >= args.len() {
        Some((done, typed, st))
    } else {
        proof {
            ast::lemma_arg_nesting(args, args.len(), i as int);
        }
        match check_expr(st, args[i as int], None) {
            None => None,
            Some(x) => check_args(
                x.st,
                args,
                i + 1,
                done.push(x.expr),
                match x.typ {
                    Some(t) => typed.push((t, args[i as int].span)),
                    None => typed,
                },
            ),
        }
    }
}

/// Checks the values of the declared fields from `i` on. `done` holds the values, of which those
/// that were checked are replaced; `missing` lists the fields without one. Checking does not nest a
/// value deeper.
pub open spec fn check_fields(
    st: Checking,
    decl: Seq<(Seq<char>, TypeId, u64, Span)>,
    i: nat,
    fields: Seq<(Seq<char>, ExprV<TypeId>)>,
    done: Seq<(Seq<char>, ExprV<TypeId>)>,
    missing: Seq<Seq<char>>,
) -> Option<(Seq<(Seq<char>, ExprV<TypeId>)>, Seq<Seq<char>>, Checking)>
    decreases ast::nesting_of_fields(fields, fields.len()), 1nat, decl.len() - i,
{
    if i >= decl.len() {
        Some((done, missing, st))
    } else {
        let (name, wanted, _, decl_span) = decl[i as int];
        match init_index(fields, name, 0) {
            None => check_fields(st, decl, i + 1, fields, done, missing.push(name)),
            Some(k) => if ast::nesting(done[k].1) <= ast::nesting_of_fields(fields, fields.len()) {
                match check_expr(st, done[k].1, Some(wanted)) {
                    None => None,
                    Some(x) => match field_checked(
                        x.st,
                        x.typ,
                        done[k].1.span,
                        wanted,
                        decl_span,
                    ) {
                        None => None,
                        Some(st1) => check_fields(
                            st1,
                            decl,
                            i + 1,
                            fields,
                            done.update(k, (done[k].0, x.expr)),
                            missing,
                        ),
                    },
                }
            } else {
                None
            },
        }
    }
}

/// A declared type that differs from the type of the value is reported.
pub open spec fn declared_checked(
    st: Checking,
    typ: Option<TypeId>,
    explicit: Option<TypeId>,
    expr_span: Span,
    var_span: Span,
) -> Option<Checking> {
    if typ is Some && explicit is Some && typ->0 != explicit->0 {
        if st.named(explicit->0, typ->0) {
            Some(
                st.reported(
                    ErrorV::at(var_span).says("unexpected type"@).label(
                        expr_span,
                        "expected type "@ + st.name(explicit->0)->0 + ", found type "@ + st.name(
                            typ->0,
                        )->0,
                    ).note(var_span, "variable defined here"@),
                ),
            )
        } else {
            None
        }
    } else {
        Some(st)
    }
}

/// A variable is declared. One that was declared before is reported.
pub open spec fn declared(st: Checking, var: Seq<char>, typ: TypeId, span: Span) -> Checking {
    let st1 = Checking { vars: st.vars.insert(var, typ), ..st };
    if st.vars.contains_key(var) {
        st1.simple(span, "duplicate variable declaration"@, "variable already defined"@)
    } else {
        st1
    }
}

/// The type of a member that is assigned to. The parent has to be a pointer to a struct.
pub open spec fn member_target(
    st: Checking,
    parent: Option<TypeId>,
    member: Seq<char>,
    span: Span,
) -> Option<(Option<TypeId>, Checking)> {
    match parent {
        None => Some((None, st)),
        Some(t) => if !st.knows(t) {
            None
        } else {
            match st.info(t).pointee() {
                None => match st.name(t) {
                    None => None,
                    Some(n) => Some(
                        (None, st.simple(span, "expected pointer"@, "this is of type "@ + n)),
                    ),
                },
                Some(v) => if !st.knows(v) {
                    None
                } else {
                    match st.info(v).kind {
                        TypeKindV::Struct { qualifier, fields } => match types::field_named(
                            fields,
                            member,
                        ) {
                            Some(f) => Some((Some(f.1), st)),
                            None => Some(
                                (
                                    None,
                                    st.simple(
                                        span,
                                        "invalid member access"@,
                                        "type "@ + qualifier + " has no member "@ + member,
                                    ),
                                ),
                            ),
                        },
                        _ => match st.name(t) {
                            None => None,
                            Some(n) => Some(
                                (
                                    None,
                                    st.simple(
                                        span,
                                        "can only access struct types"@,
                                        "expected struct, found type "@ + n,
                                    ),
                                ),
                            ),
                        },
                    }
                },
            }
        },
    }
}

/// Checks what is assigned to, and gives its type. What is behind an index has none here.
pub open spec fn check_target(st: Checking, var: AssignableV<TypeId>, span: Span) -> Option<
    (AssignableV<TypeId>, Option<TypeId>, Checking),
> {
    match var {
        AssignableV::Var(name) => {
            let (typ, st1) = var_type(st, name, span);
            Some((var, typ, st1))
        },
        AssignableV::Ptr(name, size) => match pointee_type(st, name, span) {
            None => None,
            Some((None, st1)) => Some((var, None, st1)),
            Some((Some(t), st1)) => match value_size(st1, t) {
                None => None,
                Some(size) => Some((AssignableV::Ptr(name, Some(size)), Some(t), st1)),
            },
        },
        AssignableV::Index { data, index, val_size } => match check_expr(st, data, None) {
            None => None,
            Some(x) => match x.typ {
                None => Some(
                    (AssignableV::Index { data: x.expr, index, val_size }, None, x.st),
                ),
                Some(t) => match check_expr(x.st, index, Some(prim(Primitive::U64))) {
                    None => None,
                    Some(y) => match index_type(y.st, t, y.typ, index.span, span) {
                        None => None,
                        Some((typ, st1)) => if typ is Some && value_size(st1, typ->0) is None {
                            None
                        } else {
                            Some(
                                (
                                    AssignableV::Index {
                                        data: x.expr,
                                        index: y.expr,
                                        val_size: if typ is Some {
                                            value_size(st1, typ->0)
                                        } else {
                                            val_size
                                        },
                                    },
                                    None,
                                    st1,
                                ),
                            )
                        },
                    },
                },
            },
        },
        AssignableV::MemberAccess(parent, member) => match check_expr(st, parent, None) {
            None => None,
            Some(x) => match member_target(x.st, x.typ, member, span) {
                None => None,
                Some((typ, st1)) => Some((AssignableV::MemberAccess(x.expr, member), typ, st1)),
            },
        },
    }
}

/// A value is reported if it has another type than what it is assigned to.
pub open spec fn assigned_checked(
    st: Checking,
    typ: Option<TypeId>,
    decl: Option<TypeId>,
    expr_span: Span,
    var_span: Span,
) -> Option<Checking> {
    if typ is Some && decl is Some && typ->0 != decl->0 {
        if st.named(decl->0, typ->0) {
            Some(
                st.reported(
                    ErrorV::at(combined(var_span, expr_span)).says("mismatched types"@).note(
                        var_span,
                        "this is of type "@ + st.name(decl->0)->0,
                    ).label(expr_span, "this is of type "@ + st.name(typ->0)->0),
                ),
            )
        } else {
            None
        }
    } else {
        Some(st)
    }
}

/// A condition is reported if it is no boolean.
pub open spec fn guard_checked(st: Checking, typ: Option<TypeId>, span: Span) -> Option<Checking> {
    if typ is Some && typ->0 != prim(Primitive::Bool) {
        match st.name(typ->0) {
            None => None,
            Some(n) => Some(
                st.simple(span, "unexpected type"@, "expected type 'bool', got '"@ + n + "'"@),
            ),
        }
    } else {
        Some(st)
    }
}

/// A returned value is reported if it has another type than the function.
pub open spec fn return_checked(
    st: Checking,
    typ: Option<TypeId>,
    ret: TypeId,
    span: Span,
    fn_span: Span,
) -> Option<Checking> {
    if typ is Some && typ->0 != ret {
        if st.named(typ->0, ret) {
            Some(
                st.reported(
                    ErrorV::at(span).says("incompatible types"@).label(
                        span,
                        "this is of type "@ + st.name(typ->0)->0,
                    ).label(fn_span, "function returns "@ + st.name(ret)->0),
                ),
            )
        } else {
            None
        }
    } else {
        Some(st)
    }
}

/// Checks a statement of a function, and tells whether it holds a return.
pub open spec fn check_stmt(st: Checking, stmt: StmtV<TypeId>, ret: TypeId, fn_span: Span) -> Option<
    (StmtV<TypeId>, bool, Checking),
>
    decreases stmt, 0nat,
{
    match stmt {
        StmtV::Declare { var, expr, var_span, explicit_type } => match check_expr(st, expr, None) {
            None => None,
            Some(x) => match declared_checked(x.st, x.typ, explicit_type, expr.span, var_span) {
                None => None,
                Some(st1) => Some(
                    (
                        StmtV::Declare { var, expr: x.expr, var_span, explicit_type },
                        false,
                        declared(
                            st1,
                            var,
                            match x.typ {
                                Some(t) => t,
                                None => prim(Primitive::Unit),
                            },
                            var_span,
                        ),
                    ),
                ),
            },
        },
        StmtV::Assign { var, expr, var_span } => match check_expr(st, expr, None) {
            None => None,
            Some(x) => match check_target(x.st, var, var_span) {
                None => None,
                Some((var, decl, st1)) => match assigned_checked(
                    st1,
                    x.typ,
                    decl,
                    expr.span,
                    var_span,
                ) {
                    None => None,
                    Some(st2) => Some(
                        (StmtV::Assign { var, expr: x.expr, var_span }, false, st2),
                    ),
                },
            },
        },
        StmtV::If { guard, body } => match check_expr(st, guard, Some(prim(Primitive::Bool))) {
            None => None,
            Some(x) => match guard_checked(x.st, x.typ, guard.span) {
                None => None,
                Some(st1) => match check_stmts(st1, body, 0, Seq::empty(), false, ret, fn_span) {
                    None => None,
                    Some((body, has_return, st2)) => Some(
                        (StmtV::If { guard: x.expr, body }, has_return, st2),
                    ),
                },
            },
        },
        StmtV::WhileLoop { guard, body } => match check_expr(
            st,
            guard,
            Some(prim(Primitive::Bool)),
        ) {
            None => None,
            Some(x) => match guard_checked(x.st, x.typ, guard.span) {
                None => None,
                Some(st1) => match check_stmts(st1, body, 0, Seq::empty(), false, ret, fn_span) {
                    None => None,
                    Some((body, has_return, st2)) => Some(
                        (StmtV::WhileLoop { guard: x.expr, body }, has_return, st2),
                    ),
                },
            },
        },
        StmtV::Expr(expr) => match check_expr(st, expr, None) {
            None => None,
            Some(x) => Some((StmtV::Expr(x.expr), false, x.st)),
        },
        StmtV::Return(expr) => match check_expr(st, expr, Some(ret)) {
            None => None,
            Some(x) => match return_checked(x.st, x.typ, ret, expr.span, fn_span) {
                None => None,
                Some(st1) => Some((StmtV::Return(x.expr), true, st1)),
            },
        },
    }
}

/// Checks the statements from `i` on, behind those in `done`, and tells whether one of them holds a
/// return, or `has_return` says so of an earlier one.
pub open spec fn check_stmts(
    st: Checking,
    stmts: Seq<StmtV<TypeId>>,
    i: nat,
    done: Seq<StmtV<TypeId>>,
    has_return: bool,
    ret: TypeId,
    fn_span: Span,
) -> Option<(Seq<StmtV<TypeId>>, bool, Checking)>
    decreases stmts, stmts.len() - i,
{
    if i >= stmts.len() {
        Some((done, has_return, st))
    } else {
        match check_stmt(st, stmts[i as int], ret, fn_span) {
            None => None,
            Some((x, r, st1)) => check_stmts(
                st1,
                stmts,
                i + 1,
                done.push(x),
                has_return || r,
                ret,
                fn_span,
            ),
        }
    }
}

/// A function is declared. One that was declared before is reported.
pub open spec fn with_function(st: Checking, name: Seq<char>, sig: SigV) -> Checking {
    let st1 = Checking { fns: st.fns.insert(name, sig), ..st };
    if st.fns.contains_key(name) {
        st1.reported(
            ErrorV::at(sig.span).says("duplicate function definition"@).label(
                sig.span,
                "defined here"@,
            ).label(st.fns[name].span, "first defined here"@),
        )
    } else {
        st1
    }
}

/// The places and types of arguments.
pub open spec fn arg_types(args: Seq<(Seq<char>, TypeId, Span)>) -> Seq<(Span, TypeId)> {
    args.map_values(|a: (Seq<char>, TypeId, Span)| (a.2, a.1))
}

pub open spec fn sig_of(def: FnDefV<TypeId>) -> SigV {
    SigV { span: def.decl_span, ret: def.ret_type, args: arg_types(def.args) }
}

/// The functions of an implementation from `i` on are declared.
pub open spec fn with_methods(
    st: Checking,
    struct_name: Seq<char>,
    defs: Seq<FnDefV<TypeId>>,
    i: nat,
) -> Checking
    decreases defs.len() - i,
{
    if i >= defs.len() {
        st
    } else {
        let def = defs[i as int];
        with_methods(
            with_function(st, text::path_of(struct_name, def.name), sig_of(def)),
            struct_name,
            defs,
            i + 1,
        )
    }
}

/// What an item declares is known.
pub open spec fn with_item(st: Checking, item: ItemV<TypeId>) -> Checking {
    match item {
        ItemV::Function(def) => with_function(st, def.name, sig_of(def)),
        ItemV::ForwardDecl { name, args, ret_type, decl_span } => with_function(
            st,
            name,
            SigV { span: decl_span, ret: ret_type, args: arg_types(args) },
        ),
        ItemV::Impl { struct_name, functions } => with_methods(st, struct_name, functions, 0),
        ItemV::MemorySegment { name, typ } => Checking {
            globals: st.globals.insert(name, typ),
            ..st
        },
        _ => st,
    }
}

/// What the items from `i` on declare is known.
pub open spec fn with_items(st: Checking, items: Seq<ItemV<TypeId>>, i: nat) -> Checking
    decreases items.len() - i,
{
    if i >= items.len() {
        st
    } else {
        with_items(with_item(st, items[i as int]), items, i + 1)
    }
}

/// The first `n` of the arguments are variables.
pub open spec fn with_args(
    vars: Map<Seq<char>, TypeId>,
    args: Seq<(Seq<char>, TypeId, Span)>,
    n: nat,
) -> Map<Seq<char>, TypeId>
    decreases n,
{
    if n == 0 {
        vars
    } else {
        with_args(vars, args, (n - 1) as nat).insert(args[n - 1].0, args[n - 1].1)
    }
}

/// Checks a function that is known by `path`. One without a return is reported, unless it has no
/// value and is not the main function.
pub open spec fn check_def(
    st: Checking,
    def: FnDefV<TypeId>,
    path: Seq<char>,
    main: Seq<char>,
    message: Seq<char>,
    label: Seq<char>,
) -> Option<(FnDefV<TypeId>, Checking)> {
    let st1 = Checking { vars: with_args(st.vars, def.args, def.args.len()), ..st };
    match check_stmts(st1, def.body, 0, Seq::empty(), false, def.ret_type, def.decl_span) {
        None => None,
        Some((body, has_return, st2)) => {
            let st3 = if !has_return && (path == main || def.ret_type != prim(Primitive::Unit)) {
                st2.simple(def.decl_span, message, label)
            } else {
                st2
            };
            Some(
                (
                    FnDefV { body, ..def },
                    Checking {
                        calls: st3.calls.insert(path, st3.called),
                        called: Set::empty(),
                        ..st3
                    },
                ),
            )
        },
    }
}

/// Checks the functions of an implementation from `i` on, behind those in `done`. The variables of
/// one stay known in the next.
pub open spec fn check_methods(
    st: Checking,
    struct_name: Seq<char>,
    defs: Seq<FnDefV<TypeId>>,
    i: nat,
    done: Seq<FnDefV<TypeId>>,
    main: Seq<char>,
) -> Option<(Seq<FnDefV<TypeId>>, Checking)>
    decreases defs.len() - i,
{
    if i >= defs.len() {
        Some((done, st))
    } else {
        let def = defs[i as int];
        match check_def(
            st,
            def,
            text::path_of(struct_name, def.name),
            main,
            "no return statement found in function"@,
            "function must return a value"@,
        ) {
            None => None,
            Some((def, st1)) => check_methods(
                st1,
                struct_name,
                defs,
                i + 1,
                done.push(def),
                main,
            ),
        }
    }
}

pub open spec fn check_item(st: Checking, item: ItemV<TypeId>, main: Seq<char>) -> Option<
    (ItemV<TypeId>, Checking),
> {
    let st1 = Checking { vars: Map::empty(), ..st };
    match item {
        ItemV::Function(def) => match check_def(
            st1,
            def,
            def.name,
            main,
            "no return statement found in function main"@,
            "main must return a value"@,
        ) {
            None => None,
            Some((def, st2)) => Some((ItemV::Function(def), st2)),
        },
        ItemV::Impl { struct_name, functions } => match check_methods(
            st1,
            struct_name,
            functions,
            0,
            Seq::empty(),
            main,
        ) {
            None => None,
            Some((functions, st2)) => Some((ItemV::Impl { struct_name, functions }, st2)),
        },
        _ => Some((item, st1)),
    }
}

/// Checks the items from `i` on, behind those in `done`.
pub open spec fn check_items(
    st: Checking,
    items: Seq<ItemV<TypeId>>,
    i: nat,
    done: Seq<ItemV<TypeId>>,
    main: Seq<char>,
) -> Option<(Seq<ItemV<TypeId>>, Checking)>
    decreases items.len() - i,
{
    if i >= items.len() {
        Some((done, st))
    } else {
        match check_item(st, items[i as int], main) {
            None => None,
            Some((x, st1)) => check_items(st1, items, i + 1, done.push(x), main),
        }
    }
}

/// Each function on the way calls the next one. The allocator is called but not entered.
pub open spec fn is_chain(
    calls: Map<Seq<char>, Set<Seq<char>>>,
    main: Seq<char>,
    chain: Seq<Seq<char>>,
) -> bool {
    &&& chain.len() > 0
    &&& chain[0] == main
    &&& forall|i: int|
        0 <= i < chain.len() - 1 ==> {
            &&& calls.contains_key(#[trigger] chain[i])
            &&& calls[chain[i]].contains(chain[i + 1])
            &&& i > 0 ==> chain[i] != "std::alloc"@
        }
}

/// Whether a function is needed: the main function, the allocator, and what is called on a way
/// that begins with the main function.
pub open spec fn is_used(
    calls: Map<Seq<char>, Set<Seq<char>>>,
    main: Seq<char>,
    f: Seq<char>,
) -> bool {
    ||| f == main
    ||| f == "std::alloc"@
    ||| exists|chain: Seq<Seq<char>>| #[trigger] is_chain(calls, main, chain) && chain.last() == f
}

pub open spec fn used(calls: Map<Seq<char>, Set<Seq<char>>>, main: Seq<char>) -> Set<Seq<char>> {
    Set::new(|f: Seq<char>| is_used(calls, main, f))
}

/// The functions of an implementation, from `i` on, that are used, behind those in `done`.
pub open spec fn kept_methods(
    used: Set<Seq<char>>,
    struct_name: Seq<char>,
    defs: Seq<FnDefV<TypeId>>,
    i: nat,
    done: Seq<FnDefV<TypeId>>,
) -> Seq<FnDefV<TypeId>>
    decreases defs.len() - i,
{
    if i >= defs.len() {
        done
    } else if used.contains(text::path_of(struct_name, defs[i as int].name)) {
        kept_methods(used, struct_name, defs, i + 1, done.push(defs[i as int]))
    } else {
        kept_methods(used, struct_name, defs, i + 1, done)
    }
}

/// The items from `i` on that are needed, behind those in `done`: used functions, structs and
/// memory segments.
pub open spec fn kept_items(
    used: Set<Seq<char>>,
    items: Seq<ItemV<TypeId>>,
    i: nat,
    done: Seq<ItemV<TypeId>>,
) -> Seq<ItemV<TypeId>>
    decreases items.len() - i,
{
    if i >= items.len() {
        done
    } else {
        let item = items[i as int];
        let done1 = match item {
            ItemV::Function(def) => if used.contains(def.name) {
                done.push(item)
            } else {
                done
            },
            ItemV::Impl { struct_name, functions } => done.push(
                ItemV::Impl {
                    struct_name,
                    functions: kept_methods(used, struct_name, functions, 0, Seq::empty()),
                },
            ),
            ItemV::Struct { .. } | ItemV::MemorySegment { .. } => done.push(item),
            ItemV::ForwardDecl { .. } | ItemV::ExternLib(_) => done,
        };
        kept_items(used, items, i + 1, done1)
    }
}

/// Nothing but some types is known.
pub open spec fn initial(types: TypesV) -> Checking {
    Checking {
        vars: Map::empty(),
        globals: Map::empty(),
        fns: Map::empty(),
        calls: Map::empty(),
        called: Set::empty(),
        types,
        errs: Seq::empty(),
    }
}

/// Checks a program, given what is known before. The program comes out with the types of its
/// expressions and without what is not needed, whether or not errors are found. `None` where checking
/// cannot go on.
pub open spec fn analysis(st: Checking, tree: AstV<TypeId>, main: Seq<char>) -> Option<
    (AstV<TypeId>, Checking),
> {
    match check_items(with_items(st, tree.items, 0), tree.items, 0, Seq::empty(), main) {
        None => None,
        Some((items, st1)) => Some(
            (
                AstV { items: kept_items(used(st1.calls, main), items, 0, Seq::empty()), ..tree },
                st1,
            ),
        ),
    }
}

/// What checking a program gives.
pub enum Verdict {
    /// The program with the types of its expressions, and all types.
    Valid(AstV<TypeId>, TypesV),
    /// The errors found.
    Invalid(Seq<ErrorV>),
}

/// Checks a program of which nothing but some types is known. `None` where checking cannot go on.
pub open spec fn verdict(tree: AstV<TypeId>, types: TypesV, main: Seq<char>) -> Option<Verdict> {
    match analysis(initial(types), tree, main) {
        None => None,
        Some((tree, st)) => if st.errs.len() > 0 {
            Some(Verdict::Invalid(st.errs))
        } else {
            Some(Verdict::Valid(tree, st.types))
        },
    }
}

/// Checks programs.
pub struct Analyzer {
    errs: ErrorContext,
    main_fn: String,
    variables: StringHashMap<TypeId>,
    globals: StringHashMap<TypeId>,
    functions: StringHashMap<FnSig>,
    function_calls: NameMap,
    called: Names,
    types: TypeMap,
}

spec fn sig_views(m: Map<Seq<char>, FnSig>) -> Map<Seq<char>, SigV> {
    m.map_values(|s: FnSig| s.view())
}

/// What a call on `before` gave is what `out` says.
spec fn gives<X, A>(
    before: Analyzer,
    after: Analyzer,
    r: Option<X>,
    out: Option<A>,
    value: spec_fn(X, Checking) -> A,
) -> bool {
    &&& after.main_fn == before.main_fn
    &&& match r {
        Some(x) => out == Some(value(x, after.st())),
        None => out is None,
    }
}

impl Analyzer {
    pub closed spec fn st(self) -> Checking {
        Checking {
            vars: self.variables@,
            globals: self.globals@,
            fns: sig_views(self.functions@),
            calls: self.function_calls@,
            called: self.called@,
            types: self.types@,
            errs: self.errs@,
        }
    }

    pub closed spec fn main_path(self) -> Seq<char> {
        self.main_fn@
    }

    pub open spec fn known_types(self) -> TypesV {
        self.st().types
    }

    pub fn new(main_fn: &str, types: TypeMap) -> (r: Analyzer)
        ensures
            r.st() == initial(types@),
            r.main_path() == main_fn@,
    {
        let r = Analyzer {
            errs: ErrorContext::new(),
            main_fn: main_fn.to_owned(),
            variables: StringHashMap::new(),
            globals: StringHashMap::new(),
            functions: StringHashMap::new(),
            function_calls: NameMap::new(),
            called: Names::new(),
            types,
        };
        proof {
            assert(r.st() =~= initial(types@));
        }
        r
    }

    /// All types.
    pub fn type_map(&self) -> (r: &TypeMap)
        ensures
            r@ == self.known_types(),
    {
        &self.types
    }

    fn simple(&mut self, span: Span, message: &str, label: &str)
        ensures
            final(self).main_fn == old(self).main_fn,
            final(self).st() == old(self).st().simple(span, message@, label@),
    {
        self.errs.report(Error::simple(span, message, label));
    }

    fn check_var(&mut self, symbol: &str, span: Span) -> (r: Option<TypeId>)
        ensures
            final(self).main_fn == old(self).main_fn,
            var_type(old(self).st(), symbol@, span) == (r, final(self).st()),
    {
        if let Some(typ) = self.variables.get(symbol) {
            return Some(*typ);
        }
        if let Some(typ) = self.globals.get(symbol) {
            return Some(*typ);
        }
        self.simple(span, "undeclared variable", "this guy doesn't exist");
        None
    }

    fn check_ptr(&mut self, symbol: &str, span: Span) -> (r: Option<Option<TypeId>>)
        ensures
            gives(
                *old(self),
                *final(self),
                r,
                pointee_type(old(self).st(), symbol@, span),
                |t: Option<TypeId>, st: Checking| (t, st),
            ),
    {
        let typeid = match self.check_var(symbol, span) {
            Some(t) => t,
            None => {
                return Some(None);
            },
        };
        let info = self.types.find(typeid)?;
        if let Some(t) = info.deref_type() {
            return Some(Some(t));
        }
        let name = self.types.try_name(typeid)?;
        let msg = text::join2("cannot derefence type ", name.as_str());
        self.simple(span, "invalid pointer deref", msg.as_str());
        Some(None)
    }

    fn report_mismatch(&mut self, a: Span, t: TypeId, b: Span, u: TypeId) -> (r: Option<()>)
        ensures
            gives(
                *old(self),
                *final(self),
                r,
                mismatched(old(self).st(), a, t, b, u),
                |x: (), st: Checking| st,
            ),
    {
        let t_name = self.types.try_name(t)?;
        let u_name = self.types.try_name(u)?;
        let t_msg = text::join2("this is of type ", t_name.as_str());
        let u_msg = text::join2("this is of type ", u_name.as_str());
        self.errs.report(
            Error::at(combine_span(a, b)).with_message("mismatched types").with_label(
                a,
                t_msg.as_str(),
            ).with_label(b, u_msg.as_str()),
        );
        Some(())
    }

    fn arithmetic_sign(&mut self, a: Span, t: TypeId, b: Span, u: TypeId) -> (r: Option<
        Option<Sign>,
    >)
        ensures
            gives(
                *old(self),
                *final(self),
                r,
                arithmetic_sign(old(self).st(), a, t, b, u),
                |s: Option<Sign>, st: Checking| (s, st),
            ),
    {
        if t == u {
            let info = self.types.find(t)?;
            if let Some(sign) = info.sign() {
                return Some(Some(sign));
            }
            self.errs.report(
                Error::at(combine_span(a, b)).with_message(
                    "mismatched arithmetic types",
                ).with_label(a, "arithmetic only allowed on integer types"),
            );
        }
        self.report_mismatch(a, t, b, u)?;
        Some(None)
    }

    fn want_bool(&mut self, typ: Option<TypeId>, span: Span, message: &str)
        ensures
            final(self).main_fn == old(self).main_fn,
            final(self).st() == bool_wanted(old(self).st(), typ, span, message@),
    {
        if let Some(t) = typ {
            if t != TypeId::bool() {
                self.simple(span, message, "expected bool");
            }
        }
    }

    fn negation_type(&mut self, typ: Option<TypeId>, span: Span) -> (r: Option<TypeId>)
        ensures
            gives(
                *old(self),
                *final(self),
                r,
                negation_type(old(self).st(), typ, span),
                |t: TypeId, st: Checking| (t, st),
            ),
    {
        match typ {
            None => Some(TypeId::bool()),
            Some(t) => {
                let sign = self.types.find(t)?.sign();
                if let Some(Sign::Unsigned) = sign {
                    self.simple(
                        span,
                        "cannot negate an unsigned integer",
                        "expected signed integer",
                    );
                }
                if t != TypeId::i64() {
                    self.simple(span, "cannot negate a non-integer", "expected signed integer");
                }
                Some(t)
            },
        }
    }

    fn default_cast(from: TypeId, to: TypeId) -> (r: bool)
        ensures
            r == default_cast(from, to),
    {
        let t_i64 = TypeId::i64();
        let t_i8 = TypeId::from_primitive(Primitive::I8);
        from == TypeId::u64() && to == t_i64 || from == t_i64 && to == t_i8 || from == t_i8 && to
            == TypeId::char()
    }

    fn check_cast(&mut self, span: Span, from: Option<TypeId>, to: TypeId) -> (r: Option<()>)
        ensures
            gives(
                *old(self),
                *final(self),
                r,
                cast_checked(old(self).st(), span, from, to),
                |x: (), st: Checking| st,
            ),
    {
        let t = match from {
            None => {
                return Some(());
            },
            Some(t) => t,
        };
        let from_ptr = self.types.find(t)?.is_ptr();
        let to_ptr = self.types.find(to)?.is_ptr();
        let t_i64 = TypeId::i64();
        let t_u64 = TypeId::u64();
        if Analyzer::default_cast(t, to) || Analyzer::default_cast(to, t) || from_ptr && to_ptr
            || from_ptr && (to == t_i64 || to == t_u64) || (t == t_i64 || t == t_u64) && to_ptr {
            return Some(());
        }
        let from_name = self.types.try_name(t)?;
        let to_name = self.types.try_name(to)?;
        let msg = text::join4("cannot cast from ", from_name.as_str(), " to ", to_name.as_str());
        self.simple(span, "invalid type cast", msg.as_str());
        Some(())
    }

    fn index_type(&mut self, t: TypeId, index: Option<TypeId>, index_span: Span, span: Span) -> (r:
        Option<Option<TypeId>>)
        ensures
            gives(
                *old(self),
                *final(self),
                r,
                index_type(old(self).st(), t, index, index_span, span),
                |t: Option<TypeId>, st: Checking| (t, st),
            ),
    {
        if let Some(u) = index {
            if u != TypeId::u64() {
                let t_name = self.types.try_name(t)?;
                let u_name = self.types.try_name(u)?;
                let msg = text::join4(
                    "cannot index type ",
                    t_name.as_str(),
                    " with value of type ",
                    u_name.as_str(),
                );
                self.errs.report(
                    Error::at(span).with_message(msg.as_str()).with_label(
                        index_span,
                        "expected u64",
                    ),
                );
            }
        }
        let info = self.types.find(t)?;
        if let Some(v) = info.deref_type() {
            return Some(Some(v));
        }
        let name = self.types.try_name(t)?;
        let msg = text::join2("cannot index variable of type ", name.as_str());
        self.errs.report(
            Error::at(span).with_message(msg.as_str()).with_label(index_span, "expected pointer"),
        );
        Some(None)
    }

    fn value_size(&self, t: TypeId) -> (r: Option<ValSize>)
        ensures
            r == value_size(self.st(), t),
    {
        ValSize::from_bytes(self.types.find(t)?.size)
    }

    fn member_type(&mut self, span: Span, parent: Option<TypeId>, member: &str) -> (r: Option<
        Option<(TypeId, TypeId)>,
    >)
        ensures
            gives(
                *old(self),
                *final(self),
                r,
                member_type(old(self).st(), span, parent, member@),
                |t: Option<(TypeId, TypeId)>, st: Checking| (t, st),
            ),
    {
        let t = match parent {
            None => {
                return Some(None);
            },
            Some(t) => t,
        };
        let p = match self.types.find(t)?.deref_type() {
            Some(v) => v,
            None => t,
        };
        let info = self.types.find(p)?;
        match &info.kind {
            TypeKind::Struct { qualifier, .. } => {
                if let Some((field, _)) = self.types.find_member(p, member) {
                    return Some(Some((p, field)));
                }
                let msg = text::join3(qualifier.as_str(), " has no member named ", member);
                self.errs.report(Error::simple(span, "invalid member access", msg.as_str()));
                Some(None)
            },
            _ => {
                let name = self.types.try_name(p)?;
                let msg = text::join2("cannot access type ", name.as_str());
                self.errs.report(Error::simple(span, "invalid member access", msg.as_str()));
                Some(None)
            },
        }
    }

    fn check_args(&mut self, args: &Vec<(TypeId, Span)>, decl: &Vec<(Span, TypeId)>) -> (r: Option<
        (),
    >)
        ensures
            gives(
                *old(self),
                *final(self),
                r,
                args_checked(old(self).st(), args@, decl@, 0),
                |x: (), st: Checking| st,
            ),
            final(self).functions == old(self).functions,
    {
        let mut i: usize = 0;
        while i < args.len() && i < decl.len()
            invariant
                i <= args.len(),
                i <= decl.len(),
                self.main_fn == old(self).main_fn,
                self.functions == old(self).functions,
                args_checked(self.st(), args@, decl@, i as nat) == args_checked(
                    old(self).st(),
                    args@,
                    decl@,
                    0,
                ),
            decreases args.len() - i,
        {
            let (t, span) = args[i];
            let (decl_span, u) = decl[i];
            if t != u {
                let t_name = self.types.try_name(t)?;
                let u_name = self.types.try_name(u)?;
                let call_msg = text::join2("this is of type ", t_name.as_str());
                let decl_msg = text::join2("function accepts argument of type ", u_name.as_str());
                self.errs.report(
                    Error::at(span).with_message("incompatible types").with_label(
                        span,
                        call_msg.as_str(),
                    ).with_note(decl_span, decl_msg.as_str()),
                );
            }
            i = i + 1;
        }
        Some(())
    }

    fn call_type(
        &mut self,
        path: &str,
        span: Span,
        count: usize,
        args: &Vec<(TypeId, Span)>,
    ) -> (r: Option<Option<TypeId>>)
        ensures
            gives(
                *old(self),
                *final(self),
                r,
                call_type(old(self).st(), path@, span, count as nat, args@),
                |t: Option<TypeId>, st: Checking| (t, st),
            ),
    {
        let (sig_span, ret, decl) = match self.functions.get(path) {
            Some(sig) => (sig.span, sig.ret, copy_arg_types(&sig.args)),
            None => {
                let msg = text::join2(path, " is not a function");
                self.simple(span, "invalid function call", msg.as_str());
                return Some(None);
            },
        };
        if decl.len() != count {
            let wanted = text::to_decimal(decl.len() as u64);
            let got = text::to_decimal(count as u64);
            let msg = text::join4("expected ", wanted.as_str(), " arguments, got ", got.as_str());
            self.errs.report(
                Error::at(span).with_message("invalid argument count").with_label(
                    span,
                    msg.as_str(),
                ).with_note(sig_span, "function defined here"),
            );
        }
        self.check_args(args, &decl)?;
        self.called.insert(path);
        Some(Some(ret))
    }

    fn check_field(
        &mut self,
        typ: Option<TypeId>,
        span: Span,
        wanted: TypeId,
        decl_span: Span,
    ) -> (r: Option<()>)
        ensures
            gives(
                *old(self),
                *final(self),
                r,
                field_checked(old(self).st(), typ, span, wanted, decl_span),
                |x: (), st: Checking| st,
            ),
    {
        if let Some(t) = typ {
            if t != wanted {
                let name = self.types.try_name(wanted)?;
                let msg = text::join2("expected type ", name.as_str());
                self.errs.report(
                    Error::at(span).with_message("invalid expression type").with_label(
                        span,
                        msg.as_str(),
                    ).with_note(decl_span, "field type defined here"),
                );
            }
        }
        Some(())
    }

    fn unknown_fields(
        &mut self,
        typ: TypeId,
        decl: &Vec<Field>,
        fields: &Vec<(String, Expression<TypeId>)>,
    ) -> (r: Option<()>)
        ensures
            gives(
                *old(self),
                *final(self),
                r,
                unknown_fields(
                    old(self).st(),
                    typ,
                    types::layout_views(decl@),
                    ast::field_views(fields@),
                    0,
                ),
                |x: (), st: Checking| st,
            ),
    {
        let mut i: usize = 0;
        while i < fields.len()
            invariant
                i <= fields.len(),
                self.main_fn == old(self).main_fn,
                unknown_fields(
                    self.st(),
                    typ,
                    types::layout_views(decl@),
                    ast::field_views(fields@),
                    i as nat,
                ) == unknown_fields(
                    old(self).st(),
                    typ,
                    types::layout_views(decl@),
                    ast::field_views(fields@),
                    0,
                ),
            decreases fields.len() - i,
        {
            let name = &fields[i].0;
            let span = fields[i].1.span;
            proof {
                assert(ast::field_views(fields@)[i as int].0 == name@);
                assert(ast::field_views(fields@)[i as int].1.span == span);
            }
            if !types::has_field(decl, name.as_str()) {
                let typ_name = self.types.try_name(typ)?;
                let msg = text::join4(
                    "type ",
                    typ_name.as_str(),
                    " does not have a field named ",
                    name.as_str(),
                );
                self.simple(span, "unknown field", msg.as_str());
            }
            i = i + 1;
        }
        Some(())
    }

    fn report_missing(&mut self, span: Span, missing: &Vec<String>)
        ensures
            final(self).main_fn == old(self).main_fn,
            final(self).st() == missing_reported(old(self).st(), span, text::all_chars(missing@)),
    {
        if missing.len() > 0 {
            let plural = if missing.len() > 1 {
                "s"
            } else {
                ""
            };
            let list = text::join_all(missing, ", ");
            let msg = text::join4("missing field", plural, " ", list.as_str());
            self.simple(span, msg.as_str(), "add missing fields");
        }
    }

    fn expression(&mut self, expr: &Expression<TypeId>, hint: Option<TypeId>) -> (r: Option<
        (Expression<TypeId>, Option<TypeId>),
    >)
        ensures
            gives(
                *old(self),
                *final(self),
                r,
                check_expr(old(self).st(), expr.view(), hint),
                |x: (Expression<TypeId>, Option<TypeId>), st: Checking|
                    Checked { expr: x.0.view(), typ: x.1, st },
            ),
        decreases ast::nesting(expr.view()), 1nat,
    {
        match &expr.inner {
            ExprInner::Const(..)
            | ExprInner::Character(_)
            | ExprInner::String(_)
            | ExprInner::Bool(_)
            | ExprInner::SizeOf(_) => self.literal(expr, hint),
            ExprInner::Ident(_) | ExprInner::Pointer(_) | ExprInner::Deref(..) => self.variable(
                expr,
            ),
            ExprInner::Arithmetic(..) => self.arithmetic(expr, hint),
            ExprInner::Comparison(..) => self.comparison(expr),
            ExprInner::Logical(..) => self.logical(expr),
            ExprInner::Negate(_) | ExprInner::Not(_) => self.negation(expr),
            ExprInner::Cast(..) => self.cast(expr),
            ExprInner::Index { .. } => self.index_access(expr),
            ExprInner::MemberAccess(..) => self.member_access(expr),
            ExprInner::FnCall(..) => self.call(expr),
            ExprInner::Construct { .. } => self.construct(expr),
        }
    }

    /// Checks what is written as it is.
    fn literal(&mut self, expr: &Expression<TypeId>, hint: Option<TypeId>) -> (r: Option<
        (Expression<TypeId>, Option<TypeId>),
    >)
        requires
            expr.inner is Const || expr.inner is Character || expr.inner is String || expr.inner is Bool
                || expr.inner is SizeOf,
        ensures
            gives(
                *old(self),
                *final(self),
                r,
                check_expr(old(self).st(), expr.view(), hint),
                |x: (Expression<TypeId>, Option<TypeId>), st: Checking|
                    Checked { expr: x.0.view(), typ: x.1, st },
            ),
        decreases ast::nesting(expr.view()), 0nat,
    {
        let span = expr.span;
        let (inner, typ) = match &expr.inner {
            ExprInner::Const(n, p) => {
                let typ = match p {
                    Some(p) => TypeId::from_primitive(*p),
                    None => {
                        let default = TypeId::i64();
                        match hint {
                            Some(t) => if t.compatible_with(default) {
                                t
                            } else {
                                default
                            },
                            None => default,
                        }
                    },
                };
                (ExprInner::Const(*n, *p), Some(typ))
            },
            ExprInner::Character(c) => (ExprInner::Character(*c), Some(TypeId::char())),
            ExprInner::String(s) => (ExprInner::String(s.clone()), Some(TypeId::char_ptr())),
            ExprInner::Bool(b) => (ExprInner::Bool(*b), Some(TypeId::bool())),
            ExprInner::SizeOf(t) => (ExprInner::SizeOf(*t), Some(TypeId::u64())),
            _ => {
                return None;
            },
        };
        Some((Expression { inner, typ, span }, typ))
    }

    /// Checks a variable, its address, or what it points to.
    fn variable(&mut self, expr: &Expression<TypeId>) -> (r: Option<
        (Expression<TypeId>, Option<TypeId>),
    >)
        requires
            expr.inner is Ident || expr.inner is Pointer || expr.inner is Deref,
        ensures
            forall|hint: Option<TypeId>| gives(
                *old(self),
                *final(self),
                r,
                #[trigger] check_expr(old(self).st(), expr.view(), hint),
                |x: (Expression<TypeId>, Option<TypeId>), st: Checking|
                    Checked { expr: x.0.view(), typ: x.1, st },
            ),
        decreases ast::nesting(expr.view()), 0nat,
    {
        let span = expr.span;
        let (inner, typ) = match &expr.inner {
            ExprInner::Ident(var) => {
                let typ = self.check_var(var.as_str(), span);
                (ExprInner::Ident(var.clone()), typ)
            },
            ExprInner::Pointer(var) => {
                let typ = match self.check_var(var.as_str(), span) {
                    Some(t) => Some(self.types.ptr_type_to(t)),
                    None => None,
                };
                (ExprInner::Pointer(var.clone()), typ)
            },
            ExprInner::Deref(var, _) => {
                let typ = self.check_ptr(var.as_str(), span)?;
                (ExprInner::Deref(var.clone(), typ), typ)
            },
            _ => {
                return None;
            },
        };
        Some((Expression { inner, typ, span }, typ))
    }

    /// Checks an operation on two truth values.
    fn logical(&mut self, expr: &Expression<TypeId>) -> (r: Option<
        (Expression<TypeId>, Option<TypeId>),
    >)
        requires
            expr.inner is Logical,
        ensures
            forall|hint: Option<TypeId>| gives(
                *old(self),
                *final(self),
                r,
                #[trigger] check_expr(old(self).st(), expr.view(), hint),
                |x: (Expression<TypeId>, Option<TypeId>), st: Checking|
                    Checked { expr: x.0.view(), typ: x.1, st },
            ),
        decreases ast::nesting(expr.view()), 0nat,
    {
        let span = expr.span;
        let (inner, typ) = match &expr.inner {
            ExprInner::Logical(a, b, op) => {
                let t_bool = TypeId::bool();
                let (x, t) = self.expression(a, Some(t_bool))?;
                self.want_bool(t, a.span, "expected bool for logical operation");
                let (y, u) = self.expression(b, Some(t_bool))?;
                self.want_bool(u, b.span, "expected bool for logical operation");
                (ExprInner::Logical(Box::new(x), Box::new(y), *op), Some(t_bool))
            },
            _ => {
                return None;
            },
        };
        Some((Expression { inner, typ, span }, typ))
    }

    /// Checks the opposite of a number or of a truth value.
    fn negation(&mut self, expr: &Expression<TypeId>) -> (r: Option<
        (Expression<TypeId>, Option<TypeId>),
    >)
        requires
            expr.inner is Negate || expr.inner is Not,
        ensures
            forall|hint: Option<TypeId>| gives(
                *old(self),
                *final(self),
                r,
                #[trigger] check_expr(old(self).st(), expr.view(), hint),
                |x: (Expression<TypeId>, Option<TypeId>), st: Checking|
                    Checked { expr: x.0.view(), typ: x.1, st },
            ),
        decreases ast::nesting(expr.view()), 0nat,
    {
        let span = expr.span;
        let (inner, typ) = match &expr.inner {
            ExprInner::Negate(a) => {
                let (x, t) = self.expression(a, None)?;
                let typ = self.negation_type(t, a.span)?;
                (ExprInner::Negate(Box::new(x)), Some(typ))
            },
            ExprInner::Not(a) => {
                let (x, t) = self.expression(a, None)?;
                self.want_bool(t, a.span, "cannot negate non-boolean value");
                (ExprInner::Not(Box::new(x)), Some(TypeId::bool()))
            },
            _ => {
                return None;
            },
        };
        Some((Expression { inner, typ, span }, typ))
    }

    /// Checks a cast.
    fn cast(&mut self, expr: &Expression<TypeId>) -> (r: Option<
        (Expression<TypeId>, Option<TypeId>),
    >)
        requires
            expr.inner is Cast,
        ensures
            forall|hint: Option<TypeId>| gives(
                *old(self),
                *final(self),
                r,
                #[trigger] check_expr(old(self).st(), expr.view(), hint),
                |x: (Expression<TypeId>, Option<TypeId>), st: Checking|
                    Checked { expr: x.0.view(), typ: x.1, st },
            ),
        decreases ast::nesting(expr.view()), 0nat,
    {
        let span = expr.span;
        let (inner, typ) = match &expr.inner {
            ExprInner::Cast(a, to) => {
                let (x, t) = self.expression(a, None)?;
                self.check_cast(a.span, t, *to)?;
                (ExprInner::Cast(Box::new(x), *to), Some(*to))
            },
            _ => {
                return None;
            },
        };
        Some((Expression { inner, typ, span }, typ))
    }

    /// Checks an access to a member.
    fn member_access(&mut self, expr: &Expression<TypeId>) -> (r: Option<
        (Expression<TypeId>, Option<TypeId>),
    >)
        requires
            expr.inner is MemberAccess,
        ensures
            forall|hint: Option<TypeId>| gives(
                *old(self),
                *final(self),
                r,
                #[trigger] check_expr(old(self).st(), expr.view(), hint),
                |x: (Expression<TypeId>, Option<TypeId>), st: Checking|
                    Checked { expr: x.0.view(), typ: x.1, st },
            ),
        decreases ast::nesting(expr.view()), 0nat,
    {
        let span = expr.span;
        let (inner, typ) = match &expr.inner {
            ExprInner::MemberAccess(a, member, id) => {
                let (x, t) = self.expression(a, None)?;
                match self.member_type(a.span, t, member.as_str())? {
                    None => (ExprInner::MemberAccess(Box::new(x), member.clone(), *id), None),
                    Some((parent, typ)) => (
                        ExprInner::MemberAccess(Box::new(x), member.clone(), Some(parent)),
                        Some(typ),
                    ),
                }
            },
            _ => {
                return None;
            },
        };
        Some((Expression { inner, typ, span }, typ))
    }

    /// Checks an operation on two numbers.
    fn arithmetic(&mut self, expr: &Expression<TypeId>, hint: Option<TypeId>) -> (r: Option<(Expression<TypeId>, Option<TypeId>)>)
        requires
            expr.inner is Arithmetic,
        ensures
            gives(
                *old(self),
                *final(self),
                r,
                check_expr(old(self).st(), expr.view(), hint),
                |x: (Expression<TypeId>, Option<TypeId>), st: Checking|
                    Checked { expr: x.0.view(), typ: x.1, st },
            ),
        decreases ast::nesting(expr.view()), 0nat,
    {
        let span = expr.span;
        let (inner, typ) = match &expr.inner {
            ExprInner::Arithmetic(a, b, op, sign) => {
                let (x, t) = self.expression(a, hint)?;
                match t {
                    None => (
                        ExprInner::Arithmetic(
                            Box::new(x),
                            Box::new(ast::copy_expr(b)),
                            *op,
                            *sign,
                        ),
                        None,
                    ),
                    Some(t) => {
                        let (y, u) = self.expression(b, Some(t))?;
                        match u {
                            None => (
                                ExprInner::Arithmetic(Box::new(x), Box::new(y), *op, *sign),
                                None,
                            ),
                            Some(u) => match self.arithmetic_sign(a.span, t, b.span, u)? {
                                None => (
                                    ExprInner::Arithmetic(Box::new(x), Box::new(y), *op, *sign),
                                    None,
                                ),
                                Some(found) => (
                                    ExprInner::Arithmetic(
                                        Box::new(x),
                                        Box::new(y),
                                        *op,
                                        Some(found),
                                    ),
                                    Some(t),
                                ),
                            },
                        }
                    },
                }
            },
            _ => {
                return None;
            },
        };
        Some((Expression { inner, typ, span }, typ))
    }

    /// Checks a comparison.
    fn comparison(&mut self, expr: &Expression<TypeId>) -> (r: Option<(Expression<TypeId>, Option<TypeId>)>)
        requires
            expr.inner is Comparison,
        ensures
            forall|hint: Option<TypeId>| gives(
                *old(self),
                *final(self),
                r,
                #[trigger] check_expr(old(self).st(), expr.view(), hint),
                |x: (Expression<TypeId>, Option<TypeId>), st: Checking|
                    Checked { expr: x.0.view(), typ: x.1, st },
            ),
        decreases ast::nesting(expr.view()), 0nat,
    {
        let span = expr.span;
        let (inner, typ) = match &expr.inner {
            ExprInner::Comparison(a, b, op, sign) => {
                let (x, t) = self.expression(a, None)?;
                match t {
                    None => (
                        ExprInner::Comparison(
                            Box::new(x),
                            Box::new(ast::copy_expr(b)),
                            *op,
                            *sign,
                        ),
                        None,
                    ),
                    Some(t) => {
                        let (y, u) = self.expression(b, None)?;
                        match u {
                            None => (
                                ExprInner::Comparison(Box::new(x), Box::new(y), *op, *sign),
                                None,
                            ),
                            Some(u) => {
                                if t == u {
                                    let found = self.types.find(t)?.sign();
                                    let inner = ExprInner::Comparison(
                                        Box::new(x),
                                        Box::new(y),
                                        *op,
                                        found,
                                    );
                                    return Some(
                                        (
                                            Expression { inner, typ: Some(t), span },
                                            Some(TypeId::bool()),
                                        ),
                                    );
                                }
                                self.report_mismatch(a.span, t, b.span, u)?;
                                (ExprInner::Comparison(Box::new(x), Box::new(y), *op, *sign), None)
                            },
                        }
                    },
                }
            },
            _ => {
                return None;
            },
        };
        Some((Expression { inner, typ, span }, typ))
    }

    /// Checks an access by index.
    fn index_access(&mut self, expr: &Expression<TypeId>) -> (r: Option<(Expression<TypeId>, Option<TypeId>)>)
        requires
            expr.inner is Index,
        ensures
            forall|hint: Option<TypeId>| gives(
                *old(self),
                *final(self),
                r,
                #[trigger] check_expr(old(self).st(), expr.view(), hint),
                |x: (Expression<TypeId>, Option<TypeId>), st: Checking|
                    Checked { expr: x.0.view(), typ: x.1, st },
            ),
        decreases ast::nesting(expr.view()), 0nat,
    {
        let span = expr.span;
        let (inner, typ) = match &expr.inner {
            ExprInner::Index { data, index, val_size } => {
                let (x, t) = self.expression(data, None)?;
                match t {
                    None => (
                        ExprInner::Index {
                            data: Box::new(x),
                            index: Box::new(ast::copy_expr(index)),
                            val_size: *val_size,
                        },
                        None,
                    ),
                    Some(t) => {
                        let (y, u) = self.expression(index, Some(TypeId::u64()))?;
                        let typ = self.index_type(t, u, index.span, span)?;
                        let val_size = match typ {
                            None => *val_size,
                            Some(v) => Some(self.value_size(v)?),
                        };
                        (
                            ExprInner::Index { data: Box::new(x), index: Box::new(y), val_size },
                            typ,
                        )
                    },
                }
            },
            _ => {
                return None;
            },
        };
        Some((Expression { inner, typ, span }, typ))
    }

    /// Checks a call.
    fn call(&mut self, expr: &Expression<TypeId>) -> (r: Option<(Expression<TypeId>, Option<TypeId>)>)
        requires
            expr.inner is FnCall,
        ensures
            forall|hint: Option<TypeId>| gives(
                *old(self),
                *final(self),
                r,
                #[trigger] check_expr(old(self).st(), expr.view(), hint),
                |x: (Expression<TypeId>, Option<TypeId>), st: Checking|
                    Checked { expr: x.0.view(), typ: x.1, st },
            ),
        decreases ast::nesting(expr.view()), 0nat,
    {
        let span = expr.span;
        let (inner, typ) = match &expr.inner {
            ExprInner::FnCall(f, args) => {
                let path = match f {
                    FnPtr::Named(path) => path,
                    FnPtr::Expr(_) => {
                        return None;
                    },
                };
                proof {
                    assert(expr.inner.view()->FnCall_1 =~= ast::expr_views(args@));
                }
                let (xs, ts) = self.arguments(args)?;
                let typ = self.call_type(path.as_str(), span, args.len(), &ts)?;
                let inner = ExprInner::FnCall(FnPtr::Named(path.clone()), xs);
                proof {
                    assert(inner.view()->FnCall_1 =~= ast::expr_views(xs@));
                }
                (inner, typ)
            },
            _ => {
                return None;
            },
        };
        Some((Expression { inner, typ, span }, typ))
    }

    /// Checks a value of a struct type.
    fn construct(&mut self, expr: &Expression<TypeId>) -> (r: Option<(Expression<TypeId>, Option<TypeId>)>)
        requires
            expr.inner is Construct,
        ensures
            forall|hint: Option<TypeId>| gives(
                *old(self),
                *final(self),
                r,
                #[trigger] check_expr(old(self).st(), expr.view(), hint),
                |x: (Expression<TypeId>, Option<TypeId>), st: Checking|
                    Checked { expr: x.0.view(), typ: x.1, st },
            ),
        decreases ast::nesting(expr.view()), 0nat,
    {
        let span = expr.span;
        let (inner, typ) = match &expr.inner {
            ExprInner::Construct { typ, fields } => {
                proof {
                    assert(expr.inner.view()->fields =~= ast::field_views(fields@));
                }
                let decl = match &self.types.find(*typ)?.kind {
                    TypeKind::Struct { fields, .. } => Some(types::copy_fields(fields)),
                    _ => None,
                };
                let xs = match decl {
                    Some(decl) => {
                        let (xs, missing) = self.init_fields(&decl, fields)?;
                        self.unknown_fields(*typ, &decl, fields)?;
                        self.report_missing(span, &missing);
                        xs
                    },
                    None => {
                        self.simple(span, "invalid construct type", "expected struct");
                        copy_inits(fields)
                    },
                };
                let ptr = self.types.ptr_type_to(*typ);
                let inner = ExprInner::Construct { typ: *typ, fields: xs };
                proof {
                    assert(inner.view()->fields =~= ast::field_views(xs@));
                }
                (inner, Some(ptr))
            },
            _ => {
                return None;
            },
        };
        Some((Expression { inner, typ, span }, typ))
    }

    fn arguments(&mut self, args: &Vec<Expression<TypeId>>) -> (r: Option<
        (Vec<Expression<TypeId>>, Vec<(TypeId, Span)>),
    >)
        ensures
            gives(
                *old(self),
                *final(self),
                r,
                check_args(
                    old(self).st(),
                    ast::expr_views(args@),
                    0,
                    Seq::empty(),
                    Seq::empty(),
                ),
                |x: (Vec<Expression<TypeId>>, Vec<(TypeId, Span)>), st: Checking|
                    (ast::expr_views(x.0@), x.1@, st),
            ),
        decreases ast::nesting_of_args(ast::expr_views(args@), args@.len()), 2nat,
    {
        let mut done: Vec<Expression<TypeId>> = Vec::new();
        let mut typed: Vec<(TypeId, Span)> = Vec::new();
        let mut i: usize = 0;
        proof {
            assert(ast::expr_views(done@) =~= Seq::empty());
        }
        while i < args.len()
            invariant
                i <= args.len(),
                self.main_fn == old(self).main_fn,
                check_args(
                    self.st(),
                    ast::expr_views(args@),
                    i as nat,
                    ast::expr_views(done@),
                    typed@,
                ) == check_args(
                    old(self).st(),
                    ast::expr_views(args@),
                    0,
                    Seq::empty(),
                    Seq::empty(),
                ),
            decreases args.len() - i,
        {
            let ghost before = ast::expr_views(done@);
            proof {
                assert(ast::expr_views(args@)[i as int] == args@[i as int].view());
                ast::lemma_arg_nesting(ast::expr_views(args@), args@.len(), i as int);
            }
            let (x, t) = self.expression(&args[i], None)?;
            done.push(x);
            if let Some(t) = t {
                typed.push((t, args[i].span));
            }
            proof {
                assert(ast::expr_views(done@) =~= before.push(x.view()));
            }
            i = i + 1;
        }
        Some((done, typed))
    }

    fn init_fields(
        &mut self,
        decl: &Vec<Field>,
        fields: &Vec<(String, Expression<TypeId>)>,
    ) -> (r: Option<(Vec<(String, Expression<TypeId>)>, Vec<String>)>)
        ensures
            gives(
                *old(self),
                *final(self),
                r,
                check_fields(
                    old(self).st(),
                    types::layout_views(decl@),
                    0,
                    ast::field_views(fields@),
                    ast::field_views(fields@),
                    Seq::empty(),
                ),
                |x: (Vec<(String, Expression<TypeId>)>, Vec<String>), st: Checking|
                    (ast::field_views(x.0@), text::all_chars(x.1@), st),
            ),
        decreases ast::nesting_of_fields(ast::field_views(fields@), fields@.len()), 2nat,
    {
        let mut done = copy_inits(fields);
        let mut missing: Vec<String> = Vec::new();
        let mut i: usize = 0;
        let ghost views = ast::field_views(fields@);
        let ghost decls = types::layout_views(decl@);
        proof {
            assert(text::all_chars(missing@) =~= Seq::empty());
        }
        while i < decl.len()
            invariant
                i <= decl.len(),
                self.main_fn == old(self).main_fn,
                views == ast::field_views(fields@),
                laws::same_nesting(ast::field_views(done@), views),
                decls == types::layout_views(decl@),
                check_fields(
                    self.st(),
                    decls,
                    i as nat,
                    views,
                    ast::field_views(done@),
                    text::all_chars(missing@),
                ) == check_fields(old(self).st(), decls, 0, views, views, Seq::empty()),
            decreases decl.len() - i,
        {
            let f = &decl[i];
            proof {
                assert(decls[i as int] == (f.0@, f.1, f.2, f.3));
            }
            match find_init(fields, f.0.as_str()) {
                None => {
                    let ghost before = text::all_chars(missing@);
                    missing.push(f.0.clone());
                    proof {
                        assert(text::all_chars(missing@) =~= before.push(f.0@));
                    }
                },
                Some(k) => {
                    let ghost before = ast::field_views(done@);
                    proof {
                        let value = done@[k as int];
                        assert(before[k as int] == (value.0@, value.1.view()));
                        ast::lemma_field_nesting(views, views.len(), k as int);
                        laws::law_nesting_stays(self.st(), value.1.view(), Some(f.1));
                    }
                    let (x, t) = self.expression(&done[k].1, Some(f.1))?;
                    self.check_field(t, done[k].1.span, f.1, f.3)?;
                    let name = done[k].0.clone();
                    done[k] = (name, x);
                    proof {
                        assert(ast::field_views(done@) =~= before.update(
                            k as int,
                            (before[k as int].0, x.view()),
                        ));
                    }
                },
            }
            i = i + 1;
        }
        Some((done, missing))
    }

    fn member_target(&mut self, parent: Option<TypeId>, member: &str, span: Span) -> (r: Option<
        Option<TypeId>,
    >)
        ensures
            gives(
                *old(self),
                *final(self),
                r,
                member_target(old(self).st(), parent, member@, span),
                |t: Option<TypeId>, st: Checking| (t, st),
            ),
    {
        let t = match parent {
            None => {
                return Some(None);
            },
            Some(t) => t,
        };
        let v = match self.types.find(t)?.deref_type() {
            Some(v) => v,
            None => {
                let name = self.types.try_name(t)?;
                let msg = text::join2("this is of type ", name.as_str());
                self.simple(span, "expected pointer", msg.as_str());
                return Some(None);
            },
        };
        match &self.types.find(v)?.kind {
            TypeKind::Struct { qualifier, .. } => {
                if let Some((field, _)) = self.types.find_member(v, member) {
                    return Some(Some(field));
                }
                let msg = text::join4("type ", qualifier.as_str(), " has no member ", member);
                self.errs.report(Error::simple(span, "invalid member access", msg.as_str()));
                Some(None)
            },
            _ => {
                let name = self.types.try_name(t)?;
                let msg = text::join2("expected struct, found type ", name.as_str());
                self.errs.report(Error::simple(span, "can only access struct types", msg.as_str()));
                Some(None)
            },
        }
    }

    fn check_target(&mut self, var: &Assignable<TypeId>, span: Span) -> (r: Option<
        (Assignable<TypeId>, Option<TypeId>),
    >)
        ensures
            gives(
                *old(self),
                *final(self),
                r,
                check_target(old(self).st(), var.view(), span),
                |x: (Assignable<TypeId>, Option<TypeId>), st: Checking| (x.0.view(), x.1, st),
            ),
    {
        match var {
            Assignable::Var(name) => {
                let typ = self.check_var(name.as_str(), span);
                Some((Assignable::Var(name.clone()), typ))
            },
            Assignable::Ptr(name, size) => match self.check_ptr(name.as_str(), span)? {
                None => Some((Assignable::Ptr(name.clone(), *size), None)),
                Some(t) => {
                    let size = self.value_size(t)?;
                    Some((Assignable::Ptr(name.clone(), Some(size)), Some(t)))
                },
            },
            Assignable::Index { data, index, val_size } => {
                let (x, t) = self.expression(data, None)?;
                match t {
                    None => Some(
                        (
                            Assignable::Index {
                                data: Box::new(x),
                                index: Box::new(ast::copy_expr(index)),
                                val_size: *val_size,
                            },
                            None,
                        ),
                    ),
                    Some(t) => {
                        let (y, u) = self.expression(index, Some(TypeId::u64()))?;
                        let typ = self.index_type(t, u, index.span, span)?;
                        let val_size = match typ {
                            None => *val_size,
                            Some(v) => Some(self.value_size(v)?),
                        };
                        Some(
                            (
                                Assignable::Index { data: Box::new(x), index: Box::new(y), val_size },
                                None,
                            ),
                        )
                    },
                }
            },
            Assignable::MemberAccess(parent, member) => {
                let (x, t) = self.expression(parent, None)?;
                let typ = self.member_target(t, member.as_str(), span)?;
                Some((Assignable::MemberAccess(Box::new(x), member.clone()), typ))
            },
        }
    }

    fn check_declared(
        &mut self,
        typ: Option<TypeId>,
        explicit: Option<TypeId>,
        expr_span: Span,
        var_span: Span,
    ) -> (r: Option<()>)
        ensures
            gives(
                *old(self),
                *final(self),
                r,
                declared_checked(old(self).st(), typ, explicit, expr_span, var_span),
                |x: (), st: Checking| st,
            ),
    {
        match (typ, explicit) {
            (Some(t), Some(e)) => {
                if t != e {
                    let e_name = self.types.try_name(e)?;
                    let t_name = self.types.try_name(t)?;
                    let msg = text::join4(
                        "expected type ",
                        e_name.as_str(),
                        ", found type ",
                        t_name.as_str(),
                    );
                    self.errs.report(
                        Error::at(var_span).with_message("unexpected type").with_label(
                            expr_span,
                            msg.as_str(),
                        ).with_note(var_span, "variable defined here"),
                    );
                }
            },
            _ => {},
        }
        Some(())
    }

    fn declare(&mut self, var: &String, typ: TypeId, span: Span)
        ensures
            final(self).main_fn == old(self).main_fn,
            final(self).st() == declared(old(self).st(), var@, typ, span),
    {
        let duplicate = self.variables.contains_key(var.as_str());
        self.variables.insert(var.clone(), typ);
        if duplicate {
            self.simple(span, "duplicate variable declaration", "variable already defined");
        }
    }

    fn check_assigned(
        &mut self,
        typ: Option<TypeId>,
        decl: Option<TypeId>,
        expr_span: Span,
        var_span: Span,
    ) -> (r: Option<()>)
        ensures
            gives(
                *old(self),
                *final(self),
                r,
                assigned_checked(old(self).st(), typ, decl, expr_span, var_span),
                |x: (), st: Checking| st,
            ),
    {
        match (typ, decl) {
            (Some(t), Some(d)) => {
                if t != d {
                    let d_name = self.types.try_name(d)?;
                    let t_name = self.types.try_name(t)?;
                    let decl_msg = text::join2("this is of type ", d_name.as_str());
                    let assign_msg = text::join2("this is of type ", t_name.as_str());
                    self.errs.report(
                        Error::at(combine_span(var_span, expr_span)).with_message(
                            "mismatched types",
                        ).with_note(var_span, decl_msg.as_str()).with_label(
                            expr_span,
                            assign_msg.as_str(),
                        ),
                    );
                }
            },
            _ => {},
        }
        Some(())
    }

    fn check_guard(&mut self, typ: Option<TypeId>, span: Span) -> (r: Option<()>)
        ensures
            gives(
                *old(self),
                *final(self),
                r,
                guard_checked(old(self).st(), typ, span),
                |x: (), st: Checking| st,
            ),
    {
        if let Some(t) = typ {
            if t != TypeId::bool() {
                let name = self.types.try_name(t)?;
                let msg = text::join3("expected type 'bool', got '", name.as_str(), "'");
                self.simple(span, "unexpected type", msg.as_str());
            }
        }
        Some(())
    }

    fn check_return(&mut self, typ: Option<TypeId>, ret: TypeId, span: Span, fn_span: Span) -> (r:
        Option<()>)
        ensures
            gives(
                *old(self),
                *final(self),
                r,
                return_checked(old(self).st(), typ, ret, span, fn_span),
                |x: (), st: Checking| st,
            ),
    {
        if let Some(t) = typ {
            if t != ret {
                let t_name = self.types.try_name(t)?;
                let ret_name = self.types.try_name(ret)?;
                let actual = text::join2("this is of type ", t_name.as_str());
                let expected = text::join2("function returns ", ret_name.as_str());
                self.errs.report(
                    Error::at(span).with_message("incompatible types").with_label(
                        span,
                        actual.as_str(),
                    ).with_label(fn_span, expected.as_str()),
                );
            }
        }
        Some(())
    }

    /// Checks a statement, and tells whether it holds a return.
    fn statement(&mut self, stmt: &Statement<TypeId>, ret: TypeId, fn_span: Span) -> (r: Option<
        (Statement<TypeId>, bool),
    >)
        ensures
            gives(
                *old(self),
                *final(self),
                r,
                check_stmt(old(self).st(), stmt.view(), ret, fn_span),
                |x: (Statement<TypeId>, bool), st: Checking| (x.0.view(), x.1, st),
            ),
        decreases stmt, 1nat,
    {
        match stmt {
            Statement::Declare { .. } => self.declaration(stmt, ret, fn_span),
            Statement::Assign { .. } => self.assignment(stmt, ret, fn_span),
            Statement::If { .. } => self.branch(stmt, ret, fn_span),
            Statement::WhileLoop { .. } => self.while_loop(stmt, ret, fn_span),
            Statement::Expr(expr) => {
                let (x, _) = self.expression(expr, None)?;
                Some((Statement::Expr(x), false))
            },
            Statement::Return(expr) => {
                let (x, t) = self.expression(expr, Some(ret))?;
                self.check_return(t, ret, expr.span, fn_span)?;
                Some((Statement::Return(x), true))
            },
        }
    }

    /// Checks the declaration of a variable.
    fn declaration(&mut self, stmt: &Statement<TypeId>, ret: TypeId, fn_span: Span) -> (r: Option<
        (Statement<TypeId>, bool),
    >)
        requires
            stmt is Declare,
        ensures
            gives(
                *old(self),
                *final(self),
                r,
                check_stmt(old(self).st(), stmt.view(), ret, fn_span),
                |x: (Statement<TypeId>, bool), st: Checking| (x.0.view(), x.1, st),
            ),
    {
        match stmt {
            Statement::Declare { var, expr, var_span, explicit_type } => {
                let (x, t) = self.expression(expr, None)?;
                self.check_declared(t, *explicit_type, expr.span, *var_span)?;
                let typ = match t {
                    Some(t) => t,
                    None => TypeId::unit(),
                };
                self.declare(var, typ, *var_span);
                Some(
                    (
                        Statement::Declare {
                            var: var.clone(),
                            expr: x,
                            var_span: *var_span,
                            explicit_type: *explicit_type,
                        },
                        false,
                    ),
                )
            },
            _ => None,
        }
    }

    /// Checks an assignment.
    fn assignment(&mut self, stmt: &Statement<TypeId>, ret: TypeId, fn_span: Span) -> (r: Option<
        (Statement<TypeId>, bool),
    >)
        requires
            stmt is Assign,
        ensures
            gives(
                *old(self),
                *final(self),
                r,
                check_stmt(old(self).st(), stmt.view(), ret, fn_span),
                |x: (Statement<TypeId>, bool), st: Checking| (x.0.view(), x.1, st),
            ),
    {
        match stmt {
            Statement::Assign { var, expr, var_span } => {
                let (x, t) = self.expression(expr, None)?;
                let (var, decl) = self.check_target(var, *var_span)?;
                self.check_assigned(t, decl, expr.span, *var_span)?;
                Some((Statement::Assign { var, expr: x, var_span: *var_span }, false))
            },
            _ => None,
        }
    }

    /// Checks statements under a condition.
    fn branch(&mut self, stmt: &Statement<TypeId>, ret: TypeId, fn_span: Span) -> (r: Option<
        (Statement<TypeId>, bool),
    >)
        requires
            stmt is If,
        ensures
            gives(
                *old(self),
                *final(self),
                r,
                check_stmt(old(self).st(), stmt.view(), ret, fn_span),
                |x: (Statement<TypeId>, bool), st: Checking| (x.0.view(), x.1, st),
            ),
        decreases stmt, 0nat,
    {
        match stmt {
            Statement::If { guard, body } => {
                let (x, t) = self.expression(guard, Some(TypeId::bool()))?;
                self.check_guard(t, guard.span)?;
                proof {
                    assert(stmt.view()->If_body =~= ast::stmt_views(body@));
                }
                let (body, has_return) = self.body(body, ret, fn_span)?;
                let r = Statement::If { guard: x, body };
                proof {
                    assert(r.view()->If_body =~= ast::stmt_views(body@));
                }
                Some((r, has_return))
            },
            _ => None,
        }
    }

    /// Checks statements that are repeated.
    fn while_loop(&mut self, stmt: &Statement<TypeId>, ret: TypeId, fn_span: Span) -> (r: Option<
        (Statement<TypeId>, bool),
    >)
        requires
            stmt is WhileLoop,
        ensures
            gives(
                *old(self),
                *final(self),
                r,
                check_stmt(old(self).st(), stmt.view(), ret, fn_span),
                |x: (Statement<TypeId>, bool), st: Checking| (x.0.view(), x.1, st),
            ),
        decreases stmt, 0nat,
    {
        match stmt {
            Statement::WhileLoop { guard, body } => {
                let (x, t) = self.expression(guard, Some(TypeId::bool()))?;
                self.check_guard(t, guard.span)?;
                proof {
                    assert(stmt.view()->WhileLoop_body =~= ast::stmt_views(body@));
                }
                let (body, has_return) = self.body(body, ret, fn_span)?;
                let r = Statement::WhileLoop { guard: x, body };
                proof {
                    assert(r.view()->WhileLoop_body =~= ast::stmt_views(body@));
                }
                Some((r, has_return))
            },
            _ => None,
        }
    }

    /// Checks statements, and tells whether one of them holds a return.
    fn body(&mut self, stmts: &Vec<Statement<TypeId>>, ret: TypeId, fn_span: Span) -> (r: Option<
        (Vec<Statement<TypeId>>, bool),
    >)
        ensures
            gives(
                *old(self),
                *final(self),
                r,
                check_stmts(
                    old(self).st(),
                    ast::stmt_views(stmts@),
                    0,
                    Seq::empty(),
                    false,
                    ret,
                    fn_span,
                ),
                |x: (Vec<Statement<TypeId>>, bool), st: Checking| (ast::stmt_views(x.0@), x.1, st),
            ),
        decreases stmts, 0nat,
    {
        let mut done: Vec<Statement<TypeId>> = Vec::new();
        let mut has_return = false;
        let mut i: usize = 0;
        proof {
            assert(ast::stmt_views(done@) =~= Seq::empty());
        }
        while i < stmts.len()
            invariant
                i <= stmts.len(),
                self.main_fn == old(self).main_fn,
                check_stmts(
                    self.st(),
                    ast::stmt_views(stmts@),
                    i as nat,
                    ast::stmt_views(done@),
                    has_return,
                    ret,
                    fn_span,
                ) == check_stmts(
                    old(self).st(),
                    ast::stmt_views(stmts@),
                    0,
                    Seq::empty(),
                    false,
                    ret,
                    fn_span,
                ),
            decreases stmts.len() - i,
        {
            let ghost before = ast::stmt_views(done@);
            let (x, r) = self.statement(&stmts[i], ret, fn_span)?;
            done.push(x);
            has_return = has_return || r;
            proof {
                assert(ast::stmt_views(done@) =~= before.push(x.view()));
            }
            i = i + 1;
        }
        Some((done, has_return))
    }

    fn add_function(&mut self, name: String, span: Span, ret: TypeId, args: &Vec<Binding<TypeId>>)
        ensures
            final(self).main_fn == old(self).main_fn,
            final(self).st() == with_function(
                old(self).st(),
                name@,
                SigV { span, ret, args: arg_types(ast::binding_views(args@)) },
            ),
    {
        let other = match self.functions.get(name.as_str()) {
            Some(sig) => Some(sig.span),
            None => None,
        };
        let sig = FnSig { span, ret, args: args_of(args) };
        let ghost before = self.functions@;
        let ghost path = name@;
        self.functions.insert(name, sig);
        proof {
            assert(sig_views(self.functions@) =~= sig_views(before).insert(path, sig.view()));
        }
        if let Some(other) = other {
            self.errs.report(
                Error::at(span).with_message("duplicate function definition").with_label(
                    span,
                    "defined here",
                ).with_label(other, "first defined here"),
            );
        }
    }

    fn add_methods(&mut self, struct_name: &str, defs: &Vec<FnDef<TypeId>>)
        ensures
            final(self).main_fn == old(self).main_fn,
            final(self).st() == with_methods(
                old(self).st(),
                struct_name@,
                ast::fn_views(defs@),
                0,
            ),
    {
        let mut i: usize = 0;
        while i < defs.len()
            invariant
                i <= defs.len(),
                self.main_fn == old(self).main_fn,
                with_methods(self.st(), struct_name@, ast::fn_views(defs@), i as nat)
                    == with_methods(old(self).st(), struct_name@, ast::fn_views(defs@), 0),
            decreases defs.len() - i,
        {
            proof {
                assert(ast::fn_views(defs@)[i as int] == defs@[i as int].view());
            }
            let def = &defs[i];
            self.add_function(
                text::join_path(struct_name, def.name.as_str()),
                def.decl_span,
                def.ret_type,
                &def.args,
            );
            i = i + 1;
        }
    }

    fn add_items(&mut self, items: &Vec<Item<TypeId>>)
        ensures
            final(self).main_fn == old(self).main_fn,
            final(self).st() == with_items(old(self).st(), ast::item_views(items@), 0),
    {
        let mut i: usize = 0;
        while i < items.len()
            invariant
                i <= items.len(),
                self.main_fn == old(self).main_fn,
                with_items(self.st(), ast::item_views(items@), i as nat) == with_items(
                    old(self).st(),
                    ast::item_views(items@),
                    0,
                ),
            decreases items.len() - i,
        {
            proof {
                assert(ast::item_views(items@)[i as int] == items@[i as int].view());
            }
            match &items[i] {
                Item::Function(def) => self.add_function(
                    def.name.clone(),
                    def.decl_span,
                    def.ret_type,
                    &def.args,
                ),
                Item::ForwardDecl { name, args, ret_type, decl_span } => self.add_function(
                    name.clone(),
                    *decl_span,
                    *ret_type,
                    args,
                ),
                Item::Impl { struct_name, functions } => self.add_methods(
                    struct_name.as_str(),
                    functions,
                ),
                Item::MemorySegment { name, typ } => self.globals.insert(name.clone(), *typ),
                Item::ExternLib(_) => {},
                Item::Struct { .. } => {},
            }
            i = i + 1;
        }
    }

    fn add_args(&mut self, args: &Vec<Binding<TypeId>>)
        ensures
            final(self).main_fn == old(self).main_fn,
            final(self).st() == (Checking {
                vars: with_args(
                    old(self).st().vars,
                    ast::binding_views(args@),
                    args@.len(),
                ),
                ..old(self).st()
            }),
    {
        let mut i: usize = 0;
        while i < args.len()
            invariant
                i <= args.len(),
                self.main_fn == old(self).main_fn,
                self.st() == (Checking {
                    vars: with_args(old(self).st().vars, ast::binding_views(args@), i as nat),
                    ..old(self).st()
                }),
            decreases args.len() - i,
        {
            proof {
                assert(ast::binding_views(args@)[i as int].0 == args@[i as int].0@);
                assert(ast::binding_views(args@)[i as int].1 == args@[i as int].1);
            }
            self.variables.insert(args[i].0.clone(), args[i].1);
            i = i + 1;
        }
    }

    fn check_def(&mut self, def: &FnDef<TypeId>, path: String, message: &str, label: &str) -> (r:
        Option<FnDef<TypeId>>)
        ensures
            gives(
                *old(self),
                *final(self),
                r,
                check_def(
                    old(self).st(),
                    def.view(),
                    path@,
                    old(self).main_fn@,
                    message@,
                    label@,
                ),
                |d: FnDef<TypeId>, st: Checking| (d.view(), st),
            ),
    {
        self.add_args(&def.args);
        let (body, has_return) = self.body(&def.body, def.ret_type, def.decl_span)?;
        if !has_return && (text::str_eq(path.as_str(), self.main_fn.as_str()) || def.ret_type
            != TypeId::unit()) {
            self.simple(def.decl_span, message, label);
        }
        let mut calls = Names::new();
        std::mem::swap(&mut calls, &mut self.called);
        self.function_calls.insert(path, calls);
        Some(
            FnDef {
                name: def.name.clone(),
                args: resolve::copy_bindings(&def.args),
                body,
                decl_span: def.decl_span,
                ret_type: def.ret_type,
            },
        )
    }

    fn check_methods(&mut self, struct_name: &str, defs: &Vec<FnDef<TypeId>>) -> (r: Option<
        Vec<FnDef<TypeId>>,
    >)
        ensures
            gives(
                *old(self),
                *final(self),
                r,
                check_methods(
                    old(self).st(),
                    struct_name@,
                    ast::fn_views(defs@),
                    0,
                    Seq::empty(),
                    old(self).main_fn@,
                ),
                |v: Vec<FnDef<TypeId>>, st: Checking| (ast::fn_views(v@), st),
            ),
    {
        let mut done: Vec<FnDef<TypeId>> = Vec::new();
        let mut i: usize = 0;
        proof {
            assert(ast::fn_views(done@) =~= Seq::empty());
        }
        while i < defs.len()
            invariant
                i <= defs.len(),
                self.main_fn == old(self).main_fn,
                check_methods(
                    self.st(),
                    struct_name@,
                    ast::fn_views(defs@),
                    i as nat,
                    ast::fn_views(done@),
                    old(self).main_fn@,
                ) == check_methods(
                    old(self).st(),
                    struct_name@,
                    ast::fn_views(defs@),
                    0,
                    Seq::empty(),
                    old(self).main_fn@,
                ),
            decreases defs.len() - i,
        {
            let ghost before = ast::fn_views(done@);
            proof {
                assert(ast::fn_views(defs@)[i as int] == defs@[i as int].view());
            }
            let path = text::join_path(struct_name, defs[i].name.as_str());
            let x = self.check_def(
                &defs[i],
                path,
                "no return statement found in function",
                "function must return a value",
            )?;
            done.push(x);
            proof {
                assert(ast::fn_views(done@) =~= before.push(x.view()));
            }
            i = i + 1;
        }
        Some(done)
    }

    fn item(&mut self, item: &Item<TypeId>) -> (r: Option<Item<TypeId>>)
        ensures
            gives(
                *old(self),
                *final(self),
                r,
                check_item(old(self).st(), item.view(), old(self).main_fn@),
                |i: Item<TypeId>, st: Checking| (i.view(), st),
            ),
    {
        self.variables.clear();
        match item {
            Item::Function(def) => {
                let def = self.check_def(
                    def,
                    def.name.clone(),
                    "no return statement found in function main",
                    "main must return a value",
                )?;
                Some(Item::Function(def))
            },
            Item::Impl { struct_name, functions } => {
                let functions = self.check_methods(struct_name.as_str(), functions)?;
                Some(Item::Impl { struct_name: struct_name.clone(), functions })
            },
            Item::ForwardDecl { name, args, ret_type, decl_span } => Some(
                Item::ForwardDecl {
                    name: name.clone(),
                    args: resolve::copy_bindings(args),
                    ret_type: *ret_type,
                    decl_span: *decl_span,
                },
            ),
            Item::ExternLib(name) => Some(Item::ExternLib(name.clone())),
            Item::MemorySegment { name, typ } => Some(
                Item::MemorySegment { name: name.clone(), typ: *typ },
            ),
            Item::Struct { name, decl_span, fields } => Some(
                Item::Struct {
                    name: name.clone(),
                    decl_span: *decl_span,
                    fields: resolve::copy_bindings(fields),
                },
            ),
        }
    }

    fn check_items(&mut self, items: &Vec<Item<TypeId>>) -> (r: Option<Vec<Item<TypeId>>>)
        ensures
            gives(
                *old(self),
                *final(self),
                r,
                check_items(
                    old(self).st(),
                    ast::item_views(items@),
                    0,
                    Seq::empty(),
                    old(self).main_fn@,
                ),
                |v: Vec<Item<TypeId>>, st: Checking| (ast::item_views(v@), st),
            ),
    {
        let mut done: Vec<Item<TypeId>> = Vec::new();
        let mut i: usize = 0;
        proof {
            assert(ast::item_views(done@) =~= Seq::empty());
        }
        while i < items.len()
            invariant
                i <= items.len(),
                self.main_fn == old(self).main_fn,
                check_items(
                    self.st(),
                    ast::item_views(items@),
                    i as nat,
                    ast::item_views(done@),
                    old(self).main_fn@,
                ) == check_items(
                    old(self).st(),
                    ast::item_views(items@),
                    0,
                    Seq::empty(),
                    old(self).main_fn@,
                ),
            decreases items.len() - i,
        {
            let ghost before = ast::item_views(done@);
            proof {
                assert(ast::item_views(items@)[i as int] == items@[i as int].view());
            }
            let x = self.item(&items[i])?;
            done.push(x);
            proof {
                assert(ast::item_views(done@) =~= before.push(x.view()));
            }
            i = i + 1;
        }
        Some(done)
    }

    /// The functions that are needed by the main function.
    fn used_functions(&self) -> (r: Names)
        ensures
            r@ == used(self.function_calls@, self.main_fn@),
    {
        let mut found = Names::new();
        found.insert(self.main_fn.as_str());
        found.insert("std::alloc");
        let mut queue: Vec<String> = Vec::new();
        queue.push(self.main_fn.clone());
        let mut head: usize = 0;
        let ghost calls = self.function_calls@;
        let ghost main = self.main_fn@;
        let ghost all = names::members(names::entry_views(self.function_calls.entries@)).insert(
            main,
        ).insert("std::alloc"@);
        proof {
            self.function_calls.law_members();
            assert(is_chain(calls, main, seq![main]));
            assert(text::all_chars(queue@) =~= seq![main]);
            assert(text::all_chars(queue@)[0] == main);
        }
        while head < queue.len()
            invariant
                head <= queue.len(),
                calls == self.function_calls@,
                main == self.main_fn@,
                all.finite(),
                forall|k: Seq<char>| #[trigger] calls.contains_key(k) ==> calls[k].subset_of(all),
                found@.subset_of(all),
                queue_ok(calls, main, text::all_chars(queue@), found@),
                forall|j: int, f: Seq<char>|
                    0 <= j < head && calls.contains_key(text::all_chars(queue@)[j])
                        && #[trigger] calls[#[trigger] text::all_chars(queue@)[j]].contains(f)
                        ==> found@.contains(f),
            decreases all.len() - found@.len(), queue.len() - head,
        {
            proof {
                vstd::set_lib::lemma_len_subset(found@, all);
                vstd::seq_lib::seq_to_set_is_finite(text::all_chars(found.list@));
            }
            let ghost old_len = found@.len();
            let ghost before_set = found@;
            let func = queue[head].clone();
            let ghost names0 = text::all_chars(queue@);
            proof {
                assert(names0[head as int] == func@);
            }
            if let Some(callees) = self.function_calls.get(func.as_str()) {
                let ghost list = text::all_chars(callees.list@);
                let mut i: usize = 0;
                while i < callees.list.len()
                    invariant
                        i <= callees.list.len(),
                        head < queue.len(),
                        list == text::all_chars(callees.list@),
                        calls == self.function_calls@,
                        main == self.main_fn@,
                        calls.contains_key(func@),
                        calls[func@] == list.to_set(),
                        all.finite(),
                        calls[func@].subset_of(all),
                        found@.subset_of(all),
                        found@.finite(),
                        names0.len() <= queue@.len(),
                        names0 == text::all_chars(queue@).subrange(0, names0.len() as int),
                        head < names0.len(),
                        names0[head as int] == func@,
                        queue_ok(calls, main, text::all_chars(queue@), found@),
                        found@.len() >= old_len,
                        queue@.len() > names0.len() ==> found@.len() > old_len,
                        before_set.subset_of(found@),
                        forall|j: int| 0 <= j < i ==> found@.contains(#[trigger] list[j]),
                    decreases callees.list.len() - i,
                {
                    let callee = &callees.list[i];
                    proof {
                        assert(list[i as int] == callee@);
                        assert(list.to_set().contains(callee@));
                    }
                    if !found.contains(callee.as_str()) {
                        let ghost queue0 = text::all_chars(queue@);
                        let ghost found0 = found@;
                        found.insert(callee.as_str());
                        queue.push(callee.clone());
                        proof {
                            assert(text::all_chars(queue@) =~= queue0.push(callee@));
                            assert(names0 =~= text::all_chars(queue@).subrange(
                                0,
                                names0.len() as int,
                            ));
                            assert(queue0[head as int] == func@);
                            lemma_queue_push(calls, main, queue0, found0, head as int, callee@);
                        }
                    }
                    i = i + 1;
                }
                proof {
                    assert forall|f: Seq<char>| #[trigger] calls[func@].contains(f) implies found@.contains(
                        f,
                    ) by {
                        let j = choose|j: int| 0 <= j < list.len() && list[j] == f;
                        assert(found@.contains(list[j]));
                    }
                }
            }
            head = head + 1;
            proof {
                vstd::set_lib::lemma_len_subset(found@, all);
                let now = text::all_chars(queue@);
                assert forall|j: int, f: Seq<char>|
                    0 <= j < head && calls.contains_key(now[j]) && #[trigger] calls[#[trigger] now[j]].contains(
                        f,
                    ) implies found@.contains(f) by {
                    if j < head - 1 {
                        assert(names0[j] == now[j]);
                    } else {
                        assert(now[j] == func@);
                    }
                }
            }
        }
        proof {
            lemma_queue_done(calls, main, text::all_chars(queue@), found@);
        }
        found
    }

    /// Checks a program. Its expressions get their types, and what is not needed is left out, whether
    /// or not errors are found. The errors are handed out.
    pub fn analyze(&mut self, tree: &mut AST<TypeId>) -> (r: Result<(), ErrorVec>)
        requires
            analysis(old(self).st(), old(tree).view(), old(self).main_path()) is Some,
        ensures
            analysis(old(self).st(), old(tree).view(), old(self).main_path()) matches Some((t, st))
                && is_result(r, t, st, final(tree).view(), final(self).st()),
            final(self).main_path() == old(self).main_path(),
    {
        match self.try_analyze(tree) {
            Some(r) => r,
            None => Ok(()),
        }
    }

    /// As [`Analyzer::analyze`], for any program: `None`, with the program left as it was, where
    /// checking cannot go on.
    pub fn try_analyze(&mut self, tree: &mut AST<TypeId>) -> (r: Option<Result<(), ErrorVec>>)
        ensures
            match analysis(old(self).st(), old(tree).view(), old(self).main_path()) {
                Some((t, st)) => r is Some && is_result(
                    r->0,
                    t,
                    st,
                    final(tree).view(),
                    final(self).st(),
                ),
                None => r is None && *final(tree) == *old(tree),
            },
            final(self).main_path() == old(self).main_path(),
    {
        self.add_items(&tree.items);
        let items = self.check_items(&tree.items)?;
        let needed = self.used_functions();
        tree.items = keep_items(&needed, items);
        if !self.errs.is_empty() {
            return Some(Err(self.errs.take_errors()));
        }
        Some(Ok(()))
    }
}

/// What checking a program handed out and left behind, where it came to `tree` and `st`.
pub open spec fn is_result(
    r: Result<(), ErrorVec>,
    tree: AstV<TypeId>,
    st: Checking,
    final_tree: AstV<TypeId>,
    final_st: Checking,
) -> bool {
    &&& final_tree == tree
    &&& match r {
        Ok(()) => st.errs.len() == 0 && final_st == st,
        Err(e) => st.errs.len() > 0 && e@ == st.errs && final_st == (Checking {
            errs: Seq::empty(),
            ..st
        }),
    }
}

/// Checks a program. If no error is found, gives it with the types of its expressions and without
/// what the main function does not need, and the analyzer with all types.
pub fn analyze(tree: AST<TypeId>, types: TypeMap, main_fn: &str) -> (r: Result<
    (ValidAST, Analyzer),
    ErrorVec,
>)
    requires
        verdict(tree.view(), types@, main_fn@) is Some,
    ensures
        match r {
            Ok((t, a)) => verdict(tree.view(), types@, main_fn@) == Some(
                Verdict::Valid(t.0.view(), a.known_types()),
            ),
            Err(e) => verdict(tree.view(), types@, main_fn@) == Some(Verdict::Invalid(e@)),
        },
{
    match try_analyze(tree, types, main_fn) {
        Some(r) => r,
        None => Err(ErrorVec(Vec::new())),
    }
}

/// As [`analyze`], for any program: `None` where checking cannot go on.
pub fn try_analyze(tree: AST<TypeId>, types: TypeMap, main_fn: &str) -> (r: Option<
    Result<(ValidAST, Analyzer), ErrorVec>,
>)
    ensures
        match r {
            Some(Ok((t, a))) => verdict(tree.view(), types@, main_fn@) == Some(
                Verdict::Valid(t.0.view(), a.known_types()),
            ),
            Some(Err(e)) => verdict(tree.view(), types@, main_fn@) == Some(Verdict::Invalid(e@)),
            None => verdict(tree.view(), types@, main_fn@) is None,
        },
{
    let mut tree = tree;
    let mut analyzer = Analyzer::new(main_fn, types);
    match analyzer.try_analyze(&mut tree)? {
        Ok(()) => Some(Ok((ValidAST(tree), analyzer))),
        Err(e) => Some(Err(e)),
    }
}

/// The queue holds functions that were found and are to be entered, the main function first.
spec fn queue_ok(
    calls: Map<Seq<char>, Set<Seq<char>>>,
    main: Seq<char>,
    queue: Seq<Seq<char>>,
    found: Set<Seq<char>>,
) -> bool {
    &&& queue.len() > 0 && queue[0] == main
    &&& found.contains(main) && found.contains("std::alloc"@)
    &&& forall|f: Seq<char>| #[trigger]
        found.contains(f) ==> is_used(calls, main, f) && (f == "std::alloc"@ || queue.contains(f))
    &&& forall|j: int|
        0 <= j < queue.len() ==> found.contains(#[trigger] queue[j]) && is_end(
            calls,
            main,
            queue[j],
        ) && (j > 0 ==> queue[j] != "std::alloc"@)
}

/// A way leads from the main function to `f`.
spec fn is_end(calls: Map<Seq<char>, Set<Seq<char>>>, main: Seq<char>, f: Seq<char>) -> bool {
    exists|chain: Seq<Seq<char>>| #[trigger] is_chain(calls, main, chain) && chain.last() == f
}

proof fn lemma_queue_push(
    calls: Map<Seq<char>, Set<Seq<char>>>,
    main: Seq<char>,
    queue: Seq<Seq<char>>,
    found: Set<Seq<char>>,
    h: int,
    c: Seq<char>,
)
    requires
        queue_ok(calls, main, queue, found),
        0 <= h < queue.len(),
        calls.contains_key(queue[h]),
        calls[queue[h]].contains(c),
        !found.contains(c),
    ensures
        queue_ok(calls, main, queue.push(c), found.insert(c)),
{
    let chain = if h == 0 {
        seq![main]
    } else {
        choose|chain: Seq<Seq<char>>| #[trigger]
            is_chain(calls, main, chain) && chain.last() == queue[h]
    };
    assert(is_end(calls, main, queue[h]));
    assert(is_chain(calls, main, chain) && chain.last() == queue[h]);
    let longer = chain.push(c);
    assert forall|i: int| 0 <= i < longer.len() - 1 implies {
        &&& calls.contains_key(#[trigger] longer[i])
        &&& calls[longer[i]].contains(longer[i + 1])
        &&& i > 0 ==> longer[i] != "std::alloc"@
    } by {
        if i < chain.len() - 1 {
            assert(longer[i] == chain[i]);
            assert(longer[i + 1] == chain[i + 1]);
        } else {
            assert(longer[i] == queue[h]);
        }
    }
    assert(is_chain(calls, main, longer));
    assert(longer.last() == c);
    let queue1 = queue.push(c);
    assert forall|f: Seq<char>| #[trigger] found.insert(c).contains(f) implies is_used(
        calls,
        main,
        f,
    ) && (f == "std::alloc"@ || queue1.contains(f)) by {
        if f == c {
            assert(queue1[queue.len() as int] == c);
        } else {
            if queue.contains(f) {
                let k = choose|k: int| 0 <= k < queue.len() && queue[k] == f;
                assert(queue1[k] == f);
            }
        }
    }
    assert forall|j: int| 0 <= j < queue1.len() implies found.insert(c).contains(#[trigger] queue1[j])
        && is_end(calls, main, queue1[j]) && (j > 0 ==> queue1[j] != "std::alloc"@) by {
        if j < queue.len() {
            assert(queue1[j] == queue[j]);
        }
    }
}

proof fn lemma_chain_found(
    calls: Map<Seq<char>, Set<Seq<char>>>,
    main: Seq<char>,
    queue: Seq<Seq<char>>,
    found: Set<Seq<char>>,
    chain: Seq<Seq<char>>,
    i: int,
)
    requires
        queue_ok(calls, main, queue, found),
        forall|j: int, f: Seq<char>|
            0 <= j < queue.len() && calls.contains_key(queue[j]) && #[trigger] calls[#[trigger] queue[j]].contains(
                f,
            ) ==> found.contains(f),
        is_chain(calls, main, chain),
        0 <= i < chain.len(),
    ensures
        found.contains(chain[i]),
    decreases i,
{
    if i > 0 {
        lemma_chain_found(calls, main, queue, found, chain, i - 1);
        let f = chain[i - 1];
        assert(calls.contains_key(f) && calls[f].contains(chain[i]));
        if i - 1 == 0 {
            assert(queue[0] == f);
            assert(calls[queue[0]].contains(chain[i]));
        } else {
            assert(queue.contains(f));
            let j = choose|j: int| 0 <= j < queue.len() && queue[j] == f;
            assert(calls[queue[j]].contains(chain[i]));
        }
    }
}

proof fn lemma_queue_done(
    calls: Map<Seq<char>, Set<Seq<char>>>,
    main: Seq<char>,
    queue: Seq<Seq<char>>,
    found: Set<Seq<char>>,
)
    requires
        queue_ok(calls, main, queue, found),
        forall|j: int, f: Seq<char>|
            0 <= j < queue.len() && calls.contains_key(queue[j]) && #[trigger] calls[#[trigger] queue[j]].contains(
                f,
            ) ==> found.contains(f),
    ensures
        found == used(calls, main),
{
    assert forall|f: Seq<char>| is_used(calls, main, f) implies #[trigger] found.contains(f) by {
        if f != main && f != "std::alloc"@ {
            let chain = choose|chain: Seq<Seq<char>>| #[trigger]
                is_chain(calls, main, chain) && chain.last() == f;
            lemma_chain_found(calls, main, queue, found, chain, chain.len() - 1);
        }
    }
    assert(found =~= used(calls, main));
}

fn keep_methods(used: &Names, struct_name: &str, defs: Vec<FnDef<TypeId>>) -> (r: Vec<
    FnDef<TypeId>,
>)
    ensures
        ast::fn_views(r@) == kept_methods(
            used@,
            struct_name@,
            ast::fn_views(defs@),
            0,
            Seq::empty(),
        ),
{
    let mut kept: Vec<FnDef<TypeId>> = Vec::new();
    let ghost views = ast::fn_views(defs@);
    let ghost all = defs@;
    proof {
        assert(ast::fn_views(kept@) =~= Seq::empty());
    }
    for def in it: defs.into_iter()
        invariant
            it.seq() == all,
            views == ast::fn_views(all),
            kept_methods(
                used@,
                struct_name@,
                views,
                it.index() as nat,
                ast::fn_views(kept@),
            ) == kept_methods(used@, struct_name@, views, 0, Seq::empty()),
    {
        let ghost before = ast::fn_views(kept@);
        proof {
            assert(views[it.index() as int] == def.view());
        }
        let path = text::join_path(struct_name, def.name.as_str());
        if used.contains(path.as_str()) {
            kept.push(def);
            proof {
                assert(ast::fn_views(kept@) =~= before.push(def.view()));
            }
        }
    }
    kept
}

fn keep_items(used: &Names, items: Vec<Item<TypeId>>) -> (r: Vec<Item<TypeId>>)
    ensures
        ast::item_views(r@) == kept_items(used@, ast::item_views(items@), 0, Seq::empty()),
{
    let mut kept: Vec<Item<TypeId>> = Vec::new();
    let ghost views = ast::item_views(items@);
    let ghost all = items@;
    proof {
        assert(ast::item_views(kept@) =~= Seq::empty());
    }
    for item in it: items.into_iter()
        invariant
            it.seq() == all,
            views == ast::item_views(all),
            kept_items(used@, views, it.index() as nat, ast::item_views(kept@)) == kept_items(
                used@,
                views,
                0,
                Seq::empty(),
            ),
    {
        let ghost before = ast::item_views(kept@);
        proof {
            assert(views[it.index() as int] == item.view());
        }
        let item = match item {
            Item::Function(def) => if used.contains(def.name.as_str()) {
                Some(Item::Function(def))
            } else {
                None
            },
            Item::Impl { struct_name, functions } => {
                let functions = keep_methods(used, struct_name.as_str(), functions);
                Some(Item::Impl { struct_name, functions })
            },
            Item::ForwardDecl { .. } => None,
            Item::ExternLib(_) => None,
            other => Some(other),
        };
        if let Some(item) = item {
            kept.push(item);
            proof {
                assert(ast::item_views(kept@) =~= before.push(item.view()));
            }
        }
    }
    kept
}

fn args_of(v: &Vec<Binding<TypeId>>) -> (r: Vec<(Span, TypeId)>)
    ensures
        r@ == arg_types(ast::binding_views(v@)),
{
    let mut r: Vec<(Span, TypeId)> = Vec::new();
    let mut i: usize = 0;
    while i < v.len()
        invariant
            i <= v.len(),
            r@.len() == i,
            forall|j: int| 0 <= j < i ==> #[trigger] r@[j] == (v@[j].2, v@[j].1),
        decreases v.len() - i,
    {
        r.push((v[i].2, v[i].1));
        i = i + 1;
    }
    r
}

/// The position of the first value for a field.
fn find_init(fields: &Vec<(String, Expression<TypeId>)>, name: &str) -> (r: Option<usize>)
    ensures
        match r {
            Some(k) => k < fields@.len() && init_index(ast::field_views(fields@), name@, 0) == Some(
                k as int,
            ),
            None => init_index(ast::field_views(fields@), name@, 0) is None,
        },
{
    let mut i: usize = 0;
    while i < fields.len()
        invariant
            i <= fields.len(),
            init_index(ast::field_views(fields@), name@, i as nat) == init_index(
                ast::field_views(fields@),
                name@,
                0,
            ),
        decreases fields.len() - i,
    {
        proof {
            assert(ast::field_views(fields@)[i as int].0 == fields@[i as int].0@);
        }
        if text::str_eq(fields[i].0.as_str(), name) {
            return Some(i);
        }
        i = i + 1;
    }
    None
}

fn copy_inits(fields: &Vec<(String, Expression<TypeId>)>) -> (r: Vec<(String, Expression<TypeId>)>)
    ensures
        r@.len() == fields@.len(),
        ast::field_views(r@) == ast::field_views(fields@),
{
    let mut r: Vec<(String, Expression<TypeId>)> = Vec::new();
    let mut i: usize = 0;
    while i < fields.len()
        invariant
            i <= fields.len(),
            r@.len() == i,
            forall|j: int|
                0 <= j < i ==> (#[trigger] r@[j]).0@ == fields@[j].0@ && r@[j].1.view()
                    == fields@[j].1.view(),
        decreases fields.len() - i,
    {
        r.push((fields[i].0.clone(), ast::copy_expr(&fields[i].1)));
        i = i + 1;
    }
    proof {
        assert(ast::field_views(r@) =~= ast::field_views(fields@));
    }
    r
}

fn copy_arg_types(v: &Vec<(Span, TypeId)>) -> (r: Vec<(Span, TypeId)>)
    ensures
        r@ == v@,
{
    let mut r: Vec<(Span, TypeId)> = Vec::new();
    let mut i: usize = 0;
    while i < v.len()
        invariant
            i <= v.len(),
            r@ == v@.subrange(0, i as int),
        decreases v.len() - i,
    {
        r.push(v[i]);
        i = i + 1;
    }
    r
}

} // verus!
