//! Replaces the names of types and functions by what they stand for, and lays out structs.

use std::collections::{HashMap, HashSet};

use vstd::prelude::*;

use crate::analyze::ast;
use crate::analyze::ast::parse::{Parsed, ParsedV};
use crate::analyze::ast::{
    Assignable, AssignableV, AstV, Binding, ExprInner, ExprInnerV, ExprV, Expression, FnDef,
    FnDefV, FnPtr, FnPtrV, Item, ItemV, Statement, StmtV, AST,
};
use crate::analyze::semantics::types;
use crate::analyze::semantics::types::{
    Field, ParsedType, ParsedTypeV, Primitive, TypeId, TypeInfo, TypeInfoV, TypeKind, TypeKindV,
    TypeMap, TypesV,
};
use crate::analyze::{Error, ErrorContext, ErrorV, Span};
use crate::text;

verus! {

broadcast use vstd::std_specs::hash::group_hash_axioms;

/// What names are resolved by: the path of the module, its imports, and the hashes of the types
/// and functions that are declared anywhere.
pub struct ScopeV {
    pub path: Seq<char>,
    pub imports: Seq<(Seq<char>, Span)>,
    pub known_types: Set<u64>,
    pub known_fns: Set<u64>,
}

/// What resolution adds to: the types, and the errors reported.
#[verifier::ext_equal]
pub struct Resolving {
    pub types: TypesV,
    pub errs: Seq<ErrorV>,
}

impl Resolving {
    pub open spec fn reported(self, e: ErrorV) -> Resolving {
        Resolving { errs: self.errs.push(e), ..self }
    }
}

/// The first import from `i` on whose last name is `name`, as its path and that name.
pub open spec fn import_of(imports: Seq<(Seq<char>, Span)>, name: Seq<char>, i: int) -> Option<
    (Seq<char>, Seq<char>),
>
    decreases imports.len() - i,
{
    if i < 0 || i >= imports.len() {
        None
    } else {
        match text::split_last(imports[i].0) {
            Some((parent, last)) => if last == name {
                Some((parent, imports[i].0))
            } else {
                import_of(imports, name, i + 1)
            },
            None => import_of(imports, name, i + 1),
        }
    }
}

/// The type that `typ` stands for. A struct is looked for in the module, then by its whole path,
/// then among the imports; an import that names no type ends the resolution. A type that is not
/// found is reported and replaced by the type with the number zero.
pub open spec fn resolved_type(scope: ScopeV, st: Resolving, typ: ParsedTypeV, span: Span) -> Option<
    (TypeId, Resolving),
>
    decreases typ,
{
    match typ {
        ParsedTypeV::Primitive(p) => Some((types::primitive_id(p), st)),
        ParsedTypeV::Pointer(value) => match resolved_type(scope, st, *value, span) {
            None => None,
            Some((id, st1)) => Some(
                (
                    types::pointer_id(id),
                    Resolving { types: types::with_pointer(st1.types, id), ..st1 },
                ),
            ),
        },
        ParsedTypeV::Struct(name) => {
            let local = types::struct_id(text::path_of(scope.path, name));
            let absolute = types::struct_id(name);
            if scope.known_types.contains(local.0) {
                Some((local, st))
            } else if scope.known_types.contains(absolute.0) {
                Some((absolute, st))
            } else {
                match import_of(scope.imports, name, 0) {
                    Some((_, import)) => if scope.known_types.contains(
                        types::struct_id(import).0,
                    ) {
                        Some((types::struct_id(import), st))
                    } else {
                        None
                    },
                    None => Some(
                        (
                            TypeId(0),
                            st.reported(
                                ErrorV::simple(span, "unknown type "@ + name, "what is this?"@),
                            ),
                        ),
                    ),
                }
            }
        },
    }
}

/// The path of the function that `path` names, and whether there is one. It is looked for in the
/// module, then by its whole path, then by the import of its first name.
pub open spec fn function_path(scope: ScopeV, path: Seq<char>) -> (Seq<char>, bool) {
    let local = text::path_of(scope.path, path);
    if scope.known_fns.contains(types::path_hash(local)) {
        (local, true)
    } else if scope.known_fns.contains(types::path_hash(path)) {
        (path, true)
    } else {
        match import_of(scope.imports, text::root_of(path), 0) {
            Some((parent, _)) => (text::path_of(parent, path), true),
            None => (path, false),
        }
    }
}

pub open spec fn resolved_opt_type(scope: ScopeV, st: Resolving, typ: Option<ParsedV>) -> Option<
    (Option<TypeId>, Resolving),
> {
    match typ {
        None => Some((None, st)),
        Some(t) => match resolved_type(scope, st, t.0, t.1) {
            None => None,
            Some((id, st1)) => Some((Some(id), st1)),
        },
    }
}

/// An expression with its types and functions resolved. `None` where resolution ends.
pub open spec fn resolved_expr(scope: ScopeV, st: Resolving, expr: ExprV<ParsedV>) -> Option<
    (ExprV<TypeId>, Resolving),
>
    decreases expr, 0nat,
{
    match resolved_opt_type(scope, st, expr.typ) {
        None => None,
        Some((typ, st1)) => match resolved_inner(scope, st1, expr.inner) {
            None => None,
            Some((inner, st2)) => Some((ExprV { inner, typ, span: expr.span }, st2)),
        },
    }
}

pub open spec fn resolved_inner(scope: ScopeV, st: Resolving, inner: ExprInnerV<ParsedV>) -> Option<
    (ExprInnerV<TypeId>, Resolving),
>
    decreases inner, 0nat,
{
    match inner {
        ExprInnerV::Const(n, p) => Some((ExprInnerV::Const(n, p), st)),
        ExprInnerV::Character(c) => Some((ExprInnerV::Character(c), st)),
        ExprInnerV::String(s) => Some((ExprInnerV::String(s), st)),
        ExprInnerV::Bool(b) => Some((ExprInnerV::Bool(b), st)),
        ExprInnerV::Ident(s) => Some((ExprInnerV::Ident(s), st)),
        ExprInnerV::Pointer(s) => Some((ExprInnerV::Pointer(s), st)),
        ExprInnerV::Deref(s, _) => Some((ExprInnerV::Deref(s, None), st)),
        ExprInnerV::Arithmetic(a, b, op, sign) => match resolved_expr(scope, st, *a) {
            None => None,
            Some((x, st1)) => match resolved_expr(scope, st1, *b) {
                None => None,
                Some((y, st2)) => Some(
                    (ExprInnerV::Arithmetic(Box::new(x), Box::new(y), op, sign), st2),
                ),
            },
        },
        ExprInnerV::Comparison(a, b, op, sign) => match resolved_expr(scope, st, *a) {
            None => None,
            Some((x, st1)) => match resolved_expr(scope, st1, *b) {
                None => None,
                Some((y, st2)) => Some(
                    (ExprInnerV::Comparison(Box::new(x), Box::new(y), op, sign), st2),
                ),
            },
        },
        ExprInnerV::Logical(a, b, op) => match resolved_expr(scope, st, *a) {
            None => None,
            Some((x, st1)) => match resolved_expr(scope, st1, *b) {
                None => None,
                Some((y, st2)) => Some(
                    (ExprInnerV::Logical(Box::new(x), Box::new(y), op), st2),
                ),
            },
        },
        ExprInnerV::Not(a) => match resolved_expr(scope, st, *a) {
            None => None,
            Some((x, st1)) => Some((ExprInnerV::Not(Box::new(x)), st1)),
        },
        ExprInnerV::Negate(a) => match resolved_expr(scope, st, *a) {
            None => None,
            Some((x, st1)) => Some((ExprInnerV::Negate(Box::new(x)), st1)),
        },
        ExprInnerV::Cast(a, t) => match resolved_expr(scope, st, *a) {
            None => None,
            Some((x, st1)) => match resolved_type(scope, st1, t.0, t.1) {
                None => None,
                Some((id, st2)) => Some((ExprInnerV::Cast(Box::new(x), id), st2)),
            },
        },
        ExprInnerV::Index { data, index, val_size } => match resolved_expr(scope, st, *data) {
            None => None,
            Some((x, st1)) => match resolved_expr(scope, st1, *index) {
                None => None,
                Some((y, st2)) => Some(
                    (
                        ExprInnerV::Index { data: Box::new(x), index: Box::new(y), val_size },
                        st2,
                    ),
                ),
            },
        },
        ExprInnerV::MemberAccess(a, member, id) => match resolved_expr(scope, st, *a) {
            None => None,
            Some((x, st1)) => Some((ExprInnerV::MemberAccess(Box::new(x), member, id), st1)),
        },
        ExprInnerV::FnCall(f, args) => match resolved_fn(scope, st, f) {
            None => None,
            Some((f, st1)) => match resolved_exprs(scope, st1, args, 0, Seq::empty()) {
                None => None,
                Some((xs, st2)) => Some((ExprInnerV::FnCall(f, xs), st2)),
            },
        },
        ExprInnerV::Construct { typ, fields } => match resolved_type(scope, st, typ.0, typ.1) {
            None => None,
            Some((id, st1)) => match resolved_fields(scope, st1, fields, 0, Seq::empty()) {
                None => None,
                Some((xs, st2)) => Some((ExprInnerV::Construct { typ: id, fields: xs }, st2)),
            },
        },
        ExprInnerV::SizeOf(t) => match resolved_type(scope, st, t.0, t.1) {
            None => None,
            Some((id, st1)) => Some((ExprInnerV::SizeOf(id), st1)),
        },
    }
}

/// The called function. A path that names no function is reported and kept. A function that was
/// resolved before is not resolved again: there resolution ends.
pub open spec fn resolved_fn(scope: ScopeV, st: Resolving, f: FnPtrV<ParsedV>) -> Option<
    (FnPtrV<TypeId>, Resolving),
>
    decreases f, 0nat,
{
    match f {
        FnPtrV::Named(_) => None,
        FnPtrV::Expr(e) => match resolved_expr(scope, st, *e) {
            None => None,
            Some((x, st1)) => match x.inner {
                ExprInnerV::Ident(path) => {
                    let found = function_path(scope, path);
                    if found.1 {
                        Some((FnPtrV::Named(found.0), st1))
                    } else {
                        Some(
                            (
                                FnPtrV::Named(path),
                                st1.reported(
                                    ErrorV::simple(
                                        x.span,
                                        "unknown function"@,
                                        "please find this..."@,
                                    ),
                                ),
                            ),
                        )
                    }
                },
                _ => Some((FnPtrV::Expr(Box::new(x)), st1)),
            },
        },
    }
}

/// The expressions from `i` on, behind those in `done`.
pub open spec fn resolved_exprs(
    scope: ScopeV,
    st: Resolving,
    exprs: Seq<ExprV<ParsedV>>,
    i: nat,
    done: Seq<ExprV<TypeId>>,
) -> Option<(Seq<ExprV<TypeId>>, Resolving)>
    decreases exprs, exprs.len() - i,
{
    if i >= exprs.len() {
        Some((done, st))
    } else {
        match resolved_expr(scope, st, exprs[i as int]) {
            None => None,
            Some((x, st1)) => resolved_exprs(scope, st1, exprs, i + 1, done.push(x)),
        }
    }
}

/// The named expressions from `i` on, behind those in `done`.
pub open spec fn resolved_fields(
    scope: ScopeV,
    st: Resolving,
    fields: Seq<(Seq<char>, ExprV<ParsedV>)>,
    i: nat,
    done: Seq<(Seq<char>, ExprV<TypeId>)>,
) -> Option<(Seq<(Seq<char>, ExprV<TypeId>)>, Resolving)>
    decreases fields, fields.len() - i,
{
    if i >= fields.len() {
        Some((done, st))
    } else {
        match resolved_expr(scope, st, fields[i as int].1) {
            None => None,
            Some((x, st1)) => resolved_fields(
                scope,
                st1,
                fields,
                i + 1,
                done.push((fields[i as int].0, x)),
            ),
        }
    }
}

pub open spec fn resolved_target(scope: ScopeV, st: Resolving, var: AssignableV<ParsedV>) -> Option<
    (AssignableV<TypeId>, Resolving),
> {
    match var {
        AssignableV::Var(name) => Some((AssignableV::Var(name), st)),
        AssignableV::Ptr(name, size) => Some((AssignableV::Ptr(name, size), st)),
        AssignableV::Index { data, index, val_size } => match resolved_expr(scope, st, data) {
            None => None,
            Some((x, st1)) => match resolved_expr(scope, st1, index) {
                None => None,
                Some((y, st2)) => Some((AssignableV::Index { data: x, index: y, val_size }, st2)),
            },
        },
        AssignableV::MemberAccess(a, member) => match resolved_expr(scope, st, a) {
            None => None,
            Some((x, st1)) => Some((AssignableV::MemberAccess(x, member), st1)),
        },
    }
}

pub open spec fn resolved_stmt(scope: ScopeV, st: Resolving, stmt: StmtV<ParsedV>) -> Option<
    (StmtV<TypeId>, Resolving),
>
    decreases stmt, 0nat,
{
    match stmt {
        StmtV::Declare { var, expr, var_span, explicit_type } => match resolved_expr(
            scope,
            st,
            expr,
        ) {
            None => None,
            Some((expr, st1)) => match resolved_opt_type(scope, st1, explicit_type) {
                None => None,
                Some((explicit_type, st2)) => Some(
                    (StmtV::Declare { var, expr, var_span, explicit_type }, st2),
                ),
            },
        },
        StmtV::Assign { var, expr, var_span } => match resolved_target(scope, st, var) {
            None => None,
            Some((var, st1)) => match resolved_expr(scope, st1, expr) {
                None => None,
                Some((expr, st2)) => Some((StmtV::Assign { var, expr, var_span }, st2)),
            },
        },
        StmtV::If { guard, body } => match resolved_expr(scope, st, guard) {
            None => None,
            Some((guard, st1)) => match resolved_stmts(scope, st1, body, 0, Seq::empty()) {
                None => None,
                Some((body, st2)) => Some((StmtV::If { guard, body }, st2)),
            },
        },
        StmtV::Return(e) => match resolved_expr(scope, st, e) {
            None => None,
            Some((e, st1)) => Some((StmtV::Return(e), st1)),
        },
        StmtV::Expr(e) => match resolved_expr(scope, st, e) {
            None => None,
            Some((e, st1)) => Some((StmtV::Expr(e), st1)),
        },
        StmtV::WhileLoop { guard, body } => match resolved_expr(scope, st, guard) {
            None => None,
            Some((guard, st1)) => match resolved_stmts(scope, st1, body, 0, Seq::empty()) {
                None => None,
                Some((body, st2)) => Some((StmtV::WhileLoop { guard, body }, st2)),
            },
        },
    }
}

/// The statements from `i` on, behind those in `done`.
pub open spec fn resolved_stmts(
    scope: ScopeV,
    st: Resolving,
    stmts: Seq<StmtV<ParsedV>>,
    i: nat,
    done: Seq<StmtV<TypeId>>,
) -> Option<(Seq<StmtV<TypeId>>, Resolving)>
    decreases stmts, stmts.len() - i,
{
    if i >= stmts.len() {
        Some((done, st))
    } else {
        match resolved_stmt(scope, st, stmts[i as int]) {
            None => None,
            Some((x, st1)) => resolved_stmts(scope, st1, stmts, i + 1, done.push(x)),
        }
    }
}

/// The arguments or fields from `i` on, behind those in `done`.
pub open spec fn resolved_bindings(
    scope: ScopeV,
    st: Resolving,
    bindings: Seq<(Seq<char>, ParsedV, Span)>,
    i: nat,
    done: Seq<(Seq<char>, TypeId, Span)>,
) -> Option<(Seq<(Seq<char>, TypeId, Span)>, Resolving)>
    decreases bindings.len() - i,
{
    if i >= bindings.len() {
        Some((done, st))
    } else {
        let b = bindings[i as int];
        match resolved_type(scope, st, b.1.0, b.1.1) {
            None => None,
            Some((id, st1)) => resolved_bindings(
                scope,
                st1,
                bindings,
                i + 1,
                done.push((b.0, id, b.2)),
            ),
        }
    }
}

/// A function: first its arguments, then its body, then its type.
pub open spec fn resolved_def(scope: ScopeV, st: Resolving, def: FnDefV<ParsedV>) -> Option<
    (FnDefV<TypeId>, Resolving),
> {
    match resolved_bindings(scope, st, def.args, 0, Seq::empty()) {
        None => None,
        Some((args, st1)) => match resolved_stmts(scope, st1, def.body, 0, Seq::empty()) {
            None => None,
            Some((body, st2)) => match resolved_type(scope, st2, def.ret_type.0, def.ret_type.1) {
                None => None,
                Some((ret_type, st3)) => Some(
                    (
                        FnDefV { name: def.name, args, body, decl_span: def.decl_span, ret_type },
                        st3,
                    ),
                ),
            },
        },
    }
}

/// The functions from `i` on, behind those in `done`.
pub open spec fn resolved_defs(
    scope: ScopeV,
    st: Resolving,
    defs: Seq<FnDefV<ParsedV>>,
    i: nat,
    done: Seq<FnDefV<TypeId>>,
) -> Option<(Seq<FnDefV<TypeId>>, Resolving)>
    decreases defs.len() - i,
{
    if i >= defs.len() {
        Some((done, st))
    } else {
        match resolved_def(scope, st, defs[i as int]) {
            None => None,
            Some((x, st1)) => resolved_defs(scope, st1, defs, i + 1, done.push(x)),
        }
    }
}

/// An item. Libraries cannot be resolved.
pub open spec fn resolved_item(scope: ScopeV, st: Resolving, item: ItemV<ParsedV>) -> Option<
    (ItemV<TypeId>, Resolving),
> {
    match item {
        ItemV::Function(def) => match resolved_def(scope, st, def) {
            None => None,
            Some((def, st1)) => Some((ItemV::Function(def), st1)),
        },
        ItemV::ForwardDecl { name, args, ret_type, decl_span } => match resolved_bindings(
            scope,
            st,
            args,
            0,
            Seq::empty(),
        ) {
            None => None,
            Some((args, st1)) => match resolved_type(scope, st1, ret_type.0, ret_type.1) {
                None => None,
                Some((ret_type, st2)) => Some(
                    (ItemV::ForwardDecl { name, args, ret_type, decl_span }, st2),
                ),
            },
        },
        ItemV::ExternLib(_) => None,
        ItemV::MemorySegment { name, typ } => match resolved_type(scope, st, typ.0, typ.1) {
            None => None,
            Some((typ, st1)) => Some((ItemV::MemorySegment { name, typ }, st1)),
        },
        ItemV::Struct { name, decl_span, fields } => match resolved_bindings(
            scope,
            st,
            fields,
            0,
            Seq::empty(),
        ) {
            None => None,
            Some((fields, st1)) => Some((ItemV::Struct { name, decl_span, fields }, st1)),
        },
        ItemV::Impl { struct_name, functions } => match resolved_defs(
            scope,
            st,
            functions,
            0,
            Seq::empty(),
        ) {
            None => None,
            Some((functions, st1)) => Some((ItemV::Impl { struct_name, functions }, st1)),
        },
    }
}

/// The items from `i` on, behind those in `done`.
pub open spec fn resolved_items(
    scope: ScopeV,
    st: Resolving,
    items: Seq<ItemV<ParsedV>>,
    i: nat,
    done: Seq<ItemV<TypeId>>,
) -> Option<(Seq<ItemV<TypeId>>, Resolving)>
    decreases items.len() - i,
{
    if i >= items.len() {
        Some((done, st))
    } else {
        match resolved_item(scope, st, items[i as int]) {
            None => None,
            Some((x, st1)) => resolved_items(scope, st1, items, i + 1, done.push(x)),
        }
    }
}

/// Reports the imports from `i` on that name neither a type nor a function.
pub open spec fn checked_imports(scope: ScopeV, st: Resolving, i: nat) -> Resolving
    decreases scope.imports.len() - i,
{
    if i >= scope.imports.len() {
        st
    } else {
        let (path, span) = scope.imports[i as int];
        let st1 = if scope.known_types.contains(types::struct_id(path).0)
            || scope.known_fns.contains(types::path_hash(path)) {
            st
        } else {
            st.reported(ErrorV::simple(span, "unknown import"@, "could not find item"@))
        };
        checked_imports(scope, st1, i + 1)
    }
}

/// The hashes of the declared types and functions.
#[verifier::ext_equal]
pub struct KnownV {
    pub types: Set<u64>,
    pub fns: Set<u64>,
}

/// The functions of an implementation, of which the first `n` are known besides `fns`.
pub open spec fn with_methods(
    fns: Set<u64>,
    struct_name: Seq<char>,
    defs: Seq<FnDefV<ParsedV>>,
    n: nat,
) -> Set<u64>
    decreases n,
{
    if n == 0 {
        fns
    } else {
        with_methods(fns, struct_name, defs, (n - 1) as nat).insert(
            types::path_hash(text::path_of(struct_name, defs[n - 1].name)),
        )
    }
}

pub open spec fn with_item(known: KnownV, item: ItemV<ParsedV>) -> KnownV {
    match item {
        ItemV::Struct { name, .. } => KnownV {
            types: known.types.insert(types::struct_id(name).0),
            ..known
        },
        ItemV::Function(def) => KnownV {
            fns: known.fns.insert(types::path_hash(def.name)),
            ..known
        },
        ItemV::ForwardDecl { name, .. } => KnownV {
            fns: known.fns.insert(types::path_hash(name)),
            ..known
        },
        ItemV::Impl { struct_name, functions } => KnownV {
            fns: with_methods(known.fns, struct_name, functions, functions.len()),
            ..known
        },
        _ => known,
    }
}

/// What is known when the first `n` of the items are, besides `known`.
pub open spec fn with_items(known: KnownV, items: Seq<ItemV<ParsedV>>, n: nat) -> KnownV
    decreases n,
{
    if n == 0 {
        known
    } else {
        with_item(with_items(known, items, (n - 1) as nat), items[n - 1])
    }
}

/// What the first `n` of the trees declare, besides `known`.
pub open spec fn with_trees(known: KnownV, trees: Seq<AstV<ParsedV>>, n: nat) -> KnownV
    decreases n,
{
    if n == 0 {
        known
    } else {
        let items = trees[n - 1].items;
        with_items(with_trees(known, trees, (n - 1) as nat), items, items.len())
    }
}

/// The trees from `i` on, resolved one after the other; their items come behind those in `done`.
/// A tree without a path cannot be resolved.
pub open spec fn resolved_trees(
    known: KnownV,
    st: Resolving,
    trees: Seq<AstV<ParsedV>>,
    i: nat,
    done: Seq<ItemV<TypeId>>,
) -> Option<(Seq<ItemV<TypeId>>, Resolving)>
    decreases trees.len() - i,
{
    if i >= trees.len() {
        Some((done, st))
    } else {
        let tree = trees[i as int];
        match tree.mangled_path {
            None => None,
            Some(path) => {
                let scope = ScopeV {
                    path,
                    imports: tree.imports,
                    known_types: known.types,
                    known_fns: known.fns,
                };
                match resolved_items(scope, checked_imports(scope, st, 0), tree.items, 0, done) {
                    None => None,
                    Some((done, st1)) => resolved_trees(known, st1, trees, i + 1, done),
                }
            },
        }
    }
}

/// A struct that is not laid out yet: its path and its fields.
pub type OpenStruct = (Seq<char>, Seq<(Seq<char>, TypeId, Span)>);

/// The structs among the first `n` items, by their number. Of two with one number the later counts.
pub open spec fn open_structs(items: Seq<ItemV<TypeId>>, n: nat) -> Map<u64, OpenStruct>
    decreases n,
{
    if n == 0 {
        Map::empty()
    } else {
        let before = open_structs(items, (n - 1) as nat);
        match items[n - 1] {
            ItemV::Struct { name, fields, .. } => before.insert(
                types::struct_id(name).0,
                (name, fields),
            ),
            _ => before,
        }
    }
}

pub open spec fn at_most(n: int, limit: int) -> int {
    if n < limit {
        n
    } else {
        limit
    }
}

/// How a field of `size` bytes is aligned: to its size, but to eight bytes at most.
pub open spec fn alignment(size: int) -> int {
    if size < 1 {
        1
    } else {
        at_most(size, 8)
    }
}

/// The first offset from `end` on at which a field of `size` bytes can stand.
pub open spec fn aligned(end: int, size: int) -> int {
    let over = end % alignment(size);
    if over > 0 {
        end + at_most(size, 8) - over
    } else {
        end
    }
}

/// Types and structs that are not laid out yet.
#[verifier::ext_equal]
pub struct Layouts {
    pub types: TypesV,
    pub open: Map<u64, OpenStruct>,
}

/// The size of a type, with the layout of all structs that it needs. `None` if a type on the way
/// is neither known nor an open struct, or if a struct holds itself or is too large.
pub open spec fn sized(l: Layouts, id: TypeId) -> Option<(Layouts, u64)>
    decreases l.open.dom().len(), 0nat,
{
    if l.types.contains_key(id.0) {
        Some((l, l.types[id.0].size))
    } else if !l.open.contains_key(id.0) || !l.open.dom().finite() {
        None
    } else {
        let (name, fields) = l.open[id.0];
        proof {
            assert(l.open.remove(id.0).dom() =~= l.open.dom().remove(id.0));
        }
        match placed(Layouts { open: l.open.remove(id.0), ..l }, fields, 0, 0, Seq::empty()) {
            None => None,
            Some((l1, size, fields)) => Some(
                (
                    Layouts {
                        types: l1.types.insert(
                            id.0,
                            TypeInfoV {
                                size,
                                kind: TypeKindV::Struct { qualifier: name, fields },
                            },
                        ),
                        ..l1
                    },
                    size,
                ),
            ),
        }
    }
}

/// The fields from `i` on, laid out behind those in `done`, which take up `size` bytes.
pub open spec fn placed(
    l: Layouts,
    fields: Seq<(Seq<char>, TypeId, Span)>,
    i: nat,
    size: u64,
    done: Seq<(Seq<char>, TypeId, u64, Span)>,
) -> Option<(Layouts, u64, Seq<(Seq<char>, TypeId, u64, Span)>)>
    decreases l.open.dom().len(), 1 + fields.len() - i,
{
    if i >= fields.len() {
        Some((l, size, done))
    } else {
        let (name, id, span) = fields[i as int];
        match sized(l, id) {
            None => None,
            Some((l1, field_size)) => {
                let offset = aligned(size as int, field_size as int);
                if offset + field_size > u64::MAX || l1.open.dom().len() > l.open.dom().len() {
                    None
                } else {
                    placed(
                        l1,
                        fields,
                        i + 1,
                        (offset + field_size) as u64,
                        done.push((name, id, offset as u64, span)),
                    )
                }
            },
        }
    }
}

/// Lays out the structs among the items from `i` on.
pub open spec fn all_sized(l: Layouts, items: Seq<ItemV<TypeId>>, i: nat) -> Option<Layouts>
    decreases items.len() - i,
{
    if i >= items.len() {
        Some(l)
    } else {
        match items[i as int] {
            ItemV::Struct { name, .. } => match sized(l, types::struct_id(name)) {
                None => None,
                Some((l1, _)) => all_sized(l1, items, i + 1),
            },
            _ => all_sized(l, items, i + 1),
        }
    }
}

/// The size of a primitive type.
pub open spec fn primitive_size(p: Primitive) -> u64 {
    match p {
        Primitive::Unit => 0,
        Primitive::U8 | Primitive::I8 | Primitive::Char | Primitive::Bool => 1,
        Primitive::U64 | Primitive::I64 => 8,
    }
}

/// What is known of a primitive type.
pub open spec fn primitive_info(p: Primitive) -> TypeInfoV {
    TypeInfoV { size: primitive_size(p), kind: TypeKindV::Primitive(p) }
}

pub open spec fn with_primitive(types: TypesV, p: Primitive) -> TypesV {
    types.insert(types::primitive_id(p).0, primitive_info(p))
}

/// The primitive types.
pub open spec fn primitives() -> TypesV {
    let t = with_primitive(TypesV::empty(), Primitive::Unit);
    let t = with_primitive(t, Primitive::U8);
    let t = with_primitive(t, Primitive::I8);
    let t = with_primitive(t, Primitive::Char);
    let t = with_primitive(t, Primitive::Bool);
    let t = with_primitive(t, Primitive::U64);
    with_primitive(t, Primitive::I64)
}

/// What resolving some trees gives: all items, what is known of their types, and the errors that
/// are reported. `None` where resolution ends.
pub open spec fn resolution(trees: Seq<AstV<ParsedV>>) -> Option<
    (AstV<TypeId>, TypesV, Seq<ErrorV>),
> {
    let known = with_trees(
        KnownV { types: primitives().dom(), fns: Set::empty() },
        trees,
        trees.len(),
    );
    let st = Resolving { types: primitives(), errs: Seq::empty() };
    match resolved_trees(known, st, trees, 0, Seq::empty()) {
        None => None,
        Some((items, st)) => match all_sized(
            Layouts { types: st.types, open: open_structs(items, items.len()) },
            items,
            0,
        ) {
            None => None,
            Some(l) => Some((AstV { items, ..AstV::<TypeId>::empty() }, l.types, st.errs)),
        },
    }
}

/// From `a` to `b` errors were only added, and so were types, all of them pointer types.
pub open spec fn grows(a: Resolving, b: Resolving) -> bool {
    &&& a.errs.is_prefix_of(b.errs)
    &&& forall|k: u64| #[trigger]
        a.types.contains_key(k) ==> b.types.contains_key(k) && b.types[k] == a.types[k]
    &&& forall|k: u64| #[trigger]
        b.types.contains_key(k) && !a.types.contains_key(k) ==> b.types[k].kind is Pointer
}

proof fn lemma_grows_trans(a: Resolving, b: Resolving, c: Resolving)
    requires
        grows(a, b),
        grows(b, c),
    ensures
        grows(a, c),
{
    assert forall|k: u64| #[trigger] c.types.contains_key(k) && !a.types.contains_key(k) implies c.types[k].kind is Pointer by {
        if b.types.contains_key(k) {
        }
    }
}

/// Resolving a type adds errors and pointer types only.
pub proof fn law_resolved_type_grows(scope: ScopeV, st: Resolving, typ: ParsedTypeV, span: Span)
    ensures
        resolved_type(scope, st, typ, span) matches Some((_, st1)) ==> grows(st, st1),
    decreases typ,
{
    match typ {
        ParsedTypeV::Pointer(value) => {
            law_resolved_type_grows(scope, st, *value, span);
        },
        _ => {},
    }
}

proof fn lemma_opt_type(scope: ScopeV, st: Resolving, typ: Option<ParsedV>)
    ensures
        resolved_opt_type(scope, st, typ) matches Some((_, st1)) ==> grows(st, st1),
{
    if let Some(t) = typ {
        law_resolved_type_grows(scope, st, t.0, t.1);
    }
}

/// Resolving an expression adds errors and pointer types only.
pub proof fn law_resolved_expr_grows(scope: ScopeV, st: Resolving, expr: ExprV<ParsedV>)
    ensures
        resolved_expr(scope, st, expr) matches Some((_, st1)) ==> grows(st, st1),
    decreases expr, 0nat,
{
    lemma_opt_type(scope, st, expr.typ);
    if let Some((typ, st1)) = resolved_opt_type(scope, st, expr.typ) {
        lemma_inner(scope, st1, expr.inner);
        if let Some((_, st2)) = resolved_inner(scope, st1, expr.inner) {
            lemma_grows_trans(st, st1, st2);
        }
    }
}

proof fn lemma_inner(scope: ScopeV, st: Resolving, inner: ExprInnerV<ParsedV>)
    ensures
        resolved_inner(scope, st, inner) matches Some((_, st1)) ==> grows(st, st1),
    decreases inner, 0nat,
{
    match inner {
        ExprInnerV::Arithmetic(a, b, _, _) => {
            law_resolved_expr_grows(scope, st, *a);
            if let Some((_, st1)) = resolved_expr(scope, st, *a) {
                law_resolved_expr_grows(scope, st1, *b);
                if let Some((_, st2)) = resolved_expr(scope, st1, *b) {
                    lemma_grows_trans(st, st1, st2);
                }
            }
        },
        ExprInnerV::Comparison(a, b, _, _) => {
            law_resolved_expr_grows(scope, st, *a);
            if let Some((_, st1)) = resolved_expr(scope, st, *a) {
                law_resolved_expr_grows(scope, st1, *b);
                if let Some((_, st2)) = resolved_expr(scope, st1, *b) {
                    lemma_grows_trans(st, st1, st2);
                }
            }
        },
        ExprInnerV::Logical(a, b, _) => {
            law_resolved_expr_grows(scope, st, *a);
            if let Some((_, st1)) = resolved_expr(scope, st, *a) {
                law_resolved_expr_grows(scope, st1, *b);
                if let Some((_, st2)) = resolved_expr(scope, st1, *b) {
                    lemma_grows_trans(st, st1, st2);
                }
            }
        },
        ExprInnerV::Not(a) => {
            law_resolved_expr_grows(scope, st, *a);
        },
        ExprInnerV::Negate(a) => {
            law_resolved_expr_grows(scope, st, *a);
        },
        ExprInnerV::Cast(a, t) => {
            law_resolved_expr_grows(scope, st, *a);
            if let Some((_, st1)) = resolved_expr(scope, st, *a) {
                law_resolved_type_grows(scope, st1, t.0, t.1);
                if let Some((_, st2)) = resolved_type(scope, st1, t.0, t.1) {
                    lemma_grows_trans(st, st1, st2);
                }
            }
        },
        ExprInnerV::Index { data, index, .. } => {
            law_resolved_expr_grows(scope, st, *data);
            if let Some((_, st1)) = resolved_expr(scope, st, *data) {
                law_resolved_expr_grows(scope, st1, *index);
                if let Some((_, st2)) = resolved_expr(scope, st1, *index) {
                    lemma_grows_trans(st, st1, st2);
                }
            }
        },
        ExprInnerV::MemberAccess(a, _, _) => {
            law_resolved_expr_grows(scope, st, *a);
        },
        ExprInnerV::FnCall(f, args) => {
            lemma_fn(scope, st, f);
            if let Some((_, st1)) = resolved_fn(scope, st, f) {
                lemma_exprs(scope, st1, args, 0, Seq::empty());
                if let Some((_, st2)) = resolved_exprs(scope, st1, args, 0, Seq::empty()) {
                    lemma_grows_trans(st, st1, st2);
                }
            }
        },
        ExprInnerV::Construct { typ, fields } => {
            law_resolved_type_grows(scope, st, typ.0, typ.1);
            if let Some((_, st1)) = resolved_type(scope, st, typ.0, typ.1) {
                lemma_fields(scope, st1, fields, 0, Seq::empty());
                if let Some((_, st2)) = resolved_fields(scope, st1, fields, 0, Seq::empty()) {
                    lemma_grows_trans(st, st1, st2);
                }
            }
        },
        ExprInnerV::SizeOf(t) => {
            law_resolved_type_grows(scope, st, t.0, t.1);
        },
        _ => {},
    }
}

proof fn lemma_fn(scope: ScopeV, st: Resolving, f: FnPtrV<ParsedV>)
    ensures
        resolved_fn(scope, st, f) matches Some((_, st1)) ==> grows(st, st1),
    decreases f, 0nat,
{
    if let FnPtrV::Expr(e) = f {
        law_resolved_expr_grows(scope, st, *e);
    }
}

proof fn lemma_exprs(
    scope: ScopeV,
    st: Resolving,
    exprs: Seq<ExprV<ParsedV>>,
    i: nat,
    done: Seq<ExprV<TypeId>>,
)
    ensures
        resolved_exprs(scope, st, exprs, i, done) matches Some((_, st1)) ==> grows(st, st1),
    decreases exprs, exprs.len() - i,
{
    if i < exprs.len() {
        law_resolved_expr_grows(scope, st, exprs[i as int]);
        if let Some((x, st1)) = resolved_expr(scope, st, exprs[i as int]) {
            lemma_exprs(scope, st1, exprs, i + 1, done.push(x));
            if let Some((_, st2)) = resolved_exprs(scope, st1, exprs, i + 1, done.push(x)) {
                lemma_grows_trans(st, st1, st2);
            }
        }
    }
}

proof fn lemma_fields(
    scope: ScopeV,
    st: Resolving,
    fields: Seq<(Seq<char>, ExprV<ParsedV>)>,
    i: nat,
    done: Seq<(Seq<char>, ExprV<TypeId>)>,
)
    ensures
        resolved_fields(scope, st, fields, i, done) matches Some((_, st1)) ==> grows(st, st1),
    decreases fields, fields.len() - i,
{
    if i < fields.len() {
        let (name, e) = fields[i as int];
        law_resolved_expr_grows(scope, st, fields[i as int].1);
        if let Some((x, st1)) = resolved_expr(scope, st, fields[i as int].1) {
            lemma_fields(scope, st1, fields, i + 1, done.push((name, x)));
            if let Some((_, st2)) = resolved_fields(scope, st1, fields, i + 1, done.push((name, x))) {
                lemma_grows_trans(st, st1, st2);
            }
        }
    }
}

proof fn lemma_target(scope: ScopeV, st: Resolving, var: AssignableV<ParsedV>)
    ensures
        resolved_target(scope, st, var) matches Some((_, st1)) ==> grows(st, st1),
{
    match var {
        AssignableV::Index { data, index, .. } => {
            law_resolved_expr_grows(scope, st, data);
            if let Some((_, st1)) = resolved_expr(scope, st, data) {
                law_resolved_expr_grows(scope, st1, index);
                if let Some((_, st2)) = resolved_expr(scope, st1, index) {
                    lemma_grows_trans(st, st1, st2);
                }
            }
        },
        AssignableV::MemberAccess(a, _) => {
            law_resolved_expr_grows(scope, st, a);
        },
        _ => {},
    }
}

proof fn lemma_stmt(scope: ScopeV, st: Resolving, stmt: StmtV<ParsedV>)
    ensures
        resolved_stmt(scope, st, stmt) matches Some((_, st1)) ==> grows(st, st1),
    decreases stmt, 0nat,
{
    match stmt {
        StmtV::Declare { expr, explicit_type, .. } => {
            law_resolved_expr_grows(scope, st, expr);
            if let Some((_, st1)) = resolved_expr(scope, st, expr) {
                lemma_opt_type(scope, st1, explicit_type);
                if let Some((_, st2)) = resolved_opt_type(scope, st1, explicit_type) {
                    lemma_grows_trans(st, st1, st2);
                }
            }
        },
        StmtV::Assign { var, expr, .. } => {
            lemma_target(scope, st, var);
            if let Some((_, st1)) = resolved_target(scope, st, var) {
                law_resolved_expr_grows(scope, st1, expr);
                if let Some((_, st2)) = resolved_expr(scope, st1, expr) {
                    lemma_grows_trans(st, st1, st2);
                }
            }
        },
        StmtV::If { guard, body } => {
            law_resolved_expr_grows(scope, st, guard);
            if let Some((_, st1)) = resolved_expr(scope, st, guard) {
                lemma_stmts(scope, st1, body, 0, Seq::empty());
                if let Some((_, st2)) = resolved_stmts(scope, st1, body, 0, Seq::empty()) {
                    lemma_grows_trans(st, st1, st2);
                }
            }
        },
        StmtV::Return(e) => {
            law_resolved_expr_grows(scope, st, e);
        },
        StmtV::Expr(e) => {
            law_resolved_expr_grows(scope, st, e);
        },
        StmtV::WhileLoop { guard, body } => {
            law_resolved_expr_grows(scope, st, guard);
            if let Some((_, st1)) = resolved_expr(scope, st, guard) {
                lemma_stmts(scope, st1, body, 0, Seq::empty());
                if let Some((_, st2)) = resolved_stmts(scope, st1, body, 0, Seq::empty()) {
                    lemma_grows_trans(st, st1, st2);
                }
            }
        },
    }
}

proof fn lemma_stmts(
    scope: ScopeV,
    st: Resolving,
    stmts: Seq<StmtV<ParsedV>>,
    i: nat,
    done: Seq<StmtV<TypeId>>,
)
    ensures
        resolved_stmts(scope, st, stmts, i, done) matches Some((_, st1)) ==> grows(st, st1),
    decreases stmts, stmts.len() - i,
{
    if i < stmts.len() {
        lemma_stmt(scope, st, stmts[i as int]);
        if let Some((x, st1)) = resolved_stmt(scope, st, stmts[i as int]) {
            lemma_stmts(scope, st1, stmts, i + 1, done.push(x));
            if let Some((_, st2)) = resolved_stmts(scope, st1, stmts, i + 1, done.push(x)) {
                lemma_grows_trans(st, st1, st2);
            }
        }
    }
}

proof fn lemma_bindings(
    scope: ScopeV,
    st: Resolving,
    bindings: Seq<(Seq<char>, ParsedV, Span)>,
    i: nat,
    done: Seq<(Seq<char>, TypeId, Span)>,
)
    ensures
        resolved_bindings(scope, st, bindings, i, done) matches Some((_, st1)) ==> grows(st, st1),
    decreases bindings.len() - i,
{
    if i < bindings.len() {
        let (name, typ, span) = bindings[i as int];
        law_resolved_type_grows(scope, st, typ.0, typ.1);
        if let Some((x, st1)) = resolved_type(scope, st, typ.0, typ.1) {
            lemma_bindings(scope, st1, bindings, i + 1, done.push((name, x, span)));
            if let Some((_, st2)) = resolved_bindings(
                scope,
                st1,
                bindings,
                i + 1,
                done.push((name, x, span)),
            ) {
                lemma_grows_trans(st, st1, st2);
            }
        }
    }
}

proof fn lemma_def(scope: ScopeV, st: Resolving, def: FnDefV<ParsedV>)
    ensures
        resolved_def(scope, st, def) matches Some((_, st1)) ==> grows(st, st1),
{
    lemma_bindings(scope, st, def.args, 0, Seq::empty());
    if let Some((_, st1)) = resolved_bindings(scope, st, def.args, 0, Seq::empty()) {
        lemma_stmts(scope, st1, def.body, 0, Seq::empty());
        if let Some((_, st2)) = resolved_stmts(scope, st1, def.body, 0, Seq::empty()) {
            lemma_grows_trans(st, st1, st2);
            law_resolved_type_grows(scope, st2, def.ret_type.0, def.ret_type.1);
            if let Some((_, st3)) = resolved_type(scope, st2, def.ret_type.0, def.ret_type.1) {
                lemma_grows_trans(st, st2, st3);
            }
        }
    }
}

proof fn lemma_defs(
    scope: ScopeV,
    st: Resolving,
    defs: Seq<FnDefV<ParsedV>>,
    i: nat,
    done: Seq<FnDefV<TypeId>>,
)
    ensures
        resolved_defs(scope, st, defs, i, done) matches Some((_, st1)) ==> grows(st, st1),
    decreases defs.len() - i,
{
    if i < defs.len() {
        lemma_def(scope, st, defs[i as int]);
        if let Some((x, st1)) = resolved_def(scope, st, defs[i as int]) {
            lemma_defs(scope, st1, defs, i + 1, done.push(x));
            if let Some((_, st2)) = resolved_defs(scope, st1, defs, i + 1, done.push(x)) {
                lemma_grows_trans(st, st1, st2);
            }
        }
    }
}

proof fn lemma_item(scope: ScopeV, st: Resolving, item: ItemV<ParsedV>)
    ensures
        resolved_item(scope, st, item) matches Some((_, st1)) ==> grows(st, st1),
{
    match item {
        ItemV::Function(def) => {
            lemma_def(scope, st, def);
        },
        ItemV::ForwardDecl { args, ret_type, .. } => {
            lemma_bindings(scope, st, args, 0, Seq::empty());
            if let Some((_, st1)) = resolved_bindings(scope, st, args, 0, Seq::empty()) {
                law_resolved_type_grows(scope, st1, ret_type.0, ret_type.1);
                if let Some((_, st2)) = resolved_type(scope, st1, ret_type.0, ret_type.1) {
                    lemma_grows_trans(st, st1, st2);
                }
            }
        },
        ItemV::ExternLib(_) => {},
        ItemV::MemorySegment { typ, .. } => {
            law_resolved_type_grows(scope, st, typ.0, typ.1);
        },
        ItemV::Struct { fields, .. } => {
            lemma_bindings(scope, st, fields, 0, Seq::empty());
        },
        ItemV::Impl { functions, .. } => {
            lemma_defs(scope, st, functions, 0, Seq::empty());
        },
    }
}

proof fn lemma_items(
    scope: ScopeV,
    st: Resolving,
    items: Seq<ItemV<ParsedV>>,
    i: nat,
    done: Seq<ItemV<TypeId>>,
)
    ensures
        resolved_items(scope, st, items, i, done) matches Some((_, st1)) ==> grows(st, st1),
    decreases items.len() - i,
{
    if i < items.len() {
        lemma_item(scope, st, items[i as int]);
        if let Some((x, st1)) = resolved_item(scope, st, items[i as int]) {
            lemma_items(scope, st1, items, i + 1, done.push(x));
            if let Some((_, st2)) = resolved_items(scope, st1, items, i + 1, done.push(x)) {
                lemma_grows_trans(st, st1, st2);
            }
        }
    }
}

proof fn lemma_imports(scope: ScopeV, st: Resolving, i: nat)
    ensures
        grows(st, checked_imports(scope, st, i)),
    decreases scope.imports.len() - i,
{
    if i < scope.imports.len() {
        let (path, span) = scope.imports[i as int];
        let st1 = if scope.known_types.contains(types::struct_id(path).0)
            || scope.known_fns.contains(types::path_hash(path)) {
            st
        } else {
            st.reported(ErrorV::simple(span, "unknown import"@, "could not find item"@))
        };
        lemma_imports(scope, st1, i + 1);
        lemma_grows_trans(st, st1, checked_imports(scope, st1, i + 1));
    }
}

/// Resolving trees adds errors and pointer types only.
pub proof fn law_resolved_trees_grow(
    known: KnownV,
    st: Resolving,
    trees: Seq<AstV<ParsedV>>,
    i: nat,
    done: Seq<ItemV<TypeId>>,
)
    ensures
        resolved_trees(known, st, trees, i, done) matches Some((_, st1)) ==> grows(st, st1),
    decreases trees.len() - i,
{
    if i < trees.len() && trees[i as int].mangled_path is Some {
        let tree = trees[i as int];
        let scope = ScopeV {
            path: tree.mangled_path->0,
            imports: tree.imports,
            known_types: known.types,
            known_fns: known.fns,
        };
        let st1 = checked_imports(scope, st, 0);
        lemma_imports(scope, st, 0);
        lemma_items(scope, st1, tree.items, 0, done);
        if let Some((done, st2)) = resolved_items(scope, st1, tree.items, 0, done) {
            lemma_grows_trans(st, st1, st2);
            law_resolved_trees_grow(known, st2, trees, i + 1, done);
            if let Some((_, st3)) = resolved_trees(known, st2, trees, i + 1, done) {
                lemma_grows_trans(st, st2, st3);
            }
        }
    }
}

/// The fields of a struct of `size` bytes lie one behind the other, aligned, and inside it.
pub open spec fn well_placed(
    types: TypesV,
    fields: Seq<(Seq<char>, TypeId, u64, Span)>,
    size: int,
) -> bool {
    &&& forall|i: int|
        0 <= i < fields.len() ==> types.contains_key((#[trigger] fields[i]).1.0) && (
        fields[i].2 as int) % alignment(types[fields[i].1.0].size as int) == 0 && fields[i].2
            + types[fields[i].1.0].size <= size
    &&& forall|i: int, j: int|
        0 <= i < j < fields.len() ==> (#[trigger] fields[i]).2 + types[fields[i].1.0].size <= (
        #[trigger] fields[j]).2
}

/// All structs are laid out well.
pub open spec fn all_well_placed(types: TypesV) -> bool {
    forall|k: u64| #[trigger]
        types.contains_key(k) ==> match types[k].kind {
            TypeKindV::Struct { fields, .. } => well_placed(types, fields, types[k].size as int),
            _ => true,
        }
}

/// What was known in `a` is known unchanged in `b`.
pub open spec fn keeps(a: TypesV, b: TypesV) -> bool {
    forall|k: u64| #[trigger] a.contains_key(k) ==> b.contains_key(k) && b[k] == a[k]
}

proof fn lemma_aligned(end: int, size: int)
    requires
        0 <= end,
        0 <= size,
    ensures
        aligned(end, size) >= end,
        aligned(end, size) % alignment(size) == 0,
{
    let a = alignment(size);
    let over = end % a;
    if over > 0 {
        assert(at_most(size, 8) == a);
        vstd::arithmetic::div_mod::lemma_fundamental_div_mod(end, a);
        assert(end + a - over == a * (end / a) + a);
        assert(a * (end / a) + a == a * (end / a + 1)) by (nonlinear_arith);
        vstd::arithmetic::div_mod::lemma_mod_multiples_basic(end / a + 1, a);
        assert((end / a + 1) * a == a * (end / a + 1)) by (nonlinear_arith);
    }
}

/// Laying out a type keeps what is known, lays out every struct well, adds no type that was not
/// an open struct, and leaves the rest of the open structs as they are.
pub proof fn law_sized(l: Layouts, id: TypeId)
    requires
        l.open.dom().finite(),
        all_well_placed(l.types),
    ensures
        sized(l, id) matches Some((l1, size)) ==> {
            &&& keeps(l.types, l1.types)
            &&& all_well_placed(l1.types)
            &&& l1.types.contains_key(id.0) && l1.types[id.0].size == size
            &&& l1.open.dom().subset_of(l.open.dom()) && l1.open.dom().finite()
            &&& forall|k: u64| #[trigger]
                l1.types.contains_key(k) ==> l.types.contains_key(k) || l.open.contains_key(k)
        },
    decreases l.open.dom().len(), 0nat,
{
    if !l.types.contains_key(id.0) && l.open.contains_key(id.0) {
        let (name, fields) = l.open[id.0];
        let l0 = Layouts { open: l.open.remove(id.0), ..l };
        assert(l0.open.dom() =~= l.open.dom().remove(id.0));
        lemma_placed(l0, fields, 0, 0, Seq::empty());
        if let Some((l1, size, laid)) = placed(l0, fields, 0, 0, Seq::empty()) {
            let info = TypeInfoV {
                size,
                kind: TypeKindV::Struct { qualifier: name, fields: laid },
            };
            let t2 = l1.types.insert(id.0, info);
            assert(!l1.types.contains_key(id.0));
            assert forall|k: u64| #[trigger] t2.contains_key(k) implies match t2[k].kind {
                TypeKindV::Struct { fields, .. } => well_placed(t2, fields, t2[k].size as int),
                _ => true,
            } by {
                if k != id.0 {
                    assert(l1.types.contains_key(k));
                }
            }
        }
    }
}

proof fn lemma_placed(
    l: Layouts,
    fields: Seq<(Seq<char>, TypeId, Span)>,
    i: nat,
    size: u64,
    done: Seq<(Seq<char>, TypeId, u64, Span)>,
)
    requires
        l.open.dom().finite(),
        all_well_placed(l.types),
        well_placed(l.types, done, size as int),
    ensures
        placed(l, fields, i, size, done) matches Some((l1, size1, laid)) ==> {
            &&& keeps(l.types, l1.types)
            &&& all_well_placed(l1.types)
            &&& well_placed(l1.types, laid, size1 as int)
            &&& l1.open.dom().subset_of(l.open.dom()) && l1.open.dom().finite()
            &&& forall|k: u64| #[trigger]
                l1.types.contains_key(k) ==> l.types.contains_key(k) || l.open.contains_key(k)
        },
    decreases l.open.dom().len(), 1 + fields.len() - i,
{
    if i < fields.len() {
        let (name, id, span) = fields[i as int];
        law_sized(l, id);
        if let Some((l1, field_size)) = sized(l, id) {
            let offset = aligned(size as int, field_size as int);
            lemma_aligned(size as int, field_size as int);
            vstd::set_lib::lemma_len_subset(l1.open.dom(), l.open.dom());
            if offset + field_size <= u64::MAX {
                let done1 = done.push((name, id, offset as u64, span));
                assert(well_placed(l1.types, done, size as int));
                assert(well_placed(l1.types, done1, offset + field_size));
                lemma_placed(l1, fields, i + 1, (offset + field_size) as u64, done1);
            }
        }
    }
}

proof fn lemma_all_sized(l: Layouts, items: Seq<ItemV<TypeId>>, i: nat)
    requires
        l.open.dom().finite(),
        all_well_placed(l.types),
    ensures
        all_sized(l, items, i) matches Some(l1) ==> keeps(l.types, l1.types) && all_well_placed(
            l1.types,
        ),
    decreases items.len() - i,
{
    if i < items.len() {
        if let ItemV::Struct { name, .. } = items[i as int] {
            law_sized(l, types::struct_id(name));
            if let Some((l1, _)) = sized(l, types::struct_id(name)) {
                lemma_all_sized(l1, items, i + 1);
            }
        } else {
            lemma_all_sized(l, items, i + 1);
        }
    }
}

proof fn lemma_open_finite(items: Seq<ItemV<TypeId>>, n: nat)
    ensures
        open_structs(items, n).dom().finite(),
    decreases n,
{
    if n > 0 {
        lemma_open_finite(items, (n - 1) as nat);
    }
}

/// In the types of a resolved program every struct is laid out well: its fields are aligned, do
/// not overlap and lie inside it.
pub proof fn law_struct_layout(trees: Seq<AstV<ParsedV>>)
    ensures
        resolution(trees) matches Some((_, types, _)) ==> all_well_placed(types),
{
    let known = with_trees(
        KnownV { types: primitives().dom(), fns: Set::empty() },
        trees,
        trees.len(),
    );
    let st = Resolving { types: primitives(), errs: Seq::empty() };
    law_resolved_trees_grow(known, st, trees, 0, Seq::empty());
    if let Some((items, st1)) = resolved_trees(known, st, trees, 0, Seq::empty()) {
        assert(all_well_placed(st.types));
        assert(all_well_placed(st1.types));
        lemma_open_finite(items, items.len());
        lemma_all_sized(
            Layouts { types: st1.types, open: open_structs(items, items.len()) },
            items,
            0,
        );
    }
}

/// The primitive types are known, each for itself: none takes the place of another.
pub proof fn law_primitives(p: Primitive)
    ensures
        primitives().contains_key(types::primitive_id(p).0),
        primitives()[types::primitive_id(p).0] == primitive_info(p),
{
    types::law_primitive_ids(p, Primitive::Unit);
    types::law_primitive_ids(p, Primitive::U8);
    types::law_primitive_ids(p, Primitive::I8);
    types::law_primitive_ids(p, Primitive::Char);
    types::law_primitive_ids(p, Primitive::Bool);
    types::law_primitive_ids(p, Primitive::U64);
    types::law_primitive_ids(p, Primitive::I64);
}

/// In the types of a resolved program every primitive type is known, and no type of the program has
/// taken its place.
pub proof fn law_primitives_stay(trees: Seq<AstV<ParsedV>>, p: Primitive)
    ensures
        resolution(trees) matches Some((_, types, _)) ==> types.contains_key(
            types::primitive_id(p).0,
        ) && types[types::primitive_id(p).0] == primitive_info(p),
{
    law_primitives(p);
    let known = with_trees(
        KnownV { types: primitives().dom(), fns: Set::empty() },
        trees,
        trees.len(),
    );
    let st = Resolving { types: primitives(), errs: Seq::empty() };
    law_resolved_trees_grow(known, st, trees, 0, Seq::empty());
    if let Some((items, st1)) = resolved_trees(known, st, trees, 0, Seq::empty()) {
        lemma_open_finite(items, items.len());
        assert(all_well_placed(st.types));
        assert(all_well_placed(st1.types));
        lemma_all_sized(
            Layouts { types: st1.types, open: open_structs(items, items.len()) },
            items,
            0,
        );
    }
}

/// The module whose names are resolved: its path and its imports.
struct Scope<'a> {
    path: &'a str,
    imports: &'a Vec<(String, Span)>,
}

pub struct Resolver {
    types: TypeMap,
    known_typeids: HashSet<u64>,
    known_functions: HashSet<u64>,
    errs: ErrorContext,
}

/// What a call on `before` gave is what `out` says.
spec fn gives<X, A>(
    before: Resolver,
    after: Resolver,
    r: Option<X>,
    out: Option<(A, Resolving)>,
    value: spec_fn(X) -> A,
) -> bool {
    &&& after.known() == before.known()
    &&& match r {
        Some(x) => out == Some((value(x), after.st())),
        None => out is None,
    }
}

impl Resolver {
    pub closed spec fn st(self) -> Resolving {
        Resolving { types: self.types@, errs: self.errs@ }
    }

    pub closed spec fn known(self) -> KnownV {
        KnownV { types: self.known_typeids@, fns: self.known_functions@ }
    }

    spec fn scope(self, scope: Scope) -> ScopeV {
        ScopeV {
            path: scope.path@,
            imports: ast::path_views(scope.imports@),
            known_types: self.known_typeids@,
            known_fns: self.known_functions@,
        }
    }

    /// Knows the primitive types.
    pub fn new() -> (r: Resolver)
        ensures
            r.st() == (Resolving { types: primitives(), errs: Seq::empty() }),
            r.known() == (KnownV { types: primitives().dom(), fns: Set::empty() }),
    {
        let mut r = Resolver {
            types: TypeMap::new(),
            known_typeids: HashSet::new(),
            known_functions: HashSet::new(),
            errs: ErrorContext::new(),
        };
        proof {
            assert(r.known_typeids@ =~= r.types@.dom());
        }
        r.add_primitive(Primitive::Unit, 0);
        r.add_primitive(Primitive::U8, 1);
        r.add_primitive(Primitive::I8, 1);
        r.add_primitive(Primitive::Char, 1);
        r.add_primitive(Primitive::Bool, 1);
        r.add_primitive(Primitive::U64, 8);
        r.add_primitive(Primitive::I64, 8);
        r
    }

    fn add_primitive(&mut self, p: Primitive, size: u64)
        requires
            size == primitive_size(p),
            old(self).known().types == old(self).st().types.dom(),
        ensures
            final(self).st() == (Resolving {
                types: with_primitive(old(self).st().types, p),
                ..old(self).st()
            }),
            final(self).known() == (KnownV {
                types: final(self).st().types.dom(),
                fns: old(self).known().fns,
            }),
    {
        let id = TypeId::from_primitive(p);
        self.types.insert(id, TypeInfo { size, kind: TypeKind::Primitive(p) });
        self.known_typeids.insert(id.0);
        proof {
            assert(self.known_typeids@ =~= self.types@.dom());
        }
    }

    fn import_of<'a>(imports: &'a Vec<(String, Span)>, name: &str) -> (r: Option<
        (String, &'a String),
    >)
        ensures
            match r {
                Some((parent, import)) => import_of(ast::path_views(imports@), name@, 0) == Some(
                    (parent@, import@),
                ),
                None => import_of(ast::path_views(imports@), name@, 0) is None,
            },
    {
        let mut i: usize = 0;
        while i < imports.len()
            invariant
                i <= imports.len(),
                import_of(ast::path_views(imports@), name@, i as int) == import_of(
                    ast::path_views(imports@),
                    name@,
                    0,
                ),
            decreases imports.len() - i,
        {
            proof {
                assert(ast::path_views(imports@)[i as int].0 == imports@[i as int].0@);
            }
            if let Some((parent, last)) = text::path_split_last(imports[i].0.as_str()) {
                if text::str_eq(last.as_str(), name) {
                    return Some((parent, &imports[i].0));
                }
            }
            i = i + 1;
        }
        None
    }

    fn resolve_type(&mut self, scope: &Scope, typ: &ParsedType, span: Span) -> (r: Option<TypeId>)
        ensures
            gives(
                *old(self),
                *final(self),
                r,
                resolved_type(old(self).scope(*scope), old(self).st(), typ@, span),
                |t: TypeId| t,
            ),
        decreases typ,
    {
        match typ {
            ParsedType::Primitive(p) => Some(TypeId::from_primitive(*p)),
            ParsedType::Pointer(value) => {
                let value_typeid = self.resolve_type(scope, value, span)?;
                Some(self.types.ptr_type_to(value_typeid))
            },
            ParsedType::Struct(name) => {
                let local_path = text::join_path(scope.path, name.as_str());
                let local = TypeId::from_path(local_path.as_str());
                if self.known_typeids.contains(&local.0) {
                    return Some(local);
                }
                let absolute = TypeId::from_path(name.as_str());
                if self.known_typeids.contains(&absolute.0) {
                    return Some(absolute);
                }
                match Resolver::import_of(scope.imports, name.as_str()) {
                    Some((_, import)) => {
                        let import_typeid = TypeId::from_path(import.as_str());
                        if self.known_typeids.contains(&import_typeid.0) {
                            Some(import_typeid)
                        } else {
                            None
                        }
                    },
                    None => {
                        let message = text::join2("unknown type ", name.as_str());
                        self.errs.report(Error::simple(span, message.as_str(), "what is this?"));
                        Some(TypeId(0))
                    },
                }
            },
        }
    }

    fn resolve_opt_type(&mut self, scope: &Scope, typ: &Option<Parsed>) -> (r: Option<
        Option<TypeId>,
    >)
        ensures
            gives(
                *old(self),
                *final(self),
                r,
                resolved_opt_type(
                    old(self).scope(*scope),
                    old(self).st(),
                    ast::option_view(*typ),
                ),
                |t: Option<TypeId>| t,
            ),
    {
        match typ {
            None => Some(None),
            Some(t) => {
                let id = self.resolve_type(scope, &t.0, t.1)?;
                Some(Some(id))
            },
        }
    }

    fn resolve_function(&mut self, scope: &Scope, fnptr: &FnPtr<Parsed>) -> (r: Option<
        FnPtr<TypeId>,
    >)
        ensures
            gives(
                *old(self),
                *final(self),
                r,
                resolved_fn(old(self).scope(*scope), old(self).st(), fnptr.view()),
                |f: FnPtr<TypeId>| f.view(),
            ),
        decreases fnptr, 0nat,
    {
        match fnptr {
            FnPtr::Named(_) => None,
            FnPtr::Expr(e) => {
                let expr = self.expression(scope, e)?;
                match expr.inner {
                    ExprInner::Ident(path) => {
                        let local = text::join_path(scope.path, path.as_str());
                        if self.known_functions.contains(&types::hash_path(local.as_str())) {
                            return Some(FnPtr::Named(local));
                        }
                        if self.known_functions.contains(&types::hash_path(path.as_str())) {
                            return Some(FnPtr::Named(path));
                        }
                        let root = text::path_root(path.as_str());
                        if let Some((parent, _)) = Resolver::import_of(
                            scope.imports,
                            root.as_str(),
                        ) {
                            return Some(
                                FnPtr::Named(text::join_path(parent.as_str(), path.as_str())),
                            );
                        }
                        self.errs.report(
                            Error::simple(expr.span, "unknown function", "please find this..."),
                        );
                        Some(FnPtr::Named(path))
                    },
                    _ => Some(FnPtr::Expr(Box::new(expr))),
                }
            },
        }
    }

    fn expression(&mut self, scope: &Scope, expr: &Expression<Parsed>) -> (r: Option<
        Expression<TypeId>,
    >)
        ensures
            gives(
                *old(self),
                *final(self),
                r,
                resolved_expr(old(self).scope(*scope), old(self).st(), expr.view()),
                |e: Expression<TypeId>| e.view(),
            ),
        decreases expr, 0nat,
    {
        let typ = self.resolve_opt_type(scope, &expr.typ)?;
        let inner = self.expr_inner(scope, &expr.inner)?;
        Some(Expression { inner, typ, span: expr.span })
    }

    fn expr_inner(&mut self, scope: &Scope, inner: &ExprInner<Parsed>) -> (r: Option<
        ExprInner<TypeId>,
    >)
        ensures
            gives(
                *old(self),
                *final(self),
                r,
                resolved_inner(old(self).scope(*scope), old(self).st(), inner.view()),
                |e: ExprInner<TypeId>| e.view(),
            ),
        decreases inner, 0nat,
    {
        match inner {
            ExprInner::Const(n, p) => Some(ExprInner::Const(*n, *p)),
            ExprInner::Character(c) => Some(ExprInner::Character(*c)),
            ExprInner::String(s) => Some(ExprInner::String(s.clone())),
            ExprInner::Bool(b) => Some(ExprInner::Bool(*b)),
            ExprInner::Ident(s) => Some(ExprInner::Ident(s.clone())),
            ExprInner::Pointer(s) => Some(ExprInner::Pointer(s.clone())),
            ExprInner::Deref(s, _) => Some(ExprInner::Deref(s.clone(), None)),
            ExprInner::Arithmetic(a, b, op, sign) => {
                let x = self.expression(scope, a)?;
                let y = self.expression(scope, b)?;
                Some(ExprInner::Arithmetic(Box::new(x), Box::new(y), *op, *sign))
            },
            ExprInner::Comparison(a, b, op, sign) => {
                let x = self.expression(scope, a)?;
                let y = self.expression(scope, b)?;
                Some(ExprInner::Comparison(Box::new(x), Box::new(y), *op, *sign))
            },
            ExprInner::Logical(a, b, op) => {
                let x = self.expression(scope, a)?;
                let y = self.expression(scope, b)?;
                Some(ExprInner::Logical(Box::new(x), Box::new(y), *op))
            },
            ExprInner::Not(a) => {
                let x = self.expression(scope, a)?;
                Some(ExprInner::Not(Box::new(x)))
            },
            ExprInner::Negate(a) => {
                let x = self.expression(scope, a)?;
                Some(ExprInner::Negate(Box::new(x)))
            },
            ExprInner::Cast(a, t) => {
                let x = self.expression(scope, a)?;
                let id = self.resolve_type(scope, &t.0, t.1)?;
                Some(ExprInner::Cast(Box::new(x), id))
            },
            ExprInner::Index { data, index, val_size } => {
                let x = self.expression(scope, data)?;
                let y = self.expression(scope, index)?;
                Some(
                    ExprInner::Index { data: Box::new(x), index: Box::new(y), val_size: *val_size },
                )
            },
            ExprInner::MemberAccess(a, member, id) => {
                let x = self.expression(scope, a)?;
                Some(ExprInner::MemberAccess(Box::new(x), member.clone(), *id))
            },
            ExprInner::FnCall(f, args) => {
                let f = self.resolve_function(scope, f)?;
                proof {
                    assert(inner.view()->FnCall_1 =~= ast::expr_views(args@));
                }
                let xs = self.expressions(scope, args)?;
                let r = ExprInner::FnCall(f, xs);
                proof {
                    assert(r.view()->FnCall_1 =~= ast::expr_views(xs@));
                }
                Some(r)
            },
            ExprInner::Construct { typ, fields } => {
                let id = self.resolve_type(scope, &typ.0, typ.1)?;
                proof {
                    assert(inner.view()->fields =~= ast::field_views(fields@));
                }
                let xs = self.construct_fields(scope, fields)?;
                let r = ExprInner::Construct { typ: id, fields: xs };
                proof {
                    assert(r.view()->fields =~= ast::field_views(xs@));
                }
                Some(r)
            },
            ExprInner::SizeOf(t) => {
                let id = self.resolve_type(scope, &t.0, t.1)?;
                Some(ExprInner::SizeOf(id))
            },
        }
    }

    fn expressions(&mut self, scope: &Scope, exprs: &Vec<Expression<Parsed>>) -> (r: Option<
        Vec<Expression<TypeId>>,
    >)
        ensures
            gives(
                *old(self),
                *final(self),
                r,
                resolved_exprs(
                    old(self).scope(*scope),
                    old(self).st(),
                    ast::expr_views(exprs@),
                    0,
                    Seq::empty(),
                ),
                |v: Vec<Expression<TypeId>>| ast::expr_views(v@),
            ),
        decreases exprs, 0nat,
    {
        let mut done: Vec<Expression<TypeId>> = Vec::new();
        let mut i: usize = 0;
        proof {
            assert(ast::expr_views(done@) =~= Seq::empty());
        }
        while i < exprs.len()
            invariant
                i <= exprs.len(),
                self.known() == old(self).known(),
                resolved_exprs(
                    old(self).scope(*scope),
                    self.st(),
                    ast::expr_views(exprs@),
                    i as nat,
                    ast::expr_views(done@),
                ) == resolved_exprs(
                    old(self).scope(*scope),
                    old(self).st(),
                    ast::expr_views(exprs@),
                    0,
                    Seq::empty(),
                ),
            decreases exprs.len() - i,
        {
            let ghost before = ast::expr_views(done@);
            let x = self.expression(scope, &exprs[i])?;
            done.push(x);
            proof {
                assert(ast::expr_views(done@) =~= before.push(x.view()));
            }
            i = i + 1;
        }
        Some(done)
    }

    fn construct_fields(
        &mut self,
        scope: &Scope,
        fields: &Vec<(String, Expression<Parsed>)>,
    ) -> (r: Option<Vec<(String, Expression<TypeId>)>>)
        ensures
            gives(
                *old(self),
                *final(self),
                r,
                resolved_fields(
                    old(self).scope(*scope),
                    old(self).st(),
                    ast::field_views(fields@),
                    0,
                    Seq::empty(),
                ),
                |v: Vec<(String, Expression<TypeId>)>| ast::field_views(v@),
            ),
        decreases fields, 0nat,
    {
        let mut done: Vec<(String, Expression<TypeId>)> = Vec::new();
        let mut i: usize = 0;
        proof {
            assert(ast::field_views(done@) =~= Seq::empty());
        }
        while i < fields.len()
            invariant
                i <= fields.len(),
                self.known() == old(self).known(),
                resolved_fields(
                    old(self).scope(*scope),
                    self.st(),
                    ast::field_views(fields@),
                    i as nat,
                    ast::field_views(done@),
                ) == resolved_fields(
                    old(self).scope(*scope),
                    old(self).st(),
                    ast::field_views(fields@),
                    0,
                    Seq::empty(),
                ),
            decreases fields.len() - i,
        {
            let ghost before = ast::field_views(done@);
            let x = self.expression(scope, &fields[i].1)?;
            done.push((fields[i].0.clone(), x));
            proof {
                assert(ast::field_views(done@) =~= before.push((fields@[i as int].0@, x.view())));
            }
            i = i + 1;
        }
        Some(done)
    }

    fn var_assign(&mut self, scope: &Scope, var: &Assignable<Parsed>) -> (r: Option<
        Assignable<TypeId>,
    >)
        ensures
            gives(
                *old(self),
                *final(self),
                r,
                resolved_target(old(self).scope(*scope), old(self).st(), var.view()),
                |a: Assignable<TypeId>| a.view(),
            ),
    {
        match var {
            Assignable::Var(name) => Some(Assignable::Var(name.clone())),
            Assignable::Ptr(name, size) => Some(Assignable::Ptr(name.clone(), *size)),
            Assignable::Index { data, index, val_size } => {
                let x = self.expression(scope, data)?;
                let y = self.expression(scope, index)?;
                Some(
                    Assignable::Index { data: Box::new(x), index: Box::new(y), val_size: *val_size },
                )
            },
            Assignable::MemberAccess(a, member) => {
                let x = self.expression(scope, a)?;
                Some(Assignable::MemberAccess(Box::new(x), member.clone()))
            },
        }
    }

    fn statement(&mut self, scope: &Scope, stmt: &Statement<Parsed>) -> (r: Option<
        Statement<TypeId>,
    >)
        ensures
            gives(
                *old(self),
                *final(self),
                r,
                resolved_stmt(old(self).scope(*scope), old(self).st(), stmt.view()),
                |s: Statement<TypeId>| s.view(),
            ),
        decreases stmt, 0nat,
    {
        match stmt {
            Statement::Declare { var, expr, var_span, explicit_type } => {
                let expr = self.expression(scope, expr)?;
                let explicit_type = self.resolve_opt_type(scope, explicit_type)?;
                Some(
                    Statement::Declare { var: var.clone(), expr, var_span: *var_span, explicit_type },
                )
            },
            Statement::Assign { var, expr, var_span } => {
                let var = self.var_assign(scope, var)?;
                let expr = self.expression(scope, expr)?;
                Some(Statement::Assign { var, expr, var_span: *var_span })
            },
            Statement::If { guard, body } => {
                let guard = self.expression(scope, guard)?;
                proof {
                    assert(stmt.view()->If_body =~= ast::stmt_views(body@));
                }
                let body = self.body(scope, body)?;
                let r = Statement::If { guard, body };
                proof {
                    assert(r.view()->If_body =~= ast::stmt_views(body@));
                }
                Some(r)
            },
            Statement::Return(e) => {
                let e = self.expression(scope, e)?;
                Some(Statement::Return(e))
            },
            Statement::Expr(e) => {
                let e = self.expression(scope, e)?;
                Some(Statement::Expr(e))
            },
            Statement::WhileLoop { guard, body } => {
                let guard = self.expression(scope, guard)?;
                proof {
                    assert(stmt.view()->WhileLoop_body =~= ast::stmt_views(body@));
                }
                let body = self.body(scope, body)?;
                let r = Statement::WhileLoop { guard, body };
                proof {
                    assert(r.view()->WhileLoop_body =~= ast::stmt_views(body@));
                }
                Some(r)
            },
        }
    }

    fn body(&mut self, scope: &Scope, stmts: &Vec<Statement<Parsed>>) -> (r: Option<
        Vec<Statement<TypeId>>,
    >)
        ensures
            gives(
                *old(self),
                *final(self),
                r,
                resolved_stmts(
                    old(self).scope(*scope),
                    old(self).st(),
                    ast::stmt_views(stmts@),
                    0,
                    Seq::empty(),
                ),
                |v: Vec<Statement<TypeId>>| ast::stmt_views(v@),
            ),
        decreases stmts, 0nat,
    {
        let mut done: Vec<Statement<TypeId>> = Vec::new();
        let mut i: usize = 0;
        proof {
            assert(ast::stmt_views(done@) =~= Seq::empty());
        }
        while i < stmts.len()
            invariant
                i <= stmts.len(),
                self.known() == old(self).known(),
                resolved_stmts(
                    old(self).scope(*scope),
                    self.st(),
                    ast::stmt_views(stmts@),
                    i as nat,
                    ast::stmt_views(done@),
                ) == resolved_stmts(
                    old(self).scope(*scope),
                    old(self).st(),
                    ast::stmt_views(stmts@),
                    0,
                    Seq::empty(),
                ),
            decreases stmts.len() - i,
        {
            let ghost before = ast::stmt_views(done@);
            let x = self.statement(scope, &stmts[i])?;
            done.push(x);
            proof {
                assert(ast::stmt_views(done@) =~= before.push(x.view()));
            }
            i = i + 1;
        }
        Some(done)
    }

    fn bindings(&mut self, scope: &Scope, bindings: &Vec<Binding<Parsed>>) -> (r: Option<
        Vec<Binding<TypeId>>,
    >)
        ensures
            gives(
                *old(self),
                *final(self),
                r,
                resolved_bindings(
                    old(self).scope(*scope),
                    old(self).st(),
                    ast::binding_views(bindings@),
                    0,
                    Seq::empty(),
                ),
                |v: Vec<Binding<TypeId>>| ast::binding_views(v@),
            ),
    {
        let mut done: Vec<Binding<TypeId>> = Vec::new();
        let mut i: usize = 0;
        proof {
            assert(ast::binding_views(done@) =~= Seq::empty());
        }
        while i < bindings.len()
            invariant
                i <= bindings.len(),
                self.known() == old(self).known(),
                resolved_bindings(
                    old(self).scope(*scope),
                    self.st(),
                    ast::binding_views(bindings@),
                    i as nat,
                    ast::binding_views(done@),
                ) == resolved_bindings(
                    old(self).scope(*scope),
                    old(self).st(),
                    ast::binding_views(bindings@),
                    0,
                    Seq::empty(),
                ),
            decreases bindings.len() - i,
        {
            let ghost before = ast::binding_views(done@);
            let b = &bindings[i];
            let typ = &b.1;
            let id = self.resolve_type(scope, &typ.0, typ.1)?;
            done.push((b.0.clone(), id, b.2));
            proof {
                assert(ast::binding_views(done@) =~= before.push((b.0@, id, b.2)));
            }
            i = i + 1;
        }
        Some(done)
    }

    fn function(&mut self, scope: &Scope, def: &FnDef<Parsed>) -> (r: Option<FnDef<TypeId>>)
        ensures
            gives(
                *old(self),
                *final(self),
                r,
                resolved_def(old(self).scope(*scope), old(self).st(), def.view()),
                |d: FnDef<TypeId>| d.view(),
            ),
    {
        let args = self.bindings(scope, &def.args)?;
        let body = self.body(scope, &def.body)?;
        let ret = &def.ret_type;
        let ret_type = self.resolve_type(scope, &ret.0, ret.1)?;
        Some(FnDef { name: def.name.clone(), args, body, decl_span: def.decl_span, ret_type })
    }

    fn functions(&mut self, scope: &Scope, defs: &Vec<FnDef<Parsed>>) -> (r: Option<
        Vec<FnDef<TypeId>>,
    >)
        ensures
            gives(
                *old(self),
                *final(self),
                r,
                resolved_defs(
                    old(self).scope(*scope),
                    old(self).st(),
                    ast::fn_views(defs@),
                    0,
                    Seq::empty(),
                ),
                |v: Vec<FnDef<TypeId>>| ast::fn_views(v@),
            ),
    {
        let mut done: Vec<FnDef<TypeId>> = Vec::new();
        let mut i: usize = 0;
        proof {
            assert(ast::fn_views(done@) =~= Seq::empty());
        }
        while i < defs.len()
            invariant
                i <= defs.len(),
                self.known() == old(self).known(),
                resolved_defs(
                    old(self).scope(*scope),
                    self.st(),
                    ast::fn_views(defs@),
                    i as nat,
                    ast::fn_views(done@),
                ) == resolved_defs(
                    old(self).scope(*scope),
                    old(self).st(),
                    ast::fn_views(defs@),
                    0,
                    Seq::empty(),
                ),
            decreases defs.len() - i,
        {
            let ghost before = ast::fn_views(done@);
            let x = self.function(scope, &defs[i])?;
            done.push(x);
            proof {
                assert(ast::fn_views(done@) =~= before.push(x.view()));
            }
            i = i + 1;
        }
        Some(done)
    }

    fn item(&mut self, scope: &Scope, item: &Item<Parsed>) -> (r: Option<Item<TypeId>>)
        ensures
            gives(
                *old(self),
                *final(self),
                r,
                resolved_item(old(self).scope(*scope), old(self).st(), item.view()),
                |i: Item<TypeId>| i.view(),
            ),
    {
        match item {
            Item::Function(def) => {
                let def = self.function(scope, def)?;
                Some(Item::Function(def))
            },
            Item::ForwardDecl { name, args, ret_type, decl_span } => {
                let args = self.bindings(scope, args)?;
                let ret_type = self.resolve_type(scope, &ret_type.0, ret_type.1)?;
                Some(Item::ForwardDecl { name: name.clone(), args, ret_type, decl_span: *decl_span })
            },
            Item::ExternLib(_) => None,
            Item::MemorySegment { name, typ } => {
                let typ = self.resolve_type(scope, &typ.0, typ.1)?;
                Some(Item::MemorySegment { name: name.clone(), typ })
            },
            Item::Struct { name, decl_span, fields } => {
                let fields = self.bindings(scope, fields)?;
                Some(Item::Struct { name: name.clone(), decl_span: *decl_span, fields })
            },
            Item::Impl { struct_name, functions } => {
                let functions = self.functions(scope, functions)?;
                Some(Item::Impl { struct_name: struct_name.clone(), functions })
            },
        }
    }

    fn check_imports(&mut self, scope: &Scope)
        ensures
            final(self).known() == old(self).known(),
            final(self).st() == checked_imports(old(self).scope(*scope), old(self).st(), 0),
    {
        let mut i: usize = 0;
        while i < scope.imports.len()
            invariant
                i <= scope.imports.len(),
                self.known() == old(self).known(),
                checked_imports(old(self).scope(*scope), self.st(), i as nat) == checked_imports(
                    old(self).scope(*scope),
                    old(self).st(),
                    0,
                ),
            decreases scope.imports.len() - i,
        {
            let import = &scope.imports[i];
            proof {
                assert(old(self).scope(*scope).imports[i as int] == (import.0@, import.1));
            }
            let typeid = TypeId::from_path(import.0.as_str());
            if !self.known_typeids.contains(&typeid.0) {
                let hash = types::hash_path(import.0.as_str());
                if !self.known_functions.contains(&hash) {
                    self.errs.report(
                        Error::simple(import.1, "unknown import", "could not find item"),
                    );
                }
            }
            i = i + 1;
        }
    }

    /// Notes the types and functions that some items declare.
    fn note_items(&mut self, items: &Vec<Item<Parsed>>)
        ensures
            final(self).st() == old(self).st(),
            final(self).known() == with_items(
                old(self).known(),
                ast::item_views(items@),
                items@.len(),
            ),
    {
        let mut i: usize = 0;
        while i < items.len()
            invariant
                i <= items.len(),
                self.st() == old(self).st(),
                self.known() == with_items(old(self).known(), ast::item_views(items@), i as nat),
            decreases items.len() - i,
        {
            let ghost before = self.known();
            proof {
                assert(ast::item_views(items@)[i as int] == items@[i as int].view());
            }
            match &items[i] {
                Item::Struct { name, .. } => {
                    let typeid = TypeId::from_path(name.as_str());
                    self.known_typeids.insert(typeid.0);
                },
                Item::Function(def) => {
                    let hash = types::hash_path(def.name.as_str());
                    self.known_functions.insert(hash);
                },
                Item::ForwardDecl { name, .. } => {
                    let hash = types::hash_path(name.as_str());
                    self.known_functions.insert(hash);
                },
                Item::Impl { struct_name, functions } => {
                    self.note_methods(struct_name.as_str(), functions);
                },
                _ => {},
            }
            proof {
                assert(self.known() =~= with_item(before, items@[i as int].view()));
            }
            i = i + 1;
        }
    }

    fn note_methods(&mut self, struct_name: &str, functions: &Vec<FnDef<Parsed>>)
        ensures
            final(self).st() == old(self).st(),
            final(self).known() == (KnownV {
                fns: with_methods(
                    old(self).known().fns,
                    struct_name@,
                    ast::fn_views(functions@),
                    functions@.len(),
                ),
                ..old(self).known()
            }),
    {
        let mut i: usize = 0;
        while i < functions.len()
            invariant
                i <= functions.len(),
                self.st() == old(self).st(),
                self.known_typeids == old(self).known_typeids,
                self.known_functions@ == with_methods(
                    old(self).known().fns,
                    struct_name@,
                    ast::fn_views(functions@),
                    i as nat,
                ),
            decreases functions.len() - i,
        {
            proof {
                assert(ast::fn_views(functions@)[i as int].name == functions@[i as int].name@);
            }
            let name = text::join_path(struct_name, functions[i].name.as_str());
            let hash = types::hash_path(name.as_str());
            self.known_functions.insert(hash);
            i = i + 1;
        }
    }

    /// Resolves the items of one tree, and puts them behind those in `done`.
    fn tree(&mut self, tree: &AST<Parsed>, path: &str, done: &mut Vec<Item<TypeId>>) -> (r: Option<()>)
        ensures
            ({
                let scope = ScopeV {
                    path: path@,
                    imports: tree.view().imports,
                    known_types: old(self).known().types,
                    known_fns: old(self).known().fns,
                };
                gives(
                    *old(self),
                    *final(self),
                    r,
                    resolved_items(
                        scope,
                        checked_imports(scope, old(self).st(), 0),
                        tree.view().items,
                        0,
                        ast::item_views(old(done)@),
                    ),
                    |u: ()| ast::item_views(final(done)@),
                )
            }),
    {
        let scope = Scope { path, imports: &tree.imports };
        let ghost scope_v = self.scope(scope);
        self.check_imports(&scope);
        let ghost st = self.st();
        let ghost out = resolved_items(
            scope_v,
            st,
            tree.view().items,
            0,
            ast::item_views(done@),
        );
        let mut i: usize = 0;
        while i < tree.items.len()
            invariant
                i <= tree.items.len(),
                self.known() == old(self).known(),
                scope_v == self.scope(scope),
                out == resolved_items(
                    scope_v,
                    self.st(),
                    tree.view().items,
                    i as nat,
                    ast::item_views(done@),
                ),
                ({
                    let scope = ScopeV {
                        path: path@,
                        imports: tree.view().imports,
                        known_types: old(self).known().types,
                        known_fns: old(self).known().fns,
                    };
                    out == resolved_items(
                        scope,
                        checked_imports(scope, old(self).st(), 0),
                        tree.view().items,
                        0,
                        ast::item_views(old(done)@),
                    )
                }),
            decreases tree.items.len() - i,
        {
            let ghost before = ast::item_views(done@);
            proof {
                assert(tree.view().items[i as int] == tree.items@[i as int].view());
            }
            let x = self.item(&scope, &tree.items[i])?;
            done.push(x);
            proof {
                assert(ast::item_views(done@) =~= before.push(x.view()));
            }
            i = i + 1;
        }
        Some(())
    }

    /// Resolves the names in some trees and combines their items. What cannot be found is
    /// reported.
    pub fn resolve_and_combine(
        self,
        ast_vec: &Vec<AST<Parsed>>,
        err_ctx: &mut ErrorContext,
    ) -> (r: (AST<TypeId>, TypeMap))
        requires
            self.fresh(),
            resolution(tree_views(ast_vec@)) is Some,
        ensures
            resolution(tree_views(ast_vec@)) matches Some((tree, types, errs)) ==> {
                &&& r.0.view() == tree
                &&& r.1@ == types
                &&& final(err_ctx)@ == old(err_ctx)@ + errs
            },
    {
        match self.try_resolve_and_combine(ast_vec, err_ctx) {
            Some(r) => r,
            None => (AST::new(), TypeMap::new()),
        }
    }

    /// Knows the primitive types and nothing else.
    pub open spec fn fresh(self) -> bool {
        &&& self.st() == (Resolving { types: primitives(), errs: Seq::empty() })
        &&& self.known() == (KnownV { types: primitives().dom(), fns: Set::empty() })
    }

    /// As [`Resolver::resolve_and_combine`], for any trees: `None`, with nothing reported, where
    /// resolution ends.
    pub fn try_resolve_and_combine(
        self,
        ast_vec: &Vec<AST<Parsed>>,
        err_ctx: &mut ErrorContext,
    ) -> (r: Option<(AST<TypeId>, TypeMap)>)
        requires
            self.fresh(),
        ensures
            match resolution(tree_views(ast_vec@)) {
                Some((tree, types, errs)) => {
                    &&& r matches Some((t, m)) && t.view() == tree && m@ == types
                    &&& final(err_ctx)@ == old(err_ctx)@ + errs
                },
                None => r is None && final(err_ctx)@ == old(err_ctx)@,
            },
    {
        let mut resolver = self;
        let ghost trees = tree_views(ast_vec@);
        let ghost known0 = self.known();
        let mut i: usize = 0;
        while i < ast_vec.len()
            invariant
                i <= ast_vec.len(),
                trees == tree_views(ast_vec@),
                resolver.st() == self.st(),
                resolver.known() == with_trees(known0, trees, i as nat),
            decreases ast_vec.len() - i,
        {
            proof {
                assert(trees[i as int].items == ast::item_views(ast_vec@[i as int].items@));
            }
            resolver.note_items(&ast_vec[i].items);
            i = i + 1;
        }
        let ghost known = resolver.known();
        let mut items: Vec<Item<TypeId>> = Vec::new();
        proof {
            assert(ast::item_views(items@) =~= Seq::empty());
        }
        let mut i: usize = 0;
        while i < ast_vec.len()
            invariant
                i <= ast_vec.len(),
                trees == tree_views(ast_vec@),
                resolver.known() == known,
                self.fresh(),
                known == with_trees(self.known(), trees, trees.len()),
                err_ctx@ == old(err_ctx)@,
                resolved_trees(known, self.st(), trees, 0, Seq::empty()) == resolved_trees(
                    known,
                    resolver.st(),
                    trees,
                    i as nat,
                    ast::item_views(items@),
                ),
            decreases ast_vec.len() - i,
        {
            proof {
                assert(trees[i as int] == ast_vec@[i as int].view());
            }
            let path = match &ast_vec[i].mangled_path {
                Some(path) => path.as_str(),
                None => {
                    return None;
                },
            };
            match resolver.tree(&ast_vec[i], path, &mut items) {
                Some(_) => {},
                None => {
                    return None;
                },
            }
            i = i + 1;
        }
        let ghost st = resolver.st();
        let open = collect_structs(&items);
        let mut layout = Layout { types: resolver.types, open };
        match layout.size_all(&items) {
            None => None,
            Some(_) => {
                let mut tree: AST<TypeId> = AST::new();
                tree.items = items;
                let mut errs = resolver.errs;
                err_ctx.absorb(&mut errs);
                Some((tree, layout.types))
            },
        }
    }
}

pub open spec fn tree_views(v: Seq<AST<Parsed>>) -> Seq<AstV<ParsedV>> {
    v.map_values(|t: AST<Parsed>| t.view())
}

/// A struct that is not laid out yet: its path and its fields.
type OpenEntry = (String, Vec<Binding<TypeId>>);

spec fn open_views(m: Map<u64, OpenEntry>) -> Map<u64, OpenStruct> {
    m.map_values(|e: OpenEntry| (e.0@, ast::binding_views(e.1@)))
}

/// A copy of a list of arguments or fields.
pub fn copy_bindings(v: &Vec<Binding<TypeId>>) -> (r: Vec<Binding<TypeId>>)
    ensures
        ast::binding_views(r@) == ast::binding_views(v@),
{
    let mut r: Vec<Binding<TypeId>> = Vec::new();
    let mut i: usize = 0;
    while i < v.len()
        invariant
            i <= v.len(),
            r@.len() == i,
            forall|j: int|
                0 <= j < i ==> (#[trigger] r@[j]).0@ == v@[j].0@ && r@[j].1 == v@[j].1 && r@[j].2
                    == v@[j].2,
        decreases v.len() - i,
    {
        r.push((v[i].0.clone(), v[i].1, v[i].2));
        i = i + 1;
    }
    proof {
        assert(ast::binding_views(r@) =~= ast::binding_views(v@));
    }
    r
}

fn collect_structs(items: &Vec<Item<TypeId>>) -> (r: HashMap<u64, OpenEntry>)
    ensures
        open_views(r@) == open_structs(ast::item_views(items@), items@.len()),
{
    let mut open: HashMap<u64, OpenEntry> = HashMap::new();
    let mut i: usize = 0;
    proof {
        assert(open_views(open@) =~= Map::empty());
    }
    while i < items.len()
        invariant
            i <= items.len(),
            open_views(open@) == open_structs(ast::item_views(items@), i as nat),
        decreases items.len() - i,
    {
        let ghost before = open_views(open@);
        proof {
            assert(ast::item_views(items@)[i as int] == items@[i as int].view());
        }
        if let Item::Struct { name, fields, .. } = &items[i] {
            let typeid = TypeId::from_path(name.as_str());
            let fields_copy = copy_bindings(fields);
            open.insert(typeid.0, (name.clone(), fields_copy));
            proof {
                assert(open_views(open@) =~= before.insert(
                    typeid.0,
                    (name@, ast::binding_views(fields@)),
                ));
            }
        }
        i = i + 1;
    }
    open
}

/// Types, and structs that are not laid out yet.
struct Layout {
    types: TypeMap,
    open: HashMap<u64, OpenEntry>,
}

impl Layout {
    spec fn view(&self) -> Layouts {
        Layouts { types: self.types@, open: open_views(self.open@) }
    }

    fn size_all(&mut self, items: &Vec<Item<TypeId>>) -> (r: Option<()>)
        ensures
            match r {
                Some(_) => all_sized(old(self).view(), ast::item_views(items@), 0) == Some(
                    final(self).view(),
                ),
                None => all_sized(old(self).view(), ast::item_views(items@), 0) is None,
            },
    {
        let mut i: usize = 0;
        while i < items.len()
            invariant
                i <= items.len(),
                all_sized(self.view(), ast::item_views(items@), i as nat) == all_sized(
                    old(self).view(),
                    ast::item_views(items@),
                    0,
                ),
            decreases items.len() - i,
        {
            proof {
                assert(ast::item_views(items@)[i as int] == items@[i as int].view());
            }
            if let Item::Struct { name, .. } = &items[i] {
                let typeid = TypeId::from_path(name.as_str());
                self.struct_def_size(typeid)?;
            }
            i = i + 1;
        }
        Some(())
    }

    /// The size of a type. The structs that it needs are laid out.
    fn struct_def_size(&mut self, typeid: TypeId) -> (r: Option<u64>)
        ensures
            match r {
                Some(size) => sized(old(self).view(), typeid) == Some((final(self).view(), size)),
                None => sized(old(self).view(), typeid) is None,
            },
            final(self).view().open.dom().len() <= old(self).view().open.dom().len(),
        decreases old(self).view().open.dom().len(), 0nat,
    {
        if let Some(info) = self.types.find(typeid) {
            return Some(info.size);
        }
        let ghost l0 = self.view();
        proof {
            assert(l0.open.dom() =~= self.open@.dom());
        }
        let (qualifier, fields) = match self.open.remove(&typeid.0) {
            Some(entry) => entry,
            None => {
                proof {
                    assert(self.view().open.dom() =~= l0.open.dom());
                }
                return None;
            },
        };
        proof {
            assert(self.view().open =~= l0.open.remove(typeid.0));
            assert(self.view().open.dom() =~= l0.open.dom().remove(typeid.0));
        }
        let (size, laid) = self.place_fields(&fields)?;
        self.types.insert(typeid, TypeInfo { size, kind: TypeKind::Struct { qualifier, fields: laid } });
        Some(size)
    }

    fn place_fields(&mut self, fields: &Vec<Binding<TypeId>>) -> (r: Option<(u64, Vec<Field>)>)
        ensures
            match r {
                Some((size, laid)) => placed(
                    old(self).view(),
                    ast::binding_views(fields@),
                    0,
                    0,
                    Seq::empty(),
                ) == Some((final(self).view(), size, types::layout_views(laid@))),
                None => placed(
                    old(self).view(),
                    ast::binding_views(fields@),
                    0,
                    0,
                    Seq::empty(),
                ) is None,
            },
            final(self).view().open.dom().len() <= old(self).view().open.dom().len(),
        decreases old(self).view().open.dom().len(), 1nat,
    {
        let mut size: u64 = 0;
        let mut laid: Vec<Field> = Vec::new();
        let mut i: usize = 0;
        let ghost views = ast::binding_views(fields@);
        let ghost out = placed(self.view(), views, 0, 0, Seq::empty());
        proof {
            assert(types::layout_views(laid@) =~= Seq::empty());
        }
        while i < fields.len()
            invariant
                i <= fields.len(),
                views == ast::binding_views(fields@),
                self.view().open.dom().len() <= old(self).view().open.dom().len(),
                out == placed(old(self).view(), views, 0, 0, Seq::empty()),
                out == placed(self.view(), views, i as nat, size, types::layout_views(laid@)),
            decreases fields.len() - i,
        {
            let ghost before = types::layout_views(laid@);
            let field_size = self.struct_def_size(fields[i].1)?;
            let step: u64 = if field_size < 1 {
                1
            } else if field_size < 8 {
                field_size
            } else {
                8
            };
            let oversize = size % step;
            let offset = if oversize > 0 {
                match size.checked_add(step - oversize) {
                    Some(offset) => offset,
                    None => {
                        return None;
                    },
                }
            } else {
                size
            };
            size = match offset.checked_add(field_size) {
                Some(end) => end,
                None => {
                    return None;
                },
            };
            laid.push((fields[i].0.clone(), fields[i].1, offset, fields[i].2));
            proof {
                assert(types::layout_views(laid@) =~= before.push(
                    (views[i as int].0, views[i as int].1, offset, views[i as int].2),
                ));
            }
            i = i + 1;
        }
        Some((size, laid))
    }
}

} // verus!
