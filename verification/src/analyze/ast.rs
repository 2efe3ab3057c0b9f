//! The syntax tree. `T` is how a type is written: as it was parsed, or resolved.

use vstd::prelude::*;

use crate::analyze::semantics::types::{Primitive, Sign, TypeId};
use crate::analyze::Span;
use crate::ir::ValSize;
use crate::text;

pub mod entries;
pub mod laws;
pub mod parse;
pub mod written;

verus! {

#[derive(Debug, Clone, Copy, PartialEq, Eq, Structural)]
pub enum ArithmeticOp {
    Add,
    Sub,
    Mul,
    Div,
    Mod,
}

#[derive(Debug, Clone, Copy, PartialEq, Eq, Structural)]
pub enum CompareOp {
    Equal,
    NotEqual,
    Less,
    LessOrEqual,
    Greater,
    GreaterOrEqual,
}

#[derive(Debug, Clone, Copy, PartialEq, Eq, Structural)]
pub enum LogicalOp {
    And,
    Or,
}

pub struct Expression<T> {
    pub inner: ExprInner<T>,
    pub typ: Option<T>,
    pub span: Span,
}

pub enum ExprInner<T> {
    Const(u64, Option<Primitive>),
    Character(char),
    String(String),
    Bool(bool),
    Ident(String),
    Pointer(String),
    Deref(String, Option<TypeId>),
    Arithmetic(Box<Expression<T>>, Box<Expression<T>>, ArithmeticOp, Option<Sign>),
    Comparison(Box<Expression<T>>, Box<Expression<T>>, CompareOp, Option<Sign>),
    Logical(Box<Expression<T>>, Box<Expression<T>>, LogicalOp),
    Not(Box<Expression<T>>),
    Negate(Box<Expression<T>>),
    Cast(Box<Expression<T>>, T),
    Index { data: Box<Expression<T>>, index: Box<Expression<T>>, val_size: Option<ValSize> },
    MemberAccess(Box<Expression<T>>, String, Option<TypeId>),
    FnCall(FnPtr<T>, Vec<Expression<T>>),
    Construct { typ: T, fields: Vec<(String, Expression<T>)> },
    SizeOf(T),
}

/// The function that is called: by its path, or by an expression that denotes it.
pub enum FnPtr<T> {
    Named(String),
    Expr(Box<Expression<T>>),
}

/// What an [`Expression`] says.
pub struct ExprV<T> {
    pub inner: ExprInnerV<T>,
    pub typ: Option<T>,
    pub span: Span,
}

/// What an [`ExprInner`] says.
pub enum ExprInnerV<T> {
    Const(u64, Option<Primitive>),
    Character(char),
    String(Seq<char>),
    Bool(bool),
    Ident(Seq<char>),
    Pointer(Seq<char>),
    Deref(Seq<char>, Option<TypeId>),
    Arithmetic(Box<ExprV<T>>, Box<ExprV<T>>, ArithmeticOp, Option<Sign>),
    Comparison(Box<ExprV<T>>, Box<ExprV<T>>, CompareOp, Option<Sign>),
    Logical(Box<ExprV<T>>, Box<ExprV<T>>, LogicalOp),
    Not(Box<ExprV<T>>),
    Negate(Box<ExprV<T>>),
    Cast(Box<ExprV<T>>, T),
    Index { data: Box<ExprV<T>>, index: Box<ExprV<T>>, val_size: Option<ValSize> },
    MemberAccess(Box<ExprV<T>>, Seq<char>, Option<TypeId>),
    FnCall(FnPtrV<T>, Seq<ExprV<T>>),
    Construct { typ: T, fields: Seq<(Seq<char>, ExprV<T>)> },
    SizeOf(T),
}

/// What an [`FnPtr`] says.
pub enum FnPtrV<T> {
    Named(Seq<char>),
    Expr(Box<ExprV<T>>),
}

/// The view of an optional value.
pub open spec fn option_view<T: View>(o: Option<T>) -> Option<T::V> {
    match o {
        Some(t) => Some(t@),
        None => None,
    }
}

impl<T: View> Expression<T> {
    pub open spec fn view(&self) -> ExprV<T::V>
        decreases self,
    {
        ExprV { inner: self.inner.view(), typ: option_view(self.typ), span: self.span }
    }
}

impl<T: View> ExprInner<T> {
    pub open spec fn view(&self) -> ExprInnerV<T::V>
        decreases self,
    {
        match self {
            ExprInner::Const(n, p) => ExprInnerV::Const(*n, *p),
            ExprInner::Character(c) => ExprInnerV::Character(*c),
            ExprInner::String(s) => ExprInnerV::String(s@),
            ExprInner::Bool(b) => ExprInnerV::Bool(*b),
            ExprInner::Ident(s) => ExprInnerV::Ident(s@),
            ExprInner::Pointer(s) => ExprInnerV::Pointer(s@),
            ExprInner::Deref(s, t) => ExprInnerV::Deref(s@, *t),
            ExprInner::Arithmetic(a, b, op, sign) => ExprInnerV::Arithmetic(
                Box::new(a.view()),
                Box::new(b.view()),
                *op,
                *sign,
            ),
            ExprInner::Comparison(a, b, op, sign) => ExprInnerV::Comparison(
                Box::new(a.view()),
                Box::new(b.view()),
                *op,
                *sign,
            ),
            ExprInner::Logical(a, b, op) => ExprInnerV::Logical(
                Box::new(a.view()),
                Box::new(b.view()),
                *op,
            ),
            ExprInner::Not(a) => ExprInnerV::Not(Box::new(a.view())),
            ExprInner::Negate(a) => ExprInnerV::Negate(Box::new(a.view())),
            ExprInner::Cast(a, t) => ExprInnerV::Cast(Box::new(a.view()), t@),
            ExprInner::Index { data, index, val_size } => ExprInnerV::Index {
                data: Box::new(data.view()),
                index: Box::new(index.view()),
                val_size: *val_size,
            },
            ExprInner::MemberAccess(a, s, t) => ExprInnerV::MemberAccess(
                Box::new(a.view()),
                s@,
                *t,
            ),
            ExprInner::FnCall(f, args) => ExprInnerV::FnCall(
                f.view(),
                Seq::new(
                    args@.len(),
                    |i: int|
                        if 0 <= i < args@.len() {
                            args@[i].view()
                        } else {
                            arbitrary()
                        },
                ),
            ),
            ExprInner::Construct { typ, fields } => ExprInnerV::Construct {
                typ: typ@,
                fields: Seq::new(
                    fields@.len(),
                    |i: int|
                        if 0 <= i < fields@.len() {
                            (fields@[i].0@, fields@[i].1.view())
                        } else {
                            arbitrary()
                        },
                ),
            },
            ExprInner::SizeOf(t) => ExprInnerV::SizeOf(t@),
        }
    }
}

impl<T: View> FnPtr<T> {
    pub open spec fn view(&self) -> FnPtrV<T::V>
        decreases self,
    {
        match self {
            FnPtr::Named(s) => FnPtrV::Named(s@),
            FnPtr::Expr(e) => FnPtrV::Expr(Box::new(e.view())),
        }
    }
}

pub open spec fn higher(a: nat, b: nat) -> nat {
    if a < b {
        b
    } else {
        a
    }
}

/// How deeply operands are nested in an expression.
pub open spec fn nesting<T>(e: ExprV<T>) -> nat
    decreases e, 0nat,
{
    match e.inner {
        ExprInnerV::Arithmetic(a, b, _, _) => 1 + higher(nesting(*a), nesting(*b)),
        ExprInnerV::Comparison(a, b, _, _) => 1 + higher(nesting(*a), nesting(*b)),
        ExprInnerV::Logical(a, b, _) => 1 + higher(nesting(*a), nesting(*b)),
        ExprInnerV::Not(a) => 1 + nesting(*a),
        ExprInnerV::Negate(a) => 1 + nesting(*a),
        ExprInnerV::Cast(a, _) => 1 + nesting(*a),
        ExprInnerV::Index { data, index, .. } => 1 + higher(nesting(*data), nesting(*index)),
        ExprInnerV::MemberAccess(a, _, _) => 1 + nesting(*a),
        ExprInnerV::FnCall(_, args) => 1 + nesting_of_args(args, args.len()),
        ExprInnerV::Construct { fields, .. } => 1 + nesting_of_fields(fields, fields.len()),
        _ => 0,
    }
}

/// How deeply operands are nested in the first `n` arguments.
pub open spec fn nesting_of_args<T>(args: Seq<ExprV<T>>, n: nat) -> nat
    decreases args, n,
{
    if n == 0 || n > args.len() {
        0
    } else {
        higher(nesting(args[n - 1]), nesting_of_args(args, (n - 1) as nat))
    }
}

/// How deeply operands are nested in the values of the first `n` fields.
pub open spec fn nesting_of_fields<T>(fields: Seq<(Seq<char>, ExprV<T>)>, n: nat) -> nat
    decreases fields, n,
{
    if n == 0 || n > fields.len() {
        0
    } else {
        higher(nesting(fields[n - 1].1), nesting_of_fields(fields, (n - 1) as nat))
    }
}

pub proof fn lemma_arg_nesting<T>(args: Seq<ExprV<T>>, n: nat, i: int)
    requires
        0 <= i < n <= args.len(),
    ensures
        nesting(args[i]) <= nesting_of_args(args, n),
    decreases n,
{
    if i < n - 1 {
        lemma_arg_nesting(args, (n - 1) as nat, i);
    }
}

pub proof fn lemma_field_nesting<T>(fields: Seq<(Seq<char>, ExprV<T>)>, n: nat, i: int)
    requires
        0 <= i < n <= fields.len(),
    ensures
        nesting(fields[i].1) <= nesting_of_fields(fields, n),
    decreases n,
{
    if i < n - 1 {
        lemma_field_nesting(fields, (n - 1) as nat, i);
    }
}

pub proof fn lemma_same_args<T>(a: Seq<ExprV<T>>, b: Seq<ExprV<T>>, n: nat)
    requires
        a.len() == b.len(),
        n <= a.len(),
        forall|i: int| 0 <= i < n ==> nesting(#[trigger] a[i]) == nesting(b[i]),
    ensures
        nesting_of_args(a, n) == nesting_of_args(b, n),
    decreases n,
{
    if n > 0 {
        lemma_same_args(a, b, (n - 1) as nat);
        assert(nesting(a[n - 1]) == nesting(b[n - 1]));
    }
}

pub proof fn lemma_same_fields<T>(
    a: Seq<(Seq<char>, ExprV<T>)>,
    b: Seq<(Seq<char>, ExprV<T>)>,
    n: nat,
)
    requires
        a.len() == b.len(),
        n <= a.len(),
        forall|i: int| 0 <= i < n ==> nesting((#[trigger] a[i]).1) == nesting(b[i].1),
    ensures
        nesting_of_fields(a, n) == nesting_of_fields(b, n),
    decreases n,
{
    if n > 0 {
        lemma_same_fields(a, b, (n - 1) as nat);
        assert(nesting(a[n - 1].1) == nesting(b[n - 1].1));
    }
}

/// What each expression of a list says.
pub open spec fn expr_views<T: View>(v: Seq<Expression<T>>) -> Seq<ExprV<T::V>> {
    Seq::new(v.len(), |i: int| v[i].view())
}

/// What each named expression of a list says.
pub open spec fn field_views<T: View>(v: Seq<(String, Expression<T>)>) -> Seq<
    (Seq<char>, ExprV<T::V>),
> {
    Seq::new(v.len(), |i: int| (v[i].0@, v[i].1.view()))
}

pub enum Assignable<T> {
    Var(String),
    Ptr(String, Option<ValSize>),
    Index { data: Box<Expression<T>>, index: Box<Expression<T>>, val_size: Option<ValSize> },
    MemberAccess(Box<Expression<T>>, String),
}

/// What an [`Assignable`] says.
pub enum AssignableV<T> {
    Var(Seq<char>),
    Ptr(Seq<char>, Option<ValSize>),
    Index { data: ExprV<T>, index: ExprV<T>, val_size: Option<ValSize> },
    MemberAccess(ExprV<T>, Seq<char>),
}

impl<T: View> Assignable<T> {
    pub open spec fn view(&self) -> AssignableV<T::V> {
        match self {
            Assignable::Var(s) => AssignableV::Var(s@),
            Assignable::Ptr(s, size) => AssignableV::Ptr(s@, *size),
            Assignable::Index { data, index, val_size } => AssignableV::Index {
                data: data.view(),
                index: index.view(),
                val_size: *val_size,
            },
            Assignable::MemberAccess(e, s) => AssignableV::MemberAccess(e.view(), s@),
        }
    }
}

#[allow(inconsistent_fields)]
pub enum Statement<T> {
    Declare { var: String, expr: Expression<T>, var_span: Span, explicit_type: Option<T> },
    Assign { var: Assignable<T>, expr: Expression<T>, var_span: Span },
    If { guard: Expression<T>, body: Vec<Statement<T>> },
    Return(Expression<T>),
    Expr(Expression<T>),
    WhileLoop { guard: Expression<T>, body: Vec<Statement<T>> },
}

/// What a [`Statement`] says.
#[allow(inconsistent_fields)]
pub enum StmtV<T> {
    Declare { var: Seq<char>, expr: ExprV<T>, var_span: Span, explicit_type: Option<T> },
    Assign { var: AssignableV<T>, expr: ExprV<T>, var_span: Span },
    If { guard: ExprV<T>, body: Seq<StmtV<T>> },
    Return(ExprV<T>),
    Expr(ExprV<T>),
    WhileLoop { guard: ExprV<T>, body: Seq<StmtV<T>> },
}

impl<T: View> Statement<T> {
    pub open spec fn view(&self) -> StmtV<T::V>
        decreases self,
    {
        match self {
            Statement::Declare { var, expr, var_span, explicit_type } => StmtV::Declare {
                var: var@,
                expr: expr.view(),
                var_span: *var_span,
                explicit_type: option_view(*explicit_type),
            },
            Statement::Assign { var, expr, var_span } => StmtV::Assign {
                var: var.view(),
                expr: expr.view(),
                var_span: *var_span,
            },
            Statement::If { guard, body } => StmtV::If {
                guard: guard.view(),
                body: Seq::new(
                    body@.len(),
                    |i: int|
                        if 0 <= i < body@.len() {
                            body@[i].view()
                        } else {
                            arbitrary()
                        },
                ),
            },
            Statement::Return(e) => StmtV::Return(e.view()),
            Statement::Expr(e) => StmtV::Expr(e.view()),
            Statement::WhileLoop { guard, body } => StmtV::WhileLoop {
                guard: guard.view(),
                body: Seq::new(
                    body@.len(),
                    |i: int|
                        if 0 <= i < body@.len() {
                            body@[i].view()
                        } else {
                            arbitrary()
                        },
                ),
            },
        }
    }
}

/// What each statement of a list says.
pub open spec fn stmt_views<T: View>(v: Seq<Statement<T>>) -> Seq<StmtV<T::V>> {
    Seq::new(v.len(), |i: int| v[i].view())
}

/// A named and typed argument or field, with the place where it is declared.
pub type Binding<T> = (String, T, Span);

pub open spec fn binding_views<T: View>(v: Seq<Binding<T>>) -> Seq<(Seq<char>, T::V, Span)> {
    Seq::new(v.len(), |i: int| (v[i].0@, v[i].1@, v[i].2))
}

pub struct FnDef<T> {
    pub name: String,
    pub args: Vec<Binding<T>>,
    pub body: Vec<Statement<T>>,
    pub decl_span: Span,
    pub ret_type: T,
}

/// What an [`FnDef`] says.
#[verifier::ext_equal]
pub struct FnDefV<T> {
    pub name: Seq<char>,
    pub args: Seq<(Seq<char>, T, Span)>,
    pub body: Seq<StmtV<T>>,
    pub decl_span: Span,
    pub ret_type: T,
}

impl<T: View> FnDef<T> {
    pub open spec fn view(&self) -> FnDefV<T::V> {
        FnDefV {
            name: self.name@,
            args: binding_views(self.args@),
            body: stmt_views(self.body@),
            decl_span: self.decl_span,
            ret_type: self.ret_type@,
        }
    }
}

pub open spec fn fn_views<T: View>(v: Seq<FnDef<T>>) -> Seq<FnDefV<T::V>> {
    Seq::new(v.len(), |i: int| v[i].view())
}

pub enum Item<T> {
    Function(FnDef<T>),
    ForwardDecl { name: String, args: Vec<Binding<T>>, ret_type: T, decl_span: Span },
    ExternLib(String),
    MemorySegment { name: String, typ: T },
    Struct { name: String, decl_span: Span, fields: Vec<Binding<T>> },
    Impl { struct_name: String, functions: Vec<FnDef<T>> },
}

/// What an [`Item`] says.
pub enum ItemV<T> {
    Function(FnDefV<T>),
    ForwardDecl {
        name: Seq<char>,
        args: Seq<(Seq<char>, T, Span)>,
        ret_type: T,
        decl_span: Span,
    },
    ExternLib(Seq<char>),
    MemorySegment { name: Seq<char>, typ: T },
    Struct { name: Seq<char>, decl_span: Span, fields: Seq<(Seq<char>, T, Span)> },
    Impl { struct_name: Seq<char>, functions: Seq<FnDefV<T>> },
}

impl<T: View> Item<T> {
    pub open spec fn view(&self) -> ItemV<T::V> {
        match self {
            Item::Function(def) => ItemV::Function(def.view()),
            Item::ForwardDecl { name, args, ret_type, decl_span } => ItemV::ForwardDecl {
                name: name@,
                args: binding_views(args@),
                ret_type: ret_type@,
                decl_span: *decl_span,
            },
            Item::ExternLib(name) => ItemV::ExternLib(name@),
            Item::MemorySegment { name, typ } => ItemV::MemorySegment { name: name@, typ: typ@ },
            Item::Struct { name, decl_span, fields } => ItemV::Struct {
                name: name@,
                decl_span: *decl_span,
                fields: binding_views(fields@),
            },
            Item::Impl { struct_name, functions } => ItemV::Impl {
                struct_name: struct_name@,
                functions: fn_views(functions@),
            },
        }
    }
}

pub open spec fn item_views<T: View>(v: Seq<Item<T>>) -> Seq<ItemV<T::V>> {
    Seq::new(v.len(), |i: int| v[i].view())
}

/// A path and the place where it is named.
pub open spec fn path_views(v: Seq<(String, Span)>) -> Seq<(Seq<char>, Span)> {
    v.map_values(|p: (String, Span)| (p.0@, p.1))
}

/// The contents of one source file, or of several that were combined.
pub struct AST<T> {
    pub package: Option<String>,
    pub modules: Vec<(String, Span)>,
    pub imports: Vec<(String, Span)>,
    pub mangled_path: Option<String>,
    pub items: Vec<Item<T>>,
}

/// What an [`AST`] says.
#[verifier::ext_equal]
pub struct AstV<T> {
    pub package: Option<Seq<char>>,
    pub modules: Seq<(Seq<char>, Span)>,
    pub imports: Seq<(Seq<char>, Span)>,
    pub mangled_path: Option<Seq<char>>,
    pub items: Seq<ItemV<T>>,
}

impl<T> AstV<T> {
    pub open spec fn empty() -> AstV<T> {
        AstV {
            package: None,
            modules: Seq::empty(),
            imports: Seq::empty(),
            mangled_path: None,
            items: Seq::empty(),
        }
    }
}

impl<T: View> AST<T> {
    pub open spec fn view(&self) -> AstV<T::V> {
        AstV {
            package: option_view(self.package),
            modules: path_views(self.modules@),
            imports: path_views(self.imports@),
            mangled_path: option_view(self.mangled_path),
            items: item_views(self.items@),
        }
    }
}

/// The item with the path of its module in front of its name. Libraries and memory segments keep
/// theirs.
pub open spec fn mangled_item<T>(lib: Seq<char>, item: ItemV<T>) -> ItemV<T> {
    match item {
        ItemV::Function(def) => ItemV::Function(FnDefV { name: text::path_of(lib, def.name), ..def }),
        ItemV::ForwardDecl { name, args, ret_type, decl_span } => ItemV::ForwardDecl {
            name: text::path_of(lib, name),
            args,
            ret_type,
            decl_span,
        },
        ItemV::ExternLib(name) => item,
        ItemV::MemorySegment { name, typ } => item,
        ItemV::Struct { name, decl_span, fields } => ItemV::Struct {
            name: text::path_of(lib, name),
            decl_span,
            fields,
        },
        ItemV::Impl { struct_name, functions } => ItemV::Impl {
            struct_name: text::path_of(lib, struct_name),
            functions,
        },
    }
}

impl<T: View> Item<T> {
    fn mangle(self, lib: &str) -> (r: Item<T>)
        ensures
            r.view() == mangled_item(lib@, self.view()),
    {
        match self {
            Item::Function(def) => {
                let name = text::join_path(lib, def.name.as_str());
                Item::Function(
                    FnDef {
                        name,
                        args: def.args,
                        body: def.body,
                        decl_span: def.decl_span,
                        ret_type: def.ret_type,
                    },
                )
            },
            Item::ForwardDecl { name, args, ret_type, decl_span } => Item::ForwardDecl {
                name: text::join_path(lib, name.as_str()),
                args,
                ret_type,
                decl_span,
            },
            Item::ExternLib(name) => Item::ExternLib(name),
            Item::MemorySegment { name, typ } => Item::MemorySegment { name, typ },
            Item::Struct { name, decl_span, fields } => Item::Struct {
                name: text::join_path(lib, name.as_str()),
                decl_span,
                fields,
            },
            Item::Impl { struct_name, functions } => Item::Impl {
                struct_name: text::join_path(lib, struct_name.as_str()),
                functions,
            },
        }
    }
}

impl<T: View> AST<T> {
    pub fn new() -> (r: AST<T>)
        ensures
            r.view() == AstV::<T::V>::empty(),
    {
        AST {
            package: None,
            modules: Vec::new(),
            imports: Vec::new(),
            mangled_path: None,
            items: Vec::new(),
        }
    }

    pub fn add_item(&mut self, item: Item<T>)
        ensures
            final(self).view() == (AstV {
                items: old(self).view().items.push(item.view()),
                ..old(self).view()
            }),
    {
        self.items.push(item);
        proof {
            assert(self.view().items =~= old(self).view().items.push(item.view()));
        }
    }

    /// Puts the path `lib` in front of the names of the items.
    pub fn mangle(&mut self, lib: &str)
        ensures
            final(self).view() == (AstV {
                mangled_path: Some(lib@),
                items: old(self).view().items.map_values(
                    |item: ItemV<T::V>| mangled_item(lib@, item),
                ),
                ..old(self).view()
            }),
    {
        let ghost before = self.view();
        let mut rest: Vec<Item<T>> = Vec::new();
        std::mem::swap(&mut rest, &mut self.items);
        let ghost all = rest@;
        let mut items: Vec<Item<T>> = Vec::new();
        for item in it: rest.into_iter()
            invariant
                it.seq() == all,
                items@.len() == it.index(),
                forall|i: int|
                    0 <= i < items@.len() ==> (#[trigger] items@[i]).view() == mangled_item(
                        lib@,
                        all[i].view(),
                    ),
        {
            items.push(item.mangle(lib));
        }
        self.items = items;
        self.mangled_path = Some(lib.to_owned());
        proof {
            assert(self.view().items =~= before.items.map_values(
                |item: ItemV<T::V>| mangled_item(lib@, item),
            ));
        }
    }
}

/// A type of which a copy can be made that says the same.
pub trait Copied: View + Sized {
    fn copied(&self) -> (r: Self)
        ensures
            r@ == self@,
    ;
}

impl Copied for TypeId {
    fn copied(&self) -> (r: TypeId) {
        *self
    }
}

/// An expression that says the same.
pub fn copy_expr<T: Copied>(expr: &Expression<T>) -> (r: Expression<T>)
    ensures
        r.view() == expr.view(),
    decreases expr,
{
    let typ = match &expr.typ {
        Some(t) => Some(t.copied()),
        None => None,
    };
    let inner = match &expr.inner {
        ExprInner::Const(n, t) => ExprInner::Const(*n, *t),
        ExprInner::Character(c) => ExprInner::Character(*c),
        ExprInner::String(s) => ExprInner::String(s.clone()),
        ExprInner::Bool(b) => ExprInner::Bool(*b),
        ExprInner::Ident(s) => ExprInner::Ident(s.clone()),
        ExprInner::Pointer(s) => ExprInner::Pointer(s.clone()),
        ExprInner::Deref(s, t) => ExprInner::Deref(s.clone(), *t),
        ExprInner::Arithmetic(a, b, op, sign) => ExprInner::Arithmetic(
            Box::new(copy_expr(a)),
            Box::new(copy_expr(b)),
            *op,
            *sign,
        ),
        ExprInner::Comparison(a, b, op, sign) => ExprInner::Comparison(
            Box::new(copy_expr(a)),
            Box::new(copy_expr(b)),
            *op,
            *sign,
        ),
        ExprInner::Logical(a, b, op) => ExprInner::Logical(
            Box::new(copy_expr(a)),
            Box::new(copy_expr(b)),
            *op,
        ),
        ExprInner::Not(a) => ExprInner::Not(Box::new(copy_expr(a))),
        ExprInner::Negate(a) => ExprInner::Negate(Box::new(copy_expr(a))),
        ExprInner::Cast(a, t) => ExprInner::Cast(Box::new(copy_expr(a)), t.copied()),
        ExprInner::Index { data, index, val_size } => ExprInner::Index {
            data: Box::new(copy_expr(data)),
            index: Box::new(copy_expr(index)),
            val_size: *val_size,
        },
        ExprInner::MemberAccess(a, s, t) => ExprInner::MemberAccess(
            Box::new(copy_expr(a)),
            s.clone(),
            *t,
        ),
        ExprInner::FnCall(f, args) => {
            let f = match f {
                FnPtr::Named(s) => FnPtr::Named(s.clone()),
                FnPtr::Expr(e) => FnPtr::Expr(Box::new(copy_expr(e))),
            };
            let mut copies: Vec<Expression<T>> = Vec::new();
            let mut i: usize = 0;
            while i < args.len()
                invariant
                    i <= args.len(),
                    copies@.len() == i,
                    decreases_to!(expr => args),
                    forall|j: int| 0 <= j < i ==> (#[trigger] copies@[j]).view() == args@[j].view(),
                decreases args.len() - i,
            {
                copies.push(copy_expr(&args[i]));
                i = i + 1;
            }
            let inner = ExprInner::FnCall(f, copies);
            proof {
                assert(inner.view()->FnCall_1 =~= expr.inner.view()->FnCall_1);
            }
            inner
        },
        ExprInner::Construct { typ, fields } => {
            let mut copies: Vec<(String, Expression<T>)> = Vec::new();
            let mut i: usize = 0;
            while i < fields.len()
                invariant
                    i <= fields.len(),
                    copies@.len() == i,
                    decreases_to!(expr => fields),
                    forall|j: int|
                        0 <= j < i ==> (#[trigger] copies@[j]).0@ == fields@[j].0@
                            && copies@[j].1.view() == fields@[j].1.view(),
                decreases fields.len() - i,
            {
                copies.push((fields[i].0.clone(), copy_expr(&fields[i].1)));
                i = i + 1;
            }
            let inner = ExprInner::Construct { typ: typ.copied(), fields: copies };
            proof {
                assert(inner.view()->fields =~= expr.inner.view()->fields);
            }
            inner
        },
        ExprInner::SizeOf(t) => ExprInner::SizeOf(t.copied()),
    };
    Expression { inner, typ, span: expr.span }
}

} // verus!
