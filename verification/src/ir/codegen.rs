//! Turns checked functions into basic blocks.

use std::collections::HashMap;

use vstd::hash_map::StringHashMap;
use vstd::prelude::*;

use crate::analyze::ast;
use crate::analyze::ast::{
    ArithmeticOp, Assignable, AssignableV, AstV, ExprInner, ExprInnerV, ExprV,
    Expression, FnDef, FnDefV, FnPtr, FnPtrV, LogicalOp, Statement, StmtV,
};
use crate::analyze::semantics::types;
use crate::analyze::semantics::types::{Primitive, Sign, TypeId, TypeMap, TypesV};
use crate::analyze::semantics::{Analyzer, ValidAST};
use crate::analyze::Span;
use crate::ir;
use crate::ir::{
    BasicBlock, BlockV, Condition, FunctionV, IrV, Item, Label, MemoryV, Op, OpV, RegSet, SizeMap,
    SourceVal, StaticMemory, Terminator, ValSize, VirtualReg, IR,
};
use crate::text;

verus! {

broadcast use vstd::std_specs::hash::group_hash_axioms;

/// A function while its blocks are built. `ok` tells whether everything that was needed was there:
/// once it does not hold, nothing else counts.
#[verifier::ext_equal]
pub struct Gen {
    pub blocks: Seq<BlockV>,
    pub vars: Map<Seq<char>, VirtualReg>,
    /// The position of each argument, by the number of its register.
    pub args: Map<u32, u32>,
    pub sizes: Map<VirtualReg, ValSize>,
    /// The place on the stack of each variable, by the number of its register.
    pub stack: Map<u32, u32>,
    pub stack_size: u32,
    pub vregs: u32,
    pub labels: u32,
    pub label: Label,
    pub ops: Seq<OpV>,
    pub decls: Seq<VirtualReg>,
    pub strings: Seq<Seq<char>>,
    pub mem: MemoryV,
    pub ok: bool,
}

/// The registers that the first `n` operations read or assign.
pub open spec fn regs_of_ops(ops: Seq<OpV>, n: nat) -> Set<VirtualReg>
    decreases n,
{
    if n == 0 {
        Set::empty()
    } else {
        regs_of_ops(ops, (n - 1) as nat).union(ops[n - 1].uses()).union(
            ir::set_of(ops[n - 1].assigns()),
        )
    }
}

/// The registers of a block that it does not declare itself.
pub open spec fn free_regs(t: Terminator, ops: Seq<OpV>, decls: Seq<VirtualReg>) -> Set<VirtualReg> {
    ir::set_of(t.used()).union(regs_of_ops(ops, ops.len())).difference(decls.to_set())
}

impl Gen {
    #[verifier::opaque]
    pub open spec fn checked(self, b: bool) -> Gen {
        Gen { ok: self.ok && b, ..self }
    }

    #[verifier::opaque]
    pub open spec fn op(self, op: Op) -> Gen {
        Gen { ops: self.ops.push(OpV::Plain(op)), ..self }
    }

    #[verifier::opaque]
    pub open spec fn declares(self, v: VirtualReg) -> Gen {
        Gen { decls: self.decls.push(v), ..self }
    }

    /// A register that was not used before.
    #[verifier::opaque]
    pub open spec fn fresh(self, size: ValSize) -> (VirtualReg, Gen) {
        let v = VirtualReg(self.vregs);
        if self.vregs < u32::MAX {
            (
                v,
                Gen {
                    vregs: (self.vregs + 1) as u32,
                    decls: self.decls.push(v),
                    sizes: self.sizes.insert(v, size),
                    ..self
                },
            )
        } else {
            (v, self.checked(false))
        }
    }

    /// A label that was not used before.
    #[verifier::opaque]
    pub open spec fn fresh_label(self) -> (Label, Gen) {
        let l = Label::Anon(self.labels);
        if self.labels < u32::MAX {
            (l, Gen { labels: (self.labels + 1) as u32, ..self })
        } else {
            (l, self.checked(false))
        }
    }

    /// A size that is needed.
    #[verifier::opaque]
    pub open spec fn sized(self, size: Option<ValSize>) -> (ValSize, Gen) {
        match size {
            Some(s) => (s, self),
            None => (ValSize::Doubleword, self.checked(false)),
        }
    }

    /// The wanted register, or a fresh one.
    #[verifier::opaque]
    pub open spec fn dest_or(self, dest: Option<VirtualReg>, size: Option<ValSize>) -> (
        VirtualReg,
        Gen,
    ) {
        match dest {
            Some(d) => (d, self),
            None => {
                let (s, g) = self.sized(size);
                g.fresh(s)
            },
        }
    }

    /// The value in a register.
    #[verifier::opaque]
    pub open spec fn reg_of(self, src: SourceVal) -> (VirtualReg, Gen) {
        match src {
            SourceVal::VReg(v) => (v, self),
            _ => {
                let (dest, g) = self.fresh(ValSize::Doubleword);
                (dest, g.op(Op::Assign { src, dest }))
            },
        }
    }

    /// The register of a variable.
    #[verifier::opaque]
    pub open spec fn var(self, name: Seq<char>) -> (VirtualReg, Gen) {
        if self.vars.contains_key(name) {
            (self.vars[name], self)
        } else {
            (VirtualReg(0), self.checked(false))
        }
    }

    /// The block ends, and one with the label `next` begins.
    #[verifier::opaque]
    pub open spec fn committed(self, terminator: Terminator, next: Label) -> Gen {
        Gen {
            blocks: self.blocks.push(
                BlockV {
                    label: self.label,
                    args: free_regs(terminator, self.ops, self.decls),
                    ops: self.ops,
                    decls: self.decls,
                    terminator,
                },
            ),
            label: next,
            ops: Seq::empty(),
            decls: Seq::empty(),
            ..self
        }
    }

    /// The register and the place on the stack of a variable, which gets both if it has none.
    #[verifier::opaque]
    pub open spec fn stack_var(self, name: Seq<char>, size: ValSize) -> (VirtualReg, u32, Gen) {
        let g = self.checked(!self.mem.allocs.contains_key(name));
        let (v, g) = if g.vars.contains_key(name) {
            (g.vars[name], g)
        } else {
            let (v, g) = g.fresh(size);
            (v, Gen { vars: g.vars.insert(name, v), ..g })
        };
        if g.stack.contains_key(v.0) {
            (v, g.stack[v.0], g)
        } else if g.stack_size + 8 <= u32::MAX {
            (
                v,
                g.stack_size,
                Gen {
                    stack: g.stack.insert(v.0, g.stack_size),
                    stack_size: (g.stack_size + 8) as u32,
                    ..g
                },
            )
        } else {
            (v, g.stack_size, g.checked(false))
        }
    }
}

/// The number of bytes of a type, if it is known.
pub open spec fn bytes_of(types: TypesV, t: TypeId) -> Option<u64> {
    if types.contains_key(t.0) {
        Some(types[t.0].size)
    } else {
        None
    }
}

/// The size of a type whose values are handled at once.
pub open spec fn size_of(types: TypesV, t: TypeId) -> Option<ValSize> {
    match bytes_of(types, t) {
        Some(b) => ir::val_size(b),
        None => None,
    }
}

pub open spec fn opt_size(types: TypesV, t: Option<TypeId>) -> Option<ValSize> {
    match t {
        Some(t) => size_of(types, t),
        None => None,
    }
}

/// Whether an expression has a type that is known.
pub open spec fn has_size(types: TypesV, t: Option<TypeId>) -> bool {
    t is Some && bytes_of(types, t->0) is Some
}

/// Loads a variable: from static memory, from the arguments or from the stack.
#[verifier::opaque]
pub open spec fn loaded(types: TypesV, g: Gen, var: Seq<char>, dest: VirtualReg) -> Gen {
    if g.mem.allocs.contains_key(var) {
        let (offset, typ) = g.mem.allocs[var];
        let (ptr, g) = g.fresh(ValSize::Doubleword);
        let g = g.op(Op::Assign { src: SourceVal::StaticMem(offset), dest: ptr });
        let (size, g) = g.sized(size_of(types, typ));
        g.op(Op::LoadPointer { ptr, size, dest })
    } else {
        let (v, g) = g.var(var);
        if g.args.contains_key(v.0) {
            g.op(Op::LoadArg { offset: g.args[v.0], dest })
        } else if g.stack.contains_key(v.0) {
            g.op(Op::Load { stack_offset: g.stack[v.0], dest })
        } else {
            g.checked(false)
        }
    }
}

/// The lower half of a number.
pub open spec fn low_half(n: u64) -> u32 {
    (n % 0x1_0000_0000) as u32
}

/// The operation that computes with two registers.
pub open spec fn arithmetic_op(op: ArithmeticOp, a: VirtualReg, b: VirtualReg, dest: VirtualReg) -> Op {
    match op {
        ArithmeticOp::Add => Op::Add { a, b, dest },
        ArithmeticOp::Sub => Op::Subtract { a, b, dest },
        ArithmeticOp::Mul => Op::Multiply { a, b, dest },
        ArithmeticOp::Div => Op::Divide { a, b, dest },
        ArithmeticOp::Mod => Op::Modulo { a, b, dest },
    }
}

/// The offset of a member, if the type is a struct that has it.
pub open spec fn offset_of(types: TypesV, t: Option<TypeId>, member: Seq<char>) -> Option<u64> {
    match t {
        None => None,
        Some(t) => match types::member_of(types, t, member) {
            Some(f) => Some(f.2),
            None => None,
        },
    }
}

/// Computes an expression, into `dest` if that can be wanted of it.
pub open spec fn flat(types: TypesV, g: Gen, expr: ExprV<TypeId>, dest: Option<VirtualReg>) -> (
    SourceVal,
    Gen,
)
    decreases expr, 0nat,
{
    let size = opt_size(types, expr.typ);
    let g = g.checked(has_size(types, expr.typ));
    match expr.inner {
        ExprInnerV::Const(n, _) => (SourceVal::Immediate(n), g),
        ExprInnerV::Character(c) => (SourceVal::Immediate(c as u64), g),
        ExprInnerV::String(s) => (
            SourceVal::String(ir::string_index(g.strings, s) as usize),
            Gen { strings: ir::with_string(g.strings, s), ..g },
        ),
        ExprInnerV::Bool(b) => (
            SourceVal::Immediate(
                if b {
                    1
                } else {
                    0
                },
            ),
            g,
        ),
        ExprInnerV::Ident(var) => {
            let (s, g) = g.sized(size);
            let (dest, g) = g.fresh(s);
            (SourceVal::VReg(dest), loaded(types, g, var, dest))
        },
        ExprInnerV::Pointer(var) => {
            let (val, g) = g.var(var);
            let (dest, g) = g.dest_or(dest, size);
            let g = if g.args.contains_key(val.0) {
                g.op(Op::AddressOfArg { offset: g.args[val.0], dest })
            } else {
                g.op(Op::AddressOf { val, dest })
            };
            (SourceVal::VReg(dest), g)
        },
        ExprInnerV::Deref(var, typ) => {
            let (ptr, g) = g.fresh(ValSize::Doubleword);
            let (dest, g) = g.dest_or(dest, size);
            let g = loaded(types, g, var, ptr);
            let (s, g) = g.sized(opt_size(types, typ));
            (SourceVal::VReg(dest), g.op(Op::LoadPointer { ptr, size: s, dest }))
        },
        ExprInnerV::Arithmetic(a, b, op, _) => {
            let (a, g) = flat(types, g, *a, None);
            let (b, g) = flat(types, g, *b, None);
            let (a, g) = g.reg_of(a);
            let (b, g) = g.reg_of(b);
            let (dest, g) = g.dest_or(dest, size);
            (SourceVal::VReg(dest), g.op(arithmetic_op(op, a, b, dest)))
        },
        ExprInnerV::Comparison(a, b, op, sign) => {
            let (a, g) = flat(types, g, *a, None);
            let (b, g) = flat(types, g, *b, None);
            let (a, g) = g.reg_of(a);
            let (b, g) = g.reg_of(b);
            let (dest, g) = g.dest_or(dest, size);
            let cond = ir::condition_of(op, sign == Some(Sign::Signed));
            (SourceVal::VReg(dest), g.op(Op::Compare { a, b, cond, dest }))
        },
        ExprInnerV::Logical(a, b, op) => {
            let (dest, g) = g.dest_or(dest, size);
            let (a, g) = flat(types, g, *a, None);
            let (a, g) = g.reg_of(a);
            let (second, g) = g.fresh_label();
            let (yes, g) = g.fresh_label();
            let (no, g) = g.fresh_label();
            let (end, g) = g.fresh_label();
            let g = g.committed(first_test(op, a, second, yes, no), second);
            let (b, g) = flat(types, g, *b, None);
            let (b, g) = g.reg_of(b);
            let g = g.committed(
                Terminator::BranchCond { cond: b, if_true: yes, if_false: no },
                yes,
            );
            let g = g.declares(dest).op(Op::Assign { src: SourceVal::Immediate(1), dest });
            let g = g.committed(Terminator::Branch { label: end }, no);
            let g = g.declares(dest).op(Op::Assign { src: SourceVal::Immediate(0), dest });
            (SourceVal::VReg(dest), g.committed(Terminator::Branch { label: end }, end))
        },
        ExprInnerV::Not(a) => {
            let (val, g) = flat(types, g, *a, dest);
            let (val, g) = g.reg_of(val);
            let (dest, g) = g.dest_or(dest, size);
            (SourceVal::VReg(dest), g.op(Op::Not { val, dest }))
        },
        ExprInnerV::Negate(a) => {
            let (val, g) = flat(types, g, *a, dest);
            let (val, g) = g.reg_of(val);
            let (dest, g) = g.dest_or(dest, size);
            (SourceVal::VReg(dest), g.op(Op::Negate { val, dest }))
        },
        ExprInnerV::Cast(a, _) => flat(types, g, *a, dest),
        ExprInnerV::Index { data, index, val_size } => {
            let (index, g) = flat(types, g, *index, None);
            let (b, g) = g.reg_of(index);
            let (data, g) = flat(types, g, *data, None);
            let (a, g) = g.reg_of(data);
            let (ptr, g) = g.fresh(ValSize::Doubleword);
            let (dest, g) = g.dest_or(dest, size);
            let g = g.op(Op::Add { a, b, dest: ptr });
            let (s, g) = g.sized(val_size);
            (SourceVal::VReg(dest), g.op(Op::LoadPointer { ptr, size: s, dest }))
        },
        ExprInnerV::MemberAccess(a, member, typ) => {
            let (parent, g) = flat(types, g, *a, None);
            let (base, g) = g.reg_of(parent);
            let offset = offset_of(types, typ, member);
            let g = g.checked(offset is Some);
            let (dest, g) = g.dest_or(dest, size);
            let offset = match offset {
                Some(o) => low_half(o),
                None => 0,
            };
            (SourceVal::VReg(dest), g.op(Op::LoadOffset { base, offset, dest }))
        },
        ExprInnerV::FnCall(f, args) => {
            let (args, g) = flat_args(types, g, args, 0, Seq::empty());
            let (dest, g) = if dest is None && size is Some {
                let (d, g) = g.fresh(size->0);
                (Some(d), g)
            } else {
                (dest, g)
            };
            match f {
                FnPtrV::Named(function) => (
                    match dest {
                        Some(d) => SourceVal::VReg(d),
                        None => SourceVal::Immediate(0),
                    },
                    Gen { ops: g.ops.push(OpV::Call { function, args, dest }), ..g },
                ),
                FnPtrV::Expr(_) => (SourceVal::Immediate(0), g.checked(false)),
            }
        },
        ExprInnerV::Construct { .. } => (SourceVal::Immediate(0), g.checked(false)),
        ExprInnerV::SizeOf(t) => match bytes_of(types, t) {
            Some(b) => (SourceVal::Immediate(b), g),
            None => (SourceVal::Immediate(0), g.checked(false)),
        },
    }
}

/// Where a logical operation goes behind its first operand.
pub open spec fn first_test(op: LogicalOp, cond: VirtualReg, second: Label, yes: Label, no: Label) -> Terminator {
    match op {
        LogicalOp::And => Terminator::BranchCond { cond, if_true: second, if_false: no },
        LogicalOp::Or => Terminator::BranchCond { cond, if_true: yes, if_false: second },
    }
}

/// Computes the arguments of a call from `i` on into registers, behind those in `done`.
pub open spec fn flat_args(
    types: TypesV,
    g: Gen,
    args: Seq<ExprV<TypeId>>,
    i: nat,
    done: Seq<VirtualReg>,
) -> (Seq<VirtualReg>, Gen)
    decreases args, args.len() - i,
{
    if i >= args.len() {
        (done, g)
    } else {
        let (src, g) = flat(types, g, args[i as int], None);
        let (v, g) = g.reg_of(src);
        flat_args(types, g, args, i + 1, done.push(v))
    }
}

/// The type that an expression points to.
pub open spec fn parent_struct(types: TypesV, t: Option<TypeId>) -> Option<TypeId> {
    if t is Some && types.contains_key((t->0).0) {
        types[(t->0).0].pointee()
    } else {
        None
    }
}

/// Assigns a computed value.
#[verifier::opaque]
pub open spec fn assigned(types: TypesV, g: Gen, var: AssignableV<TypeId>, src: SourceVal, size: ValSize) -> Gen {
    match var {
        AssignableV::Var(name) => if g.mem.allocs.contains_key(name) {
            let (offset, typ) = g.mem.allocs[name];
            let (ptr, g) = g.fresh(ValSize::Doubleword);
            let (src, g) = g.reg_of(src);
            let g = g.op(Op::Assign { src: SourceVal::StaticMem(offset), dest: ptr });
            let (size, g) = g.sized(size_of(types, typ));
            g.op(Op::StorePointer { src, ptr, size, offset: 0 })
        } else {
            let (dest, stack_offset, g) = g.stack_var(name, size);
            let g = g.op(Op::Assign { src, dest });
            g.op(Op::Store { src: SourceVal::VReg(dest), stack_offset })
        },
        AssignableV::Ptr(name, val_size) => {
            let (ptr, g) = g.var(name);
            let (src, g) = g.reg_of(src);
            let (size, g) = g.sized(val_size);
            g.op(Op::StorePointer { src, ptr, size, offset: 0 })
        },
        AssignableV::Index { data, index, val_size } => {
            let (index, g) = flat(types, g, index, None);
            let (b, g) = g.reg_of(index);
            let (data, g) = flat(types, g, data, None);
            let (a, g) = g.reg_of(data);
            let (ptr, g) = g.fresh(ValSize::Doubleword);
            let (src, g) = g.reg_of(src);
            let g = g.op(Op::Add { a, b, dest: ptr });
            let (size, g) = g.sized(val_size);
            g.op(Op::StorePointer { src, ptr, size, offset: 0 })
        },
        AssignableV::MemberAccess(parent, member) => {
            let offset = offset_of(types, parent_struct(types, parent.typ), member);
            let g = g.checked(offset is Some);
            let (parent, g) = flat(types, g, parent, None);
            let (ptr, g) = g.reg_of(parent);
            let (src, g) = g.reg_of(src);
            let offset = match offset {
                Some(o) => low_half(o),
                None => 0,
            };
            g.op(Op::StorePointer { src, ptr, size, offset })
        },
    }
}

/// Builds a statement. A declaration without a value is left out.
pub open spec fn built(types: TypesV, g: Gen, stmt: StmtV<TypeId>) -> Gen
    decreases stmt, 0nat,
{
    match stmt {
        StmtV::Declare { var, expr, .. } => {
            let g = g.checked(!g.vars.contains_key(var));
            if expr.typ == Some(types::primitive_id(Primitive::Unit)) {
                g
            } else {
                let (size, g) = g.sized(opt_size(types, expr.typ));
                let (dest, stack_offset, g) = g.stack_var(var, size);
                let (src, g) = flat(types, g, expr, Some(dest));
                let g = if src != SourceVal::VReg(dest) {
                    g.op(Op::Assign { src, dest }).declares(dest)
                } else {
                    g
                };
                g.op(Op::Store { src: SourceVal::VReg(dest), stack_offset })
            }
        },
        StmtV::Assign { var, expr, .. } => {
            let (size, g) = g.sized(opt_size(types, expr.typ));
            let (src, g) = flat(types, g, expr, None);
            assigned(types, g, var, src, size)
        },
        StmtV::Expr(expr) => flat(types, g, expr, None).1,
        StmtV::If { guard, body } => {
            let (cond, g) = flat(types, g, guard, None);
            let (cond, g) = g.reg_of(cond);
            let (if_true, g) = g.fresh_label();
            let (if_false, g) = g.fresh_label();
            let g = g.committed(Terminator::BranchCond { cond, if_true, if_false }, if_true);
            let g = built_all(types, g, body, 0);
            g.committed(Terminator::Branch { label: if_false }, if_false)
        },
        StmtV::Return(expr) => {
            let (value, g) = flat(types, g, expr, None);
            let (value, g) = g.reg_of(value);
            let (next, g) = g.fresh_label();
            g.committed(Terminator::Return { value }, next)
        },
        StmtV::WhileLoop { guard, body } => {
            let (test, g) = g.fresh_label();
            let (inside, g) = g.fresh_label();
            let (end, g) = g.fresh_label();
            let g = g.committed(Terminator::Branch { label: test }, test);
            let (cond, g) = flat(types, g, guard, None);
            let (cond, g) = g.reg_of(cond);
            let g = g.committed(
                Terminator::BranchCond { cond, if_true: inside, if_false: end },
                inside,
            );
            let g = built_all(types, g, body, 0);
            g.committed(Terminator::Branch { label: test }, end)
        },
    }
}

/// Builds the statements from `i` on.
pub open spec fn built_all(types: TypesV, g: Gen, stmts: Seq<StmtV<TypeId>>, i: nat) -> Gen
    decreases stmts, stmts.len() - i,
{
    if i >= stmts.len() {
        g
    } else {
        built_all(types, built(types, g, stmts[i as int]), stmts, i + 1)
    }
}

/// The first block from `i` on with a given label.
pub open spec fn block_with(blocks: Seq<BlockV>, label: Label, i: nat) -> Option<int>
    decreases blocks.len() - i,
{
    if i >= blocks.len() {
        None
    } else if blocks[i as int].label == label {
        Some(i as int)
    } else {
        block_with(blocks, label, i + 1)
    }
}

/// Block `i` can be followed by block `j`.
pub open spec fn follows(blocks: Seq<BlockV>, i: int, j: int) -> bool {
    exists|k: int|
        0 <= k < ir::successors_of(blocks[i].terminator).len() && block_with(
            blocks,
            #[trigger] ir::successors_of(blocks[i].terminator)[k],
            0,
        ) == Some(j)
}

/// A way through the blocks to one that needs a register, on which no earlier block declares it.
pub open spec fn is_way(blocks: Seq<BlockV>, v: VirtualReg, way: Seq<int>) -> bool {
    &&& way.len() > 0
    &&& forall|k: int| 0 <= k < way.len() ==> 0 <= #[trigger] way[k] < blocks.len()
    &&& forall|k: int|
        0 <= k < way.len() - 1 ==> follows(blocks, #[trigger] way[k], way[k + 1])
            && !blocks[way[k]].decls.contains(v)
    &&& blocks[way.last()].args.contains(v)
}

/// Block `i` needs a register: itself, or for a block behind it.
pub open spec fn needs(blocks: Seq<BlockV>, i: int, v: VirtualReg) -> bool {
    exists|way: Seq<int>| #[trigger] is_way(blocks, v, way) && way[0] == i
}

/// The blocks, each with all registers that it needs from its predecessors.
pub open spec fn settled(blocks: Seq<BlockV>) -> Seq<BlockV> {
    Seq::new(
        blocks.len(),
        |i: int| BlockV { args: Set::new(|v: VirtualReg| needs(blocks, i, v)), ..blocks[i] },
    )
}

/// The variables that the first `n` arguments are.
pub open spec fn arg_vars(args: Seq<(Seq<char>, VirtualReg)>, n: nat) -> Map<Seq<char>, VirtualReg>
    decreases n,
{
    if n == 0 {
        Map::empty()
    } else {
        arg_vars(args, (n - 1) as nat).insert(args[n - 1].0, args[n - 1].1)
    }
}

/// The positions of the first `n` arguments.
pub open spec fn arg_positions(args: Seq<(Seq<char>, VirtualReg)>, n: nat) -> Map<u32, u32>
    decreases n,
{
    if n == 0 {
        Map::empty()
    } else {
        arg_positions(args, (n - 1) as nat).insert(args[n - 1].1.0, (n - 1) as u32)
    }
}

/// A function of which nothing is built yet.
pub open spec fn unbuilt(args: Seq<(Seq<char>, VirtualReg)>, strings: Seq<Seq<char>>, mem: MemoryV) -> Gen {
    Gen {
        blocks: Seq::empty(),
        vars: arg_vars(args, args.len()),
        args: arg_positions(args, args.len()),
        sizes: Map::empty(),
        stack: Map::empty(),
        stack_size: 0,
        vregs: args.len() as u32,
        labels: 0,
        label: Label::Entry,
        ops: Seq::empty(),
        decls: Seq::empty(),
        strings,
        mem,
        ok: true,
    }
}

/// A function with its statements built, of which the last block ends it.
pub open spec fn finished(types: TypesV, g: Gen, stmts: Seq<StmtV<TypeId>>) -> Gen {
    built_all(types, g, stmts, 0).committed(Terminator::Branch { label: Label::End }, Label::End)
}

/// The arguments of a function: the first is in the first register, and so on.
pub open spec fn numbered(args: Seq<(Seq<char>, TypeId, Span)>) -> Seq<(Seq<char>, VirtualReg)> {
    Seq::new(args.len(), |i: int| (args[i].0, VirtualReg(i as u32)))
}

pub open spec fn arg_regs(n: nat) -> Seq<VirtualReg> {
    Seq::new(n, |i: int| VirtualReg(i as u32))
}

/// A program with one more function. `None` if something that the function needs is not there.
pub open spec fn with_function(types: TypesV, program: IrV, def: FnDefV<TypeId>, name: Seq<char>) -> Option<
    IrV,
> {
    let g = finished(types, unbuilt(numbered(def.args), program.strings, program.mem), def.body);
    if def.args.len() <= u32::MAX && g.ok {
        Some(
            IrV {
                items: program.items.push(
                    FunctionV {
                        name,
                        args: arg_regs(def.args.len()),
                        stack: g.stack,
                        stack_size: g.stack_size,
                        sizes: g.sizes,
                        body: settled(g.blocks),
                    },
                ),
                strings: g.strings,
                ..program
            },
        )
    } else {
        None
    }
}

/// A program with the functions of an implementation from `i` on.
pub open spec fn with_methods(
    types: TypesV,
    program: IrV,
    struct_name: Seq<char>,
    defs: Seq<FnDefV<TypeId>>,
    i: nat,
) -> Option<IrV>
    decreases defs.len() - i,
{
    if i >= defs.len() {
        Some(program)
    } else {
        let def = defs[i as int];
        match with_function(types, program, def, text::path_of(struct_name, def.name)) {
            None => None,
            Some(p) => with_methods(types, p, struct_name, defs, i + 1),
        }
    }
}

/// A program with one more item. A memory segment takes memory.
pub open spec fn with_item(types: TypesV, program: IrV, item: ast::ItemV<TypeId>) -> Option<IrV> {
    match item {
        ast::ItemV::Function(def) => with_function(types, program, def, def.name),
        ast::ItemV::Impl { struct_name, functions } => with_methods(
            types,
            program,
            struct_name,
            functions,
            0,
        ),
        ast::ItemV::MemorySegment { name, typ } => match bytes_of(types, typ) {
            Some(size) => if program.mem.size + size <= u64::MAX {
                Some(IrV { mem: program.mem.with(name, typ, size), ..program })
            } else {
                None
            },
            None => None,
        },
        _ => Some(program),
    }
}

/// A program with the items from `i` on.
pub open spec fn with_items(types: TypesV, program: IrV, items: Seq<ast::ItemV<TypeId>>, i: nat) -> Option<
    IrV,
>
    decreases items.len() - i,
{
    if i >= items.len() {
        Some(program)
    } else {
        match with_item(types, program, items[i as int]) {
            None => None,
            Some(p) => with_items(types, p, items, i + 1),
        }
    }
}

/// The program that a checked tree is turned into. `None` if something that it needs is not there.
pub open spec fn generated(tree: AstV<TypeId>, types: TypesV) -> Option<IrV> {
    with_items(
        types,
        IrV { items: Seq::empty(), strings: Seq::empty(), mem: MemoryV::empty() },
        tree.items,
        0,
    )
}

/// Builds the blocks of a function.
pub struct BlockBuilder<'a> {
    types: &'a TypeMap,
    mem: &'a StaticMemory,
    strings: Vec<String>,
    blocks: Vec<BasicBlock>,
    vars: StringHashMap<VirtualReg>,
    args: HashMap<u32, u32>,
    sizes: SizeMap,
    stack: HashMap<u32, u32>,
    stack_size: u32,
    vregs: u32,
    labels: u32,
    label: Label,
    ops: Vec<Op>,
    decls: Vec<VirtualReg>,
    ok: bool,
}

/// The blocks of a function, the places of its variables on the stack, the sizes of its registers,
/// and all strings of the program so far.
pub struct Built {
    pub blocks: Vec<BasicBlock>,
    pub stack: HashMap<u32, u32>,
    pub stack_size: u32,
    pub size_map: SizeMap,
    pub strings: Vec<String>,
}

/// Named registers.
pub open spec fn named_regs(v: Seq<(String, VirtualReg)>) -> Seq<(Seq<char>, VirtualReg)> {
    v.map_values(|a: (String, VirtualReg)| (a.0@, a.1))
}

impl<'a> BlockBuilder<'a> {
    #[verifier::opaque]
    pub closed spec fn g(self) -> Gen {
        Gen {
            blocks: ir::block_views(self.blocks@),
            vars: self.vars@,
            args: self.args@,
            sizes: self.sizes@,
            stack: self.stack@,
            stack_size: self.stack_size,
            vregs: self.vregs,
            labels: self.labels,
            label: self.label,
            ops: ir::op_views(self.ops@),
            decls: self.decls@,
            strings: text::all_chars(self.strings@),
            mem: self.mem@,
            ok: self.ok,
        }
    }

    pub closed spec fn wf(self) -> bool {
        self.sizes.next_reg() == self.vregs
    }

    pub closed spec fn known_types(self) -> TypesV {
        self.types@
    }

    spec fn kept(self, other: Self) -> bool {
        self.wf() && self.types == other.types
    }

    /// Begins a function with the given arguments.
    pub fn new(
        analyzer: &'a Analyzer,
        mem: &'a StaticMemory,
        strings: Vec<String>,
        initial_args: &Vec<(String, VirtualReg)>,
    ) -> (r: BlockBuilder<'a>)
        requires
            initial_args@.len() <= u32::MAX,
        ensures
            r.wf(),
            r.known_types() == analyzer.known_types(),
            r.g() == unbuilt(named_regs(initial_args@), text::all_chars(strings@), mem@),
    {
        proof {
            reveal(BlockBuilder::g);
        }
        let n: u32 = initial_args.len() as u32;
        let ghost named = named_regs(initial_args@);
        let mut vars: StringHashMap<VirtualReg> = StringHashMap::new();
        let mut args: HashMap<u32, u32> = HashMap::new();
        let mut i: u32 = 0;
        while i < n
            invariant
                i <= n,
                n == initial_args@.len(),
                named == named_regs(initial_args@),
                vars@ == arg_vars(named, i as nat),
                args@ == arg_positions(named, i as nat),
            decreases n - i,
        {
            let arg = &initial_args[i as usize];
            proof {
                assert(named[i as int] == (arg.0@, arg.1));
            }
            vars.insert(arg.0.clone(), arg.1);
            args.insert(arg.1.0, i);
            i = i + 1;
        }
        let r = BlockBuilder {
            types: analyzer.type_map(),
            mem,
            strings,
            blocks: Vec::new(),
            vars,
            args,
            sizes: SizeMap::new(n),
            stack: HashMap::new(),
            stack_size: 0,
            vregs: n,
            labels: 0,
            label: Label::Entry,
            ops: Vec::new(),
            decls: Vec::new(),
            ok: true,
        };
        proof {
            assert(r.g() =~= unbuilt(named, text::all_chars(strings@), mem@));
        }
        r
    }

    fn check(&mut self, b: bool)
        requires
            old(self).wf(),
        ensures
            final(self).kept(*old(self)),
            final(self).g() == old(self).g().checked(b),
    {
        proof {
            reveal(BlockBuilder::g);
            reveal(Gen::checked);
        }
        self.ok = self.ok && b;
    }

    fn push_op(&mut self, op: Op)
        requires
            old(self).wf(),
        ensures
            final(self).kept(*old(self)),
            final(self).g() == (Gen { ops: old(self).g().ops.push(op@), ..old(self).g() }),
            !(op is Call) ==> final(self).g() == old(self).g().op(op),
    {
        proof {
            reveal(BlockBuilder::g);
            reveal(Gen::op);
        }
        self.ops.push(op);
        proof {
            assert(self.g() =~= (Gen { ops: old(self).g().ops.push(op@), ..old(self).g() }));
        }
    }

    fn declare(&mut self, vreg: VirtualReg)
        requires
            old(self).wf(),
        ensures
            final(self).kept(*old(self)),
            final(self).g() == old(self).g().declares(vreg),
    {
        proof {
            reveal(BlockBuilder::g);
            reveal(Gen::declares);
        }
        self.decls.push(vreg);
    }

    fn get_vreg(&mut self, size: ValSize) -> (r: VirtualReg)
        requires
            old(self).wf(),
        ensures
            final(self).kept(*old(self)),
            old(self).g().fresh(size) == (r, final(self).g()),
    {
        proof {
            reveal(BlockBuilder::g);
            reveal(Gen::fresh);
            reveal(Gen::checked);
        }
        let vreg = VirtualReg(self.vregs);
        if self.vregs < u32::MAX {
            self.vregs = self.vregs + 1;
            self.decls.push(vreg);
            self.sizes.push(size);
            proof {
                assert(self.g() =~= old(self).g().fresh(size).1);
            }
        } else {
            self.ok = false;
        }
        vreg
    }

    fn next_label(&mut self) -> (r: Label)
        requires
            old(self).wf(),
        ensures
            final(self).kept(*old(self)),
            old(self).g().fresh_label() == (r, final(self).g()),
    {
        proof {
            reveal(BlockBuilder::g);
            reveal(Gen::fresh_label);
            reveal(Gen::checked);
        }
        let label = Label::Anon(self.labels);
        if self.labels < u32::MAX {
            self.labels = self.labels + 1;
        } else {
            self.ok = false;
        }
        label
    }

    fn need_size(&mut self, size: Option<ValSize>) -> (r: ValSize)
        requires
            old(self).wf(),
        ensures
            final(self).kept(*old(self)),
            old(self).g().sized(size) == (r, final(self).g()),
    {
        proof {
            reveal(BlockBuilder::g);
            reveal(Gen::sized);
            reveal(Gen::checked);
        }
        match size {
            Some(s) => s,
            None => {
                self.ok = false;
                ValSize::Doubleword
            },
        }
    }

    fn dest_or(&mut self, dest: Option<VirtualReg>, size: Option<ValSize>) -> (r: VirtualReg)
        requires
            old(self).wf(),
        ensures
            final(self).kept(*old(self)),
            old(self).g().dest_or(dest, size) == (r, final(self).g()),
    {
        proof {
            reveal(Gen::dest_or);
        }
        match dest {
            Some(d) => d,
            None => {
                let s = self.need_size(size);
                self.get_vreg(s)
            },
        }
    }

    fn src_to_vreg(&mut self, src: SourceVal) -> (r: VirtualReg)
        requires
            old(self).wf(),
        ensures
            final(self).kept(*old(self)),
            old(self).g().reg_of(src) == (r, final(self).g()),
    {
        proof {
            reveal(Gen::reg_of);
            reveal(Gen::op);
        }
        match src {
            SourceVal::VReg(vreg) => vreg,
            _ => {
                let dest = self.get_vreg(ValSize::Doubleword);
                self.push_op(Op::Assign { src, dest });
                dest
            },
        }
    }

    fn var_reg(&mut self, var: &str) -> (r: VirtualReg)
        requires
            old(self).wf(),
        ensures
            final(self).kept(*old(self)),
            old(self).g().var(var@) == (r, final(self).g()),
    {
        proof {
            reveal(BlockBuilder::g);
            reveal(Gen::var);
            reveal(Gen::checked);
        }
        match self.vars.get(var) {
            Some(v) => *v,
            None => {
                self.ok = false;
                VirtualReg(0)
            },
        }
    }

    fn commit_block(&mut self, terminator: Terminator, new_label: Label)
        requires
            old(self).wf(),
        ensures
            final(self).kept(*old(self)),
            final(self).g() == old(self).g().committed(terminator, new_label),
    {
        proof {
            reveal(BlockBuilder::g);
            reveal(Gen::committed);
        }
        let mut regs = RegSet::new();
        regs.insert_opt(terminator.vreg_used());
        let ghost views = ir::op_views(self.ops@);
        let ghost used = ir::set_of(terminator.used());
        proof {
            assert(regs@ =~= used.union(regs_of_ops(views, 0)));
        }
        let mut i: usize = 0;
        while i < self.ops.len()
            invariant
                i <= self.ops.len(),
                *self == *old(self),
                views == ir::op_views(self.ops@),
                regs.wf(),
                regs@ == used.union(regs_of_ops(views, i as nat)),
            decreases self.ops.len() - i,
        {
            let ghost before = regs@;
            proof {
                assert(views[i as int] == self.ops@[i as int]@);
            }
            let (uses, assigned) = self.ops[i].vregs_used();
            regs.insert_all(&uses.list);
            regs.insert_opt(assigned);
            proof {
                assert(regs@ =~= used.union(regs_of_ops(views, (i + 1) as nat)));
            }
            i = i + 1;
        }
        let mut args = RegSet::new();
        let mut i: usize = 0;
        while i < regs.list.len()
            invariant
                i <= regs.list.len(),
                *self == *old(self),
                args.wf(),
                forall|v: VirtualReg| #[trigger]
                    args@.contains(v) <==> regs.list@.subrange(0, i as int).contains(v)
                        && !self.decls@.contains(v),
            decreases regs.list.len() - i,
        {
            let vreg = regs.list[i];
            let ghost before = regs.list@.subrange(0, i as int);
            let ghost now = regs.list@.subrange(0, i + 1);
            let ghost args0 = args@;
            if !ir::contains_reg(&self.decls, vreg) {
                args.insert(vreg);
            }
            proof {
                assert(now =~= before.push(vreg));
                ir::lemma_push_to_set(before, vreg);
                assert forall|v: VirtualReg| #[trigger]
                    args@.contains(v) <==> now.contains(v) && !self.decls@.contains(v) by {
                    assert(now.contains(v) <==> now.to_set().contains(v));
                    assert(before.contains(v) <==> before.to_set().contains(v));
                }
            }
            i = i + 1;
        }
        proof {
            assert(regs.list@.subrange(0, i as int) =~= regs.list@);
            assert(args@ =~= free_regs(terminator, views, self.decls@));
        }
        let label = self.label;
        self.label = new_label;
        let mut ops: Vec<Op> = Vec::new();
        std::mem::swap(&mut ops, &mut self.ops);
        let mut decls: Vec<VirtualReg> = Vec::new();
        std::mem::swap(&mut decls, &mut self.decls);
        self.blocks.push(BasicBlock { label, args, ops, decls, terminator });
        proof {
            assert(self.g() =~= old(self).g().committed(terminator, new_label));
        }
    }

    fn get_or_insert_stack_var(&mut self, var: &String, size: ValSize) -> (r: (VirtualReg, u32))
        requires
            old(self).wf(),
        ensures
            final(self).kept(*old(self)),
            old(self).g().stack_var(var@, size) == (r.0, r.1, final(self).g()),
    {
        proof {
            reveal(BlockBuilder::g);
            reveal(Gen::stack_var);
            reveal(Gen::checked);
        }
        let known = self.mem.get(var.as_str()).is_some();
        self.check(!known);
        let found = match self.vars.get(var.as_str()) {
            Some(v) => Some(*v),
            None => None,
        };
        let vreg = match found {
            Some(v) => v,
            None => {
                let v = self.get_vreg(size);
                self.vars.insert(var.clone(), v);
                v
            },
        };
        let found = match self.stack.get(&vreg.0) {
            Some(offset) => Some(*offset),
            None => None,
        };
        match found {
            Some(offset) => (vreg, offset),
            None => {
                let offset = self.stack_size;
                if self.stack_size <= u32::MAX - 8 {
                    self.stack.insert(vreg.0, offset);
                    self.stack_size = self.stack_size + 8;
                } else {
                    self.ok = false;
                }
                (vreg, offset)
            },
        }
    }

    fn type_size(&self, typ: Option<TypeId>) -> (r: Option<ValSize>)
        ensures
            r == opt_size(self.known_types(), typ),
    {
        match typ {
            None => None,
            Some(t) => match self.types.find(t) {
                Some(info) => ValSize::from_bytes(info.size),
                None => None,
            },
        }
    }

    fn memory_place(&self, var: &str) -> (r: Option<(u64, TypeId)>)
        ensures
            r == if self.g().mem.allocs.contains_key(var@) {
                Some(self.g().mem.allocs[var@])
            } else {
                None
            },
    {
        proof {
            reveal(BlockBuilder::g);
        }
        match self.mem.get(var) {
            Some(place) => Some(*place),
            None => None,
        }
    }

    fn arg_position(&self, vreg: VirtualReg) -> (r: Option<u32>)
        ensures
            r == if self.g().args.contains_key(vreg.0) {
                Some(self.g().args[vreg.0])
            } else {
                None
            },
    {
        proof {
            reveal(BlockBuilder::g);
        }
        match self.args.get(&vreg.0) {
            Some(offset) => Some(*offset),
            None => None,
        }
    }

    fn stack_place(&self, vreg: VirtualReg) -> (r: Option<u32>)
        ensures
            r == if self.g().stack.contains_key(vreg.0) {
                Some(self.g().stack[vreg.0])
            } else {
                None
            },
    {
        proof {
            reveal(BlockBuilder::g);
        }
        match self.stack.get(&vreg.0) {
            Some(offset) => Some(*offset),
            None => None,
        }
    }

    fn has_var(&self, var: &str) -> (r: bool)
        ensures
            r == self.g().vars.contains_key(var@),
    {
        proof {
            reveal(BlockBuilder::g);
        }
        self.vars.contains_key(var)
    }

    fn string_id(&mut self, string: &str) -> (r: usize)
        requires
            old(self).wf(),
        ensures
            final(self).kept(*old(self)),
            r == ir::string_index(old(self).g().strings, string@),
            final(self).g() == (Gen {
                strings: ir::with_string(old(self).g().strings, string@),
                ..old(self).g()
            }),
    {
        proof {
            reveal(BlockBuilder::g);
        }
        ir::insert_string(&mut self.strings, string)
    }

    fn byte_size(&self, typ: TypeId) -> (r: Option<u64>)
        ensures
            r == bytes_of(self.known_types(), typ),
    {
        match self.types.find(typ) {
            Some(info) => Some(info.size),
            None => None,
        }
    }

    fn load_var(&mut self, var: &str, dest: VirtualReg)
        requires
            old(self).wf(),
        ensures
            final(self).kept(*old(self)),
            final(self).g() == loaded(old(self).known_types(), old(self).g(), var@, dest),
    {
        proof {
            reveal(loaded);
        }
        match self.memory_place(var) {
            Some((offset, typeid)) => {
                let ptr = self.get_vreg(ValSize::Doubleword);
                self.push_op(Op::Assign { src: SourceVal::StaticMem(offset), dest: ptr });
                let size = self.type_size(Some(typeid));
                let size = self.need_size(size);
                self.push_op(Op::LoadPointer { ptr, size, dest });
            },
            None => {
                let vreg = self.var_reg(var);
                if let Some(offset) = self.arg_position(vreg) {
                    self.push_op(Op::LoadArg { offset, dest });
                } else {
                    match self.stack_place(vreg) {
                        Some(stack_offset) => self.push_op(Op::Load { stack_offset, dest }),
                        None => self.check(false),
                    }
                }
            },
        }
    }

    fn member_offset(&self, typ: Option<TypeId>, member: &str) -> (r: Option<u64>)
        ensures
            r == offset_of(self.known_types(), typ, member@),
    {
        match typ {
            None => None,
            Some(t) => self.types.offset_of_member(t, member),
        }
    }

    fn flatten_expr(&mut self, expr: &Expression<TypeId>, dest: Option<VirtualReg>) -> (r: SourceVal)
        requires
            old(self).wf(),
        ensures
            final(self).kept(*old(self)),
            flat(old(self).known_types(), old(self).g(), expr.view(), dest) == (r, final(self).g()),
        decreases expr, 0nat,
    {
        let size = self.type_size(expr.typ);
        let known = match expr.typ {
            Some(t) => self.byte_size(t).is_some(),
            None => false,
        };
        self.check(known);
        match &expr.inner {
            ExprInner::Const(num, _) => SourceVal::Immediate(*num),
            ExprInner::Character(c) => SourceVal::Immediate(*c as u64),
            ExprInner::String(string) => {
                let id = self.string_id(string.as_str());
                SourceVal::String(id)
            },
            ExprInner::Bool(b) => SourceVal::Immediate(
                if *b {
                    1
                } else {
                    0
                },
            ),
            ExprInner::Ident(var) => {
                let size = self.need_size(size);
                let dest = self.get_vreg(size);
                self.load_var(var.as_str(), dest);
                SourceVal::VReg(dest)
            },
            ExprInner::Pointer(var) => {
                let val = self.var_reg(var.as_str());
                let dest = self.dest_or(dest, size);
                match self.arg_position(val) {
                    Some(offset) => self.push_op(Op::AddressOfArg { offset, dest }),
                    None => self.push_op(Op::AddressOf { val, dest }),
                }
                SourceVal::VReg(dest)
            },
            ExprInner::Deref(var, typ) => {
                let ptr = self.get_vreg(ValSize::Doubleword);
                let dest = self.dest_or(dest, size);
                self.load_var(var.as_str(), ptr);
                let size = self.type_size(*typ);
                let size = self.need_size(size);
                self.push_op(Op::LoadPointer { ptr, size, dest });
                SourceVal::VReg(dest)
            },
            ExprInner::Arithmetic(a, b, op, _) => {
                let a = self.flatten_expr(a, None);
                let b = self.flatten_expr(b, None);
                let a = self.src_to_vreg(a);
                let b = self.src_to_vreg(b);
                let dest = self.dest_or(dest, size);
                match op {
                    ArithmeticOp::Add => self.push_op(Op::Add { a, b, dest }),
                    ArithmeticOp::Sub => self.push_op(Op::Subtract { a, b, dest }),
                    ArithmeticOp::Mul => self.push_op(Op::Multiply { a, b, dest }),
                    ArithmeticOp::Div => self.push_op(Op::Divide { a, b, dest }),
                    ArithmeticOp::Mod => self.push_op(Op::Modulo { a, b, dest }),
                }
                SourceVal::VReg(dest)
            },
            ExprInner::Comparison(a, b, op, sign) => {
                let a = self.flatten_expr(a, None);
                let b = self.flatten_expr(b, None);
                let a = self.src_to_vreg(a);
                let b = self.src_to_vreg(b);
                let dest = self.dest_or(dest, size);
                let signed = match sign {
                    Some(Sign::Signed) => true,
                    _ => false,
                };
                let cond = Condition::from_ast_op(*op, signed);
                self.push_op(Op::Compare { a, b, cond, dest });
                SourceVal::VReg(dest)
            },
            ExprInner::Logical(a, b, op) => {
                let dest = self.dest_or(dest, size);
                let a = self.flatten_expr(a, None);
                let cond = self.src_to_vreg(a);
                let second = self.next_label();
                let yes = self.next_label();
                let no = self.next_label();
                let end = self.next_label();
                let test = match op {
                    LogicalOp::And => Terminator::BranchCond { cond, if_true: second, if_false: no },
                    LogicalOp::Or => Terminator::BranchCond { cond, if_true: yes, if_false: second },
                };
                self.commit_block(test, second);
                let b = self.flatten_expr(b, None);
                let cond = self.src_to_vreg(b);
                self.commit_block(
                    Terminator::BranchCond { cond, if_true: yes, if_false: no },
                    yes,
                );
                self.declare(dest);
                self.push_op(Op::Assign { src: SourceVal::Immediate(1), dest });
                self.commit_block(Terminator::Branch { label: end }, no);
                self.declare(dest);
                self.push_op(Op::Assign { src: SourceVal::Immediate(0), dest });
                self.commit_block(Terminator::Branch { label: end }, end);
                SourceVal::VReg(dest)
            },
            ExprInner::Not(a) => {
                let val = self.flatten_expr(a, dest);
                let val = self.src_to_vreg(val);
                let dest = self.dest_or(dest, size);
                self.push_op(Op::Not { val, dest });
                SourceVal::VReg(dest)
            },
            ExprInner::Negate(a) => {
                let val = self.flatten_expr(a, dest);
                let val = self.src_to_vreg(val);
                let dest = self.dest_or(dest, size);
                self.push_op(Op::Negate { val, dest });
                SourceVal::VReg(dest)
            },
            ExprInner::Cast(a, _) => self.flatten_expr(a, dest),
            ExprInner::Index { data, index, val_size } => {
                let index = self.flatten_expr(index, None);
                let b = self.src_to_vreg(index);
                let data = self.flatten_expr(data, None);
                let a = self.src_to_vreg(data);
                let ptr = self.get_vreg(ValSize::Doubleword);
                let dest = self.dest_or(dest, size);
                self.push_op(Op::Add { a, b, dest: ptr });
                let size = self.need_size(*val_size);
                self.push_op(Op::LoadPointer { ptr, size, dest });
                SourceVal::VReg(dest)
            },
            ExprInner::MemberAccess(a, member, typ) => {
                let parent = self.flatten_expr(a, None);
                let base = self.src_to_vreg(parent);
                let found = self.member_offset(*typ, member.as_str());
                self.check(found.is_some());
                let dest = self.dest_or(dest, size);
                let offset: u32 = match found {
                    Some(o) => (o % 0x1_0000_0000) as u32,
                    None => 0,
                };
                self.push_op(Op::LoadOffset { base, offset, dest });
                SourceVal::VReg(dest)
            },
            ExprInner::FnCall(f, args) => {
                proof {
                    assert(expr.inner.view()->FnCall_1 =~= ast::expr_views(args@));
                }
                let args = self.flatten_args(args);
                let dest = match dest {
                    Some(d) => Some(d),
                    None => match size {
                        Some(s) => Some(self.get_vreg(s)),
                        None => None,
                    },
                };
                match f {
                    FnPtr::Named(function) => {
                        self.push_op(Op::Call { function: function.clone(), args, dest });
                        match dest {
                            Some(d) => SourceVal::VReg(d),
                            None => SourceVal::Immediate(0),
                        }
                    },
                    FnPtr::Expr(_) => {
                        self.check(false);
                        SourceVal::Immediate(0)
                    },
                }
            },
            ExprInner::Construct { .. } => {
                self.check(false);
                SourceVal::Immediate(0)
            },
            ExprInner::SizeOf(t) => match self.byte_size(*t) {
                Some(bytes) => SourceVal::Immediate(bytes),
                None => {
                    self.check(false);
                    SourceVal::Immediate(0)
                },
            },
        }
    }

    fn flatten_args(&mut self, args: &Vec<Expression<TypeId>>) -> (r: Vec<VirtualReg>)
        requires
            old(self).wf(),
        ensures
            final(self).kept(*old(self)),
            flat_args(
                old(self).known_types(),
                old(self).g(),
                ast::expr_views(args@),
                0,
                Seq::empty(),
            ) == (r@, final(self).g()),
        decreases args, 0nat,
    {
        let mut done: Vec<VirtualReg> = Vec::new();
        let mut i: usize = 0;
        while i < args.len()
            invariant
                i <= args.len(),
                self.kept(*old(self)),
                flat_args(
                    old(self).known_types(),
                    self.g(),
                    ast::expr_views(args@),
                    i as nat,
                    done@,
                ) == flat_args(
                    old(self).known_types(),
                    old(self).g(),
                    ast::expr_views(args@),
                    0,
                    Seq::empty(),
                ),
            decreases args.len() - i,
        {
            let src = self.flatten_expr(&args[i], None);
            let vreg = self.src_to_vreg(src);
            done.push(vreg);
            i = i + 1;
        }
        done
    }

    fn assign(&mut self, var: &Assignable<TypeId>, src: SourceVal, size: ValSize)
        requires
            old(self).wf(),
        ensures
            final(self).kept(*old(self)),
            final(self).g() == assigned(
                old(self).known_types(),
                old(self).g(),
                var.view(),
                src,
                size,
            ),
    {
        proof {
            reveal(assigned);
        }
        match var {
            Assignable::Var(name) => {
                match self.memory_place(name.as_str()) {
                    Some((offset, typeid)) => {
                        let ptr = self.get_vreg(ValSize::Doubleword);
                        let src = self.src_to_vreg(src);
                        self.push_op(Op::Assign { src: SourceVal::StaticMem(offset), dest: ptr });
                        let size = self.type_size(Some(typeid));
                        let size = self.need_size(size);
                        self.push_op(Op::StorePointer { src, ptr, size, offset: 0 });
                    },
                    None => {
                        let (dest, stack_offset) = self.get_or_insert_stack_var(name, size);
                        self.push_op(Op::Assign { src, dest });
                        self.push_op(Op::Store { src: SourceVal::VReg(dest), stack_offset });
                    },
                }
            },
            Assignable::Ptr(name, val_size) => {
                let ptr = self.var_reg(name.as_str());
                let src = self.src_to_vreg(src);
                let size = self.need_size(*val_size);
                self.push_op(Op::StorePointer { src, ptr, size, offset: 0 });
            },
            Assignable::Index { data, index, val_size } => {
                let index = self.flatten_expr(index, None);
                let b = self.src_to_vreg(index);
                let data = self.flatten_expr(data, None);
                let a = self.src_to_vreg(data);
                let ptr = self.get_vreg(ValSize::Doubleword);
                let src = self.src_to_vreg(src);
                self.push_op(Op::Add { a, b, dest: ptr });
                let size = self.need_size(*val_size);
                self.push_op(Op::StorePointer { src, ptr, size, offset: 0 });
            },
            Assignable::MemberAccess(parent, member) => {
                let value = match parent.typ {
                    Some(t) => match self.types.find(t) {
                        Some(info) => info.deref_type(),
                        None => None,
                    },
                    None => None,
                };
                let found = self.member_offset(value, member.as_str());
                self.check(found.is_some());
                let parent = self.flatten_expr(parent, None);
                let ptr = self.src_to_vreg(parent);
                let src = self.src_to_vreg(src);
                let offset: u32 = match found {
                    Some(o) => (o % 0x1_0000_0000) as u32,
                    None => 0,
                };
                self.push_op(Op::StorePointer { src, ptr, size, offset });
            },
        }
    }

    fn build_stmt(&mut self, stmt: &Statement<TypeId>)
        requires
            old(self).wf(),
        ensures
            final(self).kept(*old(self)),
            final(self).g() == built(old(self).known_types(), old(self).g(), stmt.view()),
        decreases stmt, 0nat,
    {
        match stmt {
            Statement::Declare { var, expr, .. } => {
                let known = self.has_var(var.as_str());
                self.check(!known);
                if let Some(t) = expr.typ {
                    if t == TypeId::unit() {
                        return;
                    }
                }
                let size = self.type_size(expr.typ);
                let size = self.need_size(size);
                let (dest, stack_offset) = self.get_or_insert_stack_var(var, size);
                let src = self.flatten_expr(expr, Some(dest));
                if src != SourceVal::VReg(dest) {
                    self.push_op(Op::Assign { src, dest });
                    self.declare(dest);
                }
                self.push_op(Op::Store { src: SourceVal::VReg(dest), stack_offset });
            },
            Statement::Assign { var, expr, .. } => {
                let size = self.type_size(expr.typ);
                let size = self.need_size(size);
                let src = self.flatten_expr(expr, None);
                self.assign(var, src, size);
            },
            Statement::Expr(expr) => {
                self.flatten_expr(expr, None);
            },
            Statement::If { guard, body } => {
                let cond = self.flatten_expr(guard, None);
                let cond = self.src_to_vreg(cond);
                let if_true = self.next_label();
                let if_false = self.next_label();
                self.commit_block(Terminator::BranchCond { cond, if_true, if_false }, if_true);
                proof {
                    assert(stmt.view()->If_body =~= ast::stmt_views(body@));
                }
                self.consume(body);
                self.commit_block(Terminator::Branch { label: if_false }, if_false);
            },
            Statement::Return(expr) => {
                let value = self.flatten_expr(expr, None);
                let value = self.src_to_vreg(value);
                let next = self.next_label();
                self.commit_block(Terminator::Return { value }, next);
            },
            Statement::WhileLoop { guard, body } => {
                let test = self.next_label();
                let inside = self.next_label();
                let end = self.next_label();
                self.commit_block(Terminator::Branch { label: test }, test);
                let cond = self.flatten_expr(guard, None);
                let cond = self.src_to_vreg(cond);
                self.commit_block(
                    Terminator::BranchCond { cond, if_true: inside, if_false: end },
                    inside,
                );
                proof {
                    assert(stmt.view()->WhileLoop_body =~= ast::stmt_views(body@));
                }
                self.consume(body);
                self.commit_block(Terminator::Branch { label: test }, end);
            },
        }
    }

    fn consume(&mut self, block: &Vec<Statement<TypeId>>)
        requires
            old(self).wf(),
        ensures
            final(self).kept(*old(self)),
            final(self).g() == built_all(
                old(self).known_types(),
                old(self).g(),
                ast::stmt_views(block@),
                0,
            ),
        decreases block, 0nat,
    {
        let mut i: usize = 0;
        while i < block.len()
            invariant
                i <= block.len(),
                self.kept(*old(self)),
                built_all(
                    old(self).known_types(),
                    self.g(),
                    ast::stmt_views(block@),
                    i as nat,
                ) == built_all(
                    old(self).known_types(),
                    old(self).g(),
                    ast::stmt_views(block@),
                    0,
                ),
            decreases block.len() - i,
        {
            self.build_stmt(&block[i]);
            i = i + 1;
        }
    }

    /// Builds the blocks of a function from its statements.
    pub fn build(self, block: &Vec<Statement<TypeId>>) -> (r: Built)
        requires
            self.wf(),
            finished(self.known_types(), self.g(), ast::stmt_views(block@)).ok,
        ensures
            is_built(finished(self.known_types(), self.g(), ast::stmt_views(block@)), r),
    {
        match self.try_build(block) {
            Some(r) => r,
            None => Built {
                blocks: Vec::new(),
                stack: HashMap::new(),
                stack_size: 0,
                size_map: SizeMap::new(0),
                strings: Vec::new(),
            },
        }
    }

    /// As [`BlockBuilder::build`], for any statements: `None` if something that is needed is not
    /// there.
    pub fn try_build(self, block: &Vec<Statement<TypeId>>) -> (r: Option<Built>)
        requires
            self.wf(),
        ensures
            match r {
                Some(b) => {
                    &&& finished(self.known_types(), self.g(), ast::stmt_views(block@)).ok
                    &&& is_built(finished(self.known_types(), self.g(), ast::stmt_views(block@)), b)
                },
                None => !finished(self.known_types(), self.g(), ast::stmt_views(block@)).ok,
            },
    {
        let mut builder = self;
        builder.consume(block);
        builder.commit_block(Terminator::Branch { label: Label::End }, Label::End);
        proof {
            reveal(BlockBuilder::g);
        }
        if !builder.ok {
            return None;
        }
        let blocks = settle(builder.blocks);
        Some(
            Built {
                blocks,
                stack: builder.stack,
                stack_size: builder.stack_size,
                size_map: builder.sizes,
                strings: builder.strings,
            },
        )
    }
}

/// What was built is what `g` says.
pub open spec fn is_built(g: Gen, b: Built) -> bool {
    &&& ir::block_views(b.blocks@) == settled(g.blocks)
    &&& b.stack@ == g.stack
    &&& b.stack_size == g.stack_size
    &&& b.size_map@ == g.sizes
    &&& text::all_chars(b.strings@) == g.strings
}

spec fn set_views(v: Seq<RegSet>) -> Seq<Set<VirtualReg>> {
    v.map_values(|r: RegSet| r@)
}

/// What a successor needs and block `i` does not declare, block `i` needs.
spec fn closed_for(blocks: Seq<BlockV>, sets: Seq<Set<VirtualReg>>, i: int, label: Label) -> bool {
    match block_with(blocks, label, 0) {
        None => true,
        Some(j) => forall|v: VirtualReg|
            sets[j].contains(v) ==> blocks[i].decls.contains(v) || #[trigger] sets[i].contains(v),
    }
}

spec fn closed_at(blocks: Seq<BlockV>, sets: Seq<Set<VirtualReg>>, i: int) -> bool {
    forall|k: int|
        0 <= k < ir::successors_of(blocks[i].terminator).len() ==> closed_for(
            blocks,
            sets,
            i,
            #[trigger] ir::successors_of(blocks[i].terminator)[k],
        )
}

/// Each set holds what its block needs itself, and nothing that it does not need.
spec fn between(blocks: Seq<BlockV>, sets: Seq<Set<VirtualReg>>) -> bool {
    &&& sets.len() == blocks.len()
    &&& forall|i: int, v: VirtualReg|
        0 <= i < blocks.len() && blocks[i].args.contains(v) ==> #[trigger] sets[i].contains(v)
    &&& forall|i: int, v: VirtualReg|
        0 <= i < blocks.len() && #[trigger] sets[i].contains(v) ==> needs(blocks, i, v)
    &&& forall|i: int| 0 <= i < blocks.len() ==> (#[trigger] sets[i]).finite()
}

proof fn lemma_block_with(blocks: Seq<BlockV>, label: Label, i: nat)
    ensures
        block_with(blocks, label, i) matches Some(j) ==> i <= j < blocks.len(),
    decreases blocks.len() - i,
{
    if i < blocks.len() && blocks[i as int].label != label {
        lemma_block_with(blocks, label, i + 1);
    }
}

proof fn lemma_needs_step(blocks: Seq<BlockV>, i: int, j: int, v: VirtualReg)
    requires
        0 <= i < blocks.len(),
        follows(blocks, i, j),
        needs(blocks, j, v),
        !blocks[i].decls.contains(v),
    ensures
        needs(blocks, i, v),
{
    let way = choose|way: Seq<int>| #[trigger] is_way(blocks, v, way) && way[0] == j;
    let longer = seq![i] + way;
    assert forall|k: int| 0 <= k < longer.len() implies 0 <= #[trigger] longer[k] < blocks.len() by {
        if k > 0 {
            assert(longer[k] == way[k - 1]);
        }
    }
    assert forall|k: int| 0 <= k < longer.len() - 1 implies follows(
        blocks,
        #[trigger] longer[k],
        longer[k + 1],
    ) && !blocks[longer[k]].decls.contains(v) by {
        if k == 0 {
            assert(longer[1] == way[0]);
        } else {
            assert(longer[k] == way[k - 1]);
            assert(longer[k + 1] == way[k]);
        }
    }
    assert(longer.last() == way.last());
    assert(is_way(blocks, v, longer));
    assert(longer[0] == i);
}

proof fn lemma_way_closed(
    blocks: Seq<BlockV>,
    sets: Seq<Set<VirtualReg>>,
    v: VirtualReg,
    way: Seq<int>,
    k: int,
)
    requires
        between(blocks, sets),
        forall|i: int| 0 <= i < blocks.len() ==> #[trigger] closed_at(blocks, sets, i),
        is_way(blocks, v, way),
        0 <= k < way.len(),
    ensures
        sets[way[k]].contains(v),
    decreases way.len() - k,
{
    assert(0 <= way[k] < blocks.len());
    if k < way.len() - 1 {
        lemma_way_closed(blocks, sets, v, way, k + 1);
        let i = way[k];
        assert(follows(blocks, way[k], way[k + 1]));
        let s = ir::successors_of(blocks[i].terminator);
        let n = choose|n: int|
            0 <= n < s.len() && block_with(blocks, #[trigger] s[n], 0) == Some(way[k + 1]);
        assert(closed_at(blocks, sets, i));
        assert(closed_for(blocks, sets, i, s[n]));
        assert(sets[way[k + 1]].contains(v));
        assert(!blocks[i].decls.contains(v));
        assert(sets[i].contains(v));
    } else {
        assert(blocks[way[k]].args.contains(v));
    }
}

proof fn lemma_settled(blocks: Seq<BlockV>, sets: Seq<Set<VirtualReg>>, i: int)
    requires
        between(blocks, sets),
        forall|i: int| 0 <= i < blocks.len() ==> #[trigger] closed_at(blocks, sets, i),
        0 <= i < blocks.len(),
    ensures
        sets[i] == settled(blocks)[i].args,
{
    assert forall|v: VirtualReg| needs(blocks, i, v) implies #[trigger] sets[i].contains(v) by {
        let way = choose|way: Seq<int>| #[trigger] is_way(blocks, v, way) && way[0] == i;
        lemma_way_closed(blocks, sets, v, way, 0);
    }
    assert(sets[i] =~= settled(blocks)[i].args);
}

/// The number of elements of all sets.
spec fn total(sets: Seq<Set<VirtualReg>>) -> nat
    decreases sets.len(),
{
    if sets.len() == 0 {
        0
    } else {
        total(sets.drop_last()) + sets.last().len()
    }
}

proof fn lemma_total_insert(sets: Seq<Set<VirtualReg>>, i: int, v: VirtualReg)
    requires
        0 <= i < sets.len(),
        sets[i].finite(),
        !sets[i].contains(v),
    ensures
        total(sets.update(i, sets[i].insert(v))) == total(sets) + 1,
    decreases sets.len(),
{
    let more = sets.update(i, sets[i].insert(v));
    if i == sets.len() - 1 {
        assert(more.drop_last() =~= sets.drop_last());
    } else {
        lemma_total_insert(sets.drop_last(), i, v);
        assert(more.drop_last() =~= sets.drop_last().update(i, sets[i].insert(v)));
    }
}

proof fn lemma_total_bound(sets: Seq<Set<VirtualReg>>, all: Set<VirtualReg>)
    requires
        all.finite(),
        forall|i: int| 0 <= i < sets.len() ==> (#[trigger] sets[i]).subset_of(all),
    ensures
        total(sets) <= sets.len() * all.len(),
    decreases sets.len(),
{
    if sets.len() > 0 {
        lemma_total_bound(sets.drop_last(), all);
        assert(sets.last() == sets[sets.len() - 1]);
        vstd::set_lib::lemma_len_subset(sets.last(), all);
        let n = sets.len();
        let m = all.len();
        assert((n - 1) * m + m == n * m) by (nonlinear_arith);
    } else {
        assert(0 * all.len() == 0) by (nonlinear_arith);
    }
}

/// The registers that the first `n` blocks need themselves.
spec fn own_regs(blocks: Seq<BlockV>, n: nat) -> Set<VirtualReg>
    decreases n,
{
    if n == 0 {
        Set::empty()
    } else {
        own_regs(blocks, (n - 1) as nat).union(blocks[n - 1].args)
    }
}

proof fn lemma_own_regs(blocks: Seq<BlockV>, n: nat)
    requires
        n <= blocks.len(),
        forall|i: int| 0 <= i < blocks.len() ==> (#[trigger] blocks[i]).args.finite(),
    ensures
        own_regs(blocks, n).finite(),
        forall|i: int, v: VirtualReg|
            0 <= i < n && #[trigger] blocks[i].args.contains(v) ==> own_regs(blocks, n).contains(v),
    decreases n,
{
    if n > 0 {
        lemma_own_regs(blocks, (n - 1) as nat);
        assert(blocks[n - 1].args.finite());
    }
}

proof fn lemma_between_bound(blocks: Seq<BlockV>, sets: Seq<Set<VirtualReg>>)
    requires
        between(blocks, sets),
        forall|i: int| 0 <= i < blocks.len() ==> (#[trigger] blocks[i]).args.finite(),
    ensures
        total(sets) <= blocks.len() * own_regs(blocks, blocks.len()).len(),
{
    let all = own_regs(blocks, blocks.len());
    lemma_own_regs(blocks, blocks.len());
    assert forall|i: int| 0 <= i < sets.len() implies (#[trigger] sets[i]).subset_of(all) by {
        assert forall|v: VirtualReg| #[trigger] sets[i].contains(v) implies all.contains(v) by {
            let way = choose|way: Seq<int>| #[trigger] is_way(blocks, v, way) && way[0] == i;
            assert(0 <= way[way.len() - 1] < blocks.len());
            assert(blocks[way.last()].args.contains(v));
        }
    }
    lemma_total_bound(sets, all);
}

fn find_block(blocks: &Vec<BasicBlock>, label: Label) -> (r: Option<usize>)
    ensures
        match r {
            Some(j) => j < blocks@.len() && block_with(ir::block_views(blocks@), label, 0) == Some(
                j as int,
            ),
            None => block_with(ir::block_views(blocks@), label, 0) is None,
        },
{
    let mut i: usize = 0;
    while i < blocks.len()
        invariant
            i <= blocks.len(),
            block_with(ir::block_views(blocks@), label, i as nat) == block_with(
                ir::block_views(blocks@),
                label,
                0,
            ),
        decreases blocks.len() - i,
    {
        if blocks[i].label == label {
            return Some(i);
        }
        i = i + 1;
    }
    None
}

fn copy_set(set: &RegSet) -> (r: RegSet)
    ensures
        r@ == set@,
{
    let mut r = RegSet::new();
    r.insert_all(&set.list);
    proof {
        assert(r@ =~= set@);
    }
    r
}

/// One round: each block gets what its successors need and it does not declare. Tells whether
/// a set grew.
fn pass_on(blocks: &Vec<BasicBlock>, sets: &mut Vec<RegSet>) -> (r: bool)
    requires
        between(ir::block_views(blocks@), set_views(old(sets)@)),
    ensures
        between(ir::block_views(blocks@), set_views(final(sets)@)),
        r ==> total(set_views(final(sets)@)) > total(set_views(old(sets)@)),
        !r ==> set_views(final(sets)@) == set_views(old(sets)@) && forall|i: int|
            0 <= i < blocks@.len() ==> #[trigger] closed_at(
                ir::block_views(blocks@),
                set_views(final(sets)@),
                i,
            ),
{
    let ghost views = ir::block_views(blocks@);
    let ghost sets0 = set_views(sets@);
    let mut grew = false;
    let mut i: usize = 0;
    while i < blocks.len()
        invariant
            i <= blocks.len(),
            views == ir::block_views(blocks@),
            between(views, set_views(sets@)),
            grew ==> total(set_views(sets@)) > total(sets0),
            !grew ==> set_views(sets@) == sets0 && forall|k: int|
                0 <= k < i ==> #[trigger] closed_at(views, sets0, k),
        decreases blocks.len() - i,
    {
        let labels = blocks[i].successors();
        let ghost succ = ir::successors_of(views[i as int].terminator);
        let mut k: usize = 0;
        while k < labels.len()
            invariant
                i < blocks.len(),
                k <= labels.len(),
                labels@ == succ,
                succ == ir::successors_of(views[i as int].terminator),
                views == ir::block_views(blocks@),
                between(views, set_views(sets@)),
                grew ==> total(set_views(sets@)) > total(sets0),
                !grew ==> set_views(sets@) == sets0 && (forall|m: int|
                    0 <= m < i ==> #[trigger] closed_at(views, sets0, m)) && (forall|m: int|
                    0 <= m < k ==> closed_for(views, sets0, i as int, #[trigger] succ[m])),
            decreases labels.len() - k,
        {
            if let Some(j) = find_block(blocks, labels[k]) {
                proof {
                    assert(block_with(views, succ[k as int], 0) == Some(j as int));
                    assert(follows(views, i as int, j as int));
                }
                let source = copy_set(&sets[j]);
                let ghost needed = set_views(sets@)[j as int];
                let mut n: usize = 0;
                while n < source.list.len()
                    invariant
                        i < blocks.len(),
                        j < blocks.len(),
                        n <= source.list.len(),
                        views == ir::block_views(blocks@),
                        between(views, set_views(sets@)),
                        follows(views, i as int, j as int),
                        needed == source@,
                        forall|v: VirtualReg| #[trigger]
                            needed.contains(v) ==> needs(views, j as int, v),
                        grew ==> total(set_views(sets@)) > total(sets0),
                        !grew ==> set_views(sets@) == sets0 && needed == sets0[j as int] && (
                        forall|m: int| 0 <= m < i ==> #[trigger] closed_at(views, sets0, m)) && (
                        forall|m: int|
                            0 <= m < k ==> closed_for(views, sets0, i as int, #[trigger] succ[m]))
                            && (forall|m: int|
                            0 <= m < n && !views[i as int].decls.contains(
                                #[trigger] source.list@[m],
                            ) ==> sets0[i as int].contains(source.list@[m])),
                    decreases source.list.len() - n,
                {
                    let vreg = source.list[n];
                    let ghost before = set_views(sets@);
                    proof {
                        assert(source.list@.contains(vreg));
                        assert(needed.contains(vreg));
                        assert(before[i as int] == sets@[i as int]@);
                    }
                    if !ir::contains_reg(&blocks[i].decls, vreg) && !sets[i].contains(vreg) {
                        let mut set = copy_set(&sets[i]);
                        set.insert(vreg);
                        sets[i] = set;
                        grew = true;
                        proof {
                            let now = set_views(sets@);
                            lemma_needs_step(views, i as int, j as int, vreg);
                            assert(now =~= before.update(i as int, before[i as int].insert(vreg)));
                            lemma_total_insert(before, i as int, vreg);
                        }
                    }
                    n = n + 1;
                }
                proof {
                    if !grew {
                        assert forall|v: VirtualReg| sets0[j as int].contains(
                            v,
                        ) implies views[i as int].decls.contains(v)
                            || #[trigger] sets0[i as int].contains(v) by {
                            assert(source.list@.contains(v));
                            let m = choose|m: int|
                                0 <= m < source.list@.len() && source.list@[m] == v;
                            assert(source.list@[m] == v);
                        }
                        assert(closed_for(views, sets0, i as int, succ[k as int]));
                    }
                }
            } else {
                proof {
                    assert(closed_for(views, sets0, i as int, succ[k as int]));
                }
            }
            k = k + 1;
        }
        proof {
            if !grew {
                assert(closed_at(views, sets0, i as int));
            }
        }
        i = i + 1;
    }
    grew
}

/// Gives each block all registers that it needs from its predecessors.
fn settle(blocks: Vec<BasicBlock>) -> (r: Vec<BasicBlock>)
    ensures
        ir::block_views(r@) == settled(ir::block_views(blocks@)),
{
    let ghost views = ir::block_views(blocks@);
    let ghost own = blocks@;
    let mut sets: Vec<RegSet> = Vec::new();
    let mut i: usize = 0;
    while i < blocks.len()
        invariant
            i <= blocks.len(),
            views == ir::block_views(blocks@),
            sets@.len() == i,
            forall|j: int| 0 <= j < i ==> (#[trigger] sets@[j])@ == views[j].args,
        decreases blocks.len() - i,
    {
        sets.push(copy_set(&blocks[i].args));
        i = i + 1;
    }
    proof {
        let s = set_views(sets@);
        assert forall|i: int, v: VirtualReg|
            0 <= i < views.len() && #[trigger] s[i].contains(v) implies needs(views, i, v) by {
            assert(is_way(views, v, seq![i]));
        }
        assert forall|i: int| 0 <= i < views.len() implies (#[trigger] s[i]).finite() by {
            vstd::seq_lib::seq_to_set_is_finite(sets@[i].list@);
        }
        assert forall|i: int| 0 <= i < views.len() implies (#[trigger] views[i]).args.finite() by {
            assert(s[i].finite());
        }
    }
    let mut again = true;
    while again
        invariant
            views == ir::block_views(blocks@),
            between(views, set_views(sets@)),
            forall|i: int| 0 <= i < views.len() ==> (#[trigger] views[i]).args.finite(),
            !again ==> forall|i: int|
                0 <= i < views.len() ==> #[trigger] closed_at(views, set_views(sets@), i),
        decreases
            views.len() * own_regs(views, views.len()).len() - total(set_views(sets@)),
            if again {
                1int
            } else {
                0int
            },
    {
        again = pass_on(&blocks, &mut sets);
        proof {
            lemma_between_bound(views, set_views(sets@));
        }
    }
    let mut done: Vec<BasicBlock> = Vec::new();
    let ghost finals = set_views(sets@);
    let n = sets.len();
    let mut i: usize = 0;
    for block in it: blocks.into_iter()
        invariant
            it.seq() == own,
            views == ir::block_views(own),
            i == it.index(),
            n == sets@.len(),
            sets@.len() == own.len(),
            finals == set_views(sets@),
            between(views, finals),
            forall|j: int| 0 <= j < views.len() ==> #[trigger] closed_at(views, finals, j),
            done@.len() == i,
            forall|j: int| 0 <= j < i ==> (#[trigger] done@[j])@ == settled(views)[j],
    {
        let args = copy_set(&sets[i]);
        proof {
            assert(finals[i as int] == sets@[i as int]@);
            lemma_settled(views, finals, i as int);
            assert(views[i as int] == block@);
        }
        let block = BasicBlock {
            label: block.label,
            args,
            ops: block.ops,
            decls: block.decls,
            terminator: block.terminator,
        };
        proof {
            assert(block@ =~= settled(views)[i as int]);
        }
        done.push(block);
        i = i + 1;
    }
    proof {
        assert(ir::block_views(done@) =~= settled(views));
    }
    done
}

impl IR {
    /// Turns a checked program into its intermediate representation.
    pub fn generate(tree: &ValidAST, analyzer: &Analyzer) -> (r: IR)
        requires
            generated(tree.0.view(), analyzer.known_types()) is Some,
        ensures
            generated(tree.0.view(), analyzer.known_types()) == Some(r@),
    {
        match IR::try_generate(tree, analyzer) {
            Some(r) => r,
            None => IR::new(),
        }
    }

    /// As [`IR::generate`], for any program: `None` if something that it needs is not there.
    pub fn try_generate(tree: &ValidAST, analyzer: &Analyzer) -> (r: Option<IR>)
        ensures
            match r {
                Some(p) => generated(tree.0.view(), analyzer.known_types()) == Some(p@),
                None => generated(tree.0.view(), analyzer.known_types()) is None,
            },
    {
        let mut program = IR::new();
        let items = &tree.0.items;
        let ghost views = ast::item_views(items@);
        let ghost types = analyzer.known_types();
        let mut i: usize = 0;
        while i < items.len()
            invariant
                i <= items.len(),
                views == ast::item_views(items@),
                views == tree.0.view().items,
                types == analyzer.known_types(),
                generated(tree.0.view(), types) == with_items(types, program@, views, i as nat),
            decreases items.len() - i,
        {
            proof {
                assert(views[i as int] == items@[i as int].view());
            }
            match &items[i] {
                ast::Item::Function(def) => {
                    program.add_function(analyzer, def, def.name.clone())?;
                },
                ast::Item::Impl { struct_name, functions } => {
                    program.add_methods(analyzer, struct_name.as_str(), functions)?;
                },
                ast::Item::MemorySegment { name, typ } => {
                    let size = analyzer.type_map().find(*typ)?.size;
                    if program.static_mem.size() > u64::MAX - size {
                        return None;
                    }
                    program.static_mem.alloc_segment(name.as_str(), *typ, size);
                },
                _ => {},
            }
            i = i + 1;
        }
        Some(program)
    }

    fn add_function(&mut self, analyzer: &Analyzer, def: &FnDef<TypeId>, name: String) -> (r: Option<
        (),
    >)
        ensures
            match r {
                Some(_) => with_function(
                    analyzer.known_types(),
                    old(self)@,
                    def.view(),
                    name@,
                ) == Some(final(self)@),
                None => with_function(
                    analyzer.known_types(),
                    old(self)@,
                    def.view(),
                    name@,
                ) is None,
            },
    {
        if def.args.len() as u64 > u32::MAX as u64 {
            return None;
        }
        let n: u32 = def.args.len() as u32;
        let mut named: Vec<(String, VirtualReg)> = Vec::new();
        let mut args: Vec<VirtualReg> = Vec::new();
        let mut i: u32 = 0;
        while i < n
            invariant
                i <= n,
                n == def.args@.len(),
                named@.len() == i,
                args@.len() == i,
                forall|j: int|
                    0 <= j < i ==> (#[trigger] named@[j]).0@ == def.args@[j].0@ && named@[j].1
                        == VirtualReg(j as u32),
                forall|j: int| 0 <= j < i ==> #[trigger] args@[j] == VirtualReg(j as u32),
            decreases n - i,
        {
            named.push((def.args[i as usize].0.clone(), VirtualReg(i)));
            args.push(VirtualReg(i));
            i = i + 1;
        }
        proof {
            assert(named_regs(named@) =~= numbered(def.view().args));
            assert(args@ =~= arg_regs(def.view().args.len()));
        }
        let mut strings: Vec<String> = Vec::new();
        std::mem::swap(&mut strings, &mut self.strings);
        let builder = BlockBuilder::new(analyzer, &self.static_mem, strings, &named);
        let b = builder.try_build(&def.body)?;
        let ghost before = ir::item_views(self.items@);
        self.strings = b.strings;
        self.items.push(
            Item::Function {
                name,
                args,
                stack: b.stack,
                stack_size: b.stack_size,
                size_map: b.size_map,
                body: b.blocks,
            },
        );
        proof {
            assert(ir::item_views(self.items@) =~= before.push(self.items@.last()@));
        }
        Some(())
    }

    fn add_methods(
        &mut self,
        analyzer: &Analyzer,
        struct_name: &str,
        defs: &Vec<FnDef<TypeId>>,
    ) -> (r: Option<()>)
        ensures
            match r {
                Some(_) => with_methods(
                    analyzer.known_types(),
                    old(self)@,
                    struct_name@,
                    ast::fn_views(defs@),
                    0,
                ) == Some(final(self)@),
                None => with_methods(
                    analyzer.known_types(),
                    old(self)@,
                    struct_name@,
                    ast::fn_views(defs@),
                    0,
                ) is None,
            },
    {
        let ghost views = ast::fn_views(defs@);
        let mut i: usize = 0;
        while i < defs.len()
            invariant
                i <= defs.len(),
                views == ast::fn_views(defs@),
                with_methods(analyzer.known_types(), old(self)@, struct_name@, views, 0)
                    == with_methods(
                    analyzer.known_types(),
                    self@,
                    struct_name@,
                    views,
                    i as nat,
                ),
            decreases defs.len() - i,
        {
            proof {
                assert(views[i as int] == defs@[i as int].view());
            }
            let path = text::join_path(struct_name, defs[i].name.as_str());
            self.add_function(analyzer, &defs[i], path)?;
            i = i + 1;
        }
        Some(())
    }
}

} // verus!
