//! That a function does what the program says: the blocks that are generated compute the values of its
//! expressions and run its statements.

use vstd::prelude::*;

use crate::analyze::ast::{
    AssignableV, ExprInnerV, ExprV, FnDefV, FnPtrV, LogicalOp, StmtV,
};
use crate::analyze::semantics::types;
use crate::analyze::semantics::types::{Primitive, Sign, TypeId, TypesV};
use crate::ir;
use crate::ir::codegen;
use crate::ir::codegen::Gen;
use crate::ir::laws;
use crate::ir::meaning;
use crate::ir::meaning::{Ground, Machine, Memory, Point, Ran, Scope, World};
use crate::ir::{BlockV, FunctionV, IrV, Label, Op, OpV, SourceVal, Terminator, ValSize, VirtualReg};

verus! {

/// Whether a register is in use and has a size.
pub open spec fn in_use(g: Gen, v: VirtualReg) -> bool {
    v.0 < g.vregs && g.sizes.contains_key(v)
}

/// What was built in `g` is still there in `h`, of which the block that was being built is a part.
pub open spec fn extends(g: Gen, h: Gen) -> bool {
    &&& g.vregs <= h.vregs
    &&& g.mem == h.mem
    &&& g.args == h.args
    &&& forall|n: Seq<char>| #[trigger]
        g.vars.contains_key(n) ==> h.vars.contains_key(n) && h.vars[n] == g.vars[n]
    &&& forall|v: VirtualReg| #[trigger] in_use(g, v) ==> in_use(h, v) && h.sizes[v] == g.sizes[v]
    &&& forall|i: u32| #[trigger]
        g.stack.contains_key(i) ==> h.stack.contains_key(i) && h.stack[i] == g.stack[i]
    &&& starts_with(h.strings, g.strings)
    &&& starts_with(h.blocks, g.blocks)
    &&& starts_with(open_ops(h, g.blocks.len() as int), g.ops)
    &&& laws::label_at(h, g.blocks.len() as int) == g.label
}

/// The operations of block `i`, or of the block that is being built.
pub open spec fn open_ops(g: Gen, i: int) -> Seq<OpV> {
    if i < g.blocks.len() {
        g.blocks[i].ops
    } else {
        g.ops
    }
}

pub open spec fn starts_with<A>(whole: Seq<A>, part: Seq<A>) -> bool {
    &&& part.len() <= whole.len()
    &&& forall|i: int| 0 <= i < part.len() ==> whole[i] == #[trigger] part[i]
}

#[verifier::opaque]
pub open spec fn grew(g: Gen, h: Gen) -> bool {
    h.ok ==> g.ok && extends(g, h)
}

proof fn lemma_grew_self(g: Gen)
    ensures
        grew(g, g),
{
    reveal(grew);
}

proof fn lemma_grew_trans(g: Gen, h: Gen, k: Gen)
    requires
        grew(g, h),
        grew(h, k),
    ensures
        grew(g, k),
{
    reveal(grew);
    if k.ok {
        let n = g.blocks.len() as int;
        assert(extends(g, h) && extends(h, k));
        assert(starts_with(k.blocks, g.blocks)) by {
            assert forall|i: int| 0 <= i < g.blocks.len() implies k.blocks[i] == #[trigger] g.blocks[i] by {
                assert(h.blocks[i] == g.blocks[i]);
            }
        }
        assert(starts_with(k.strings, g.strings)) by {
            assert forall|i: int| 0 <= i < g.strings.len() implies k.strings[i] == #[trigger] g.strings[i] by {
                assert(h.strings[i] == g.strings[i]);
            }
        }
        if n < h.blocks.len() {
            assert(k.blocks[n] == h.blocks[n]);
        }
        let middle = open_ops(h, n);
        let last = open_ops(k, n);
        assert(starts_with(last, middle));
        assert(starts_with(last, g.ops)) by {
            assert forall|i: int| 0 <= i < g.ops.len() implies last[i] == #[trigger] g.ops[i] by {
                assert(middle[i] == g.ops[i]);
            }
        }
        assert(laws::label_at(k, n) == g.label);
        assert forall|v: VirtualReg| #[trigger] in_use(g, v) implies in_use(k, v) && k.sizes[v]
            == g.sizes[v] by {
            assert(in_use(h, v));
        }
        assert forall|v: Seq<char>| #[trigger] g.vars.contains_key(v) implies k.vars.contains_key(v)
            && k.vars[v] == g.vars[v] by {
            assert(h.vars.contains_key(v));
        }
        assert forall|v: u32| #[trigger] g.stack.contains_key(v) implies k.stack.contains_key(v)
            && k.stack[v] == g.stack[v] by {
            assert(h.stack.contains_key(v));
        }
    }
}

/// Each step of building adds something and takes nothing away.
proof fn lemma_grows(g: Gen)
    ensures
        forall|b: bool| grew(g, #[trigger] g.checked(b)),
        forall|op: Op| grew(g, #[trigger] g.op(op)),
        forall|v: VirtualReg| grew(g, #[trigger] g.declares(v)),
        forall|s: ValSize| grew(g, (#[trigger] g.fresh(s)).1),
        grew(g, g.fresh_label().1),
        forall|s: Option<ValSize>| grew(g, (#[trigger] g.sized(s)).1),
        forall|t: Terminator, l: Label| grew(g, #[trigger] g.committed(t, l)),
        forall|n: Seq<char>| grew(g, (#[trigger] g.var(n)).1),
{
    reveal(grew);
    reveal(Gen::checked);
    reveal(Gen::op);
    reveal(Gen::declares);
    reveal(Gen::fresh);
    reveal(Gen::fresh_label);
    reveal(Gen::sized);
    reveal(Gen::committed);
    reveal(Gen::var);
}

proof fn lemma_grows_more(g: Gen)
    ensures
        forall|d: Option<VirtualReg>, s: Option<ValSize>| grew(g, (#[trigger] g.dest_or(d, s)).1),
        forall|s: SourceVal| grew(g, (#[trigger] g.reg_of(s)).1),
{
    reveal(Gen::dest_or);
    reveal(Gen::reg_of);
    lemma_grew_self(g);
    lemma_grows(g);
    assert forall|d: Option<VirtualReg>, s: Option<ValSize>| grew(
        g,
        (#[trigger] g.dest_or(d, s)).1,
    ) by {
        let (size, h) = g.sized(s);
        lemma_grows(h);
        lemma_grew_trans(g, h, h.fresh(size).1);
    }
    assert forall|s: SourceVal| grew(g, (#[trigger] g.reg_of(s)).1) by {
        let (dest, h) = g.fresh(ValSize::Doubleword);
        lemma_grows(h);
        lemma_grew_trans(g, h, h.op(Op::Assign { src: s, dest }));
    }
}

/// The function whose blocks, sizes, places and strings are `c` is one that `g` can become.
#[verifier::opaque]
pub open spec fn fits(c: Ground, g: Gen) -> bool {
    &&& forall|i: int|
        0 <= i < g.blocks.len() ==> has_block(
            c,
            (#[trigger] g.blocks[i]).label,
            g.blocks[i].ops,
            g.blocks[i].terminator,
        )
    &&& c.blocks.contains_key(g.label) && starts_with(c.blocks[g.label].0, g.ops)
    &&& forall|v: VirtualReg| #[trigger] in_use(g, v) ==> c.sizes.contains_key(v) && c.sizes[v]
        == g.sizes[v]
    &&& forall|i: u32| #[trigger]
        g.stack.contains_key(i) ==> c.stack.contains_key(i) && c.stack[i] == g.stack[i]
    &&& starts_with(c.strings, g.strings) && c.strings.len() <= usize::MAX
}

pub open spec fn has_block(c: Ground, label: Label, ops: Seq<OpV>, end: Terminator) -> bool {
    c.blocks.contains_key(label) && c.blocks[label] == (ops, end)
}

/// The variables that are known in `g` lie where `s` says.
#[verifier::opaque]
pub open spec fn lies(s: Scope, g: Gen) -> bool {
    &&& s.allocs == g.mem.allocs
    &&& s.args == g.args
    &&& forall|n: Seq<char>| #[trigger]
        g.vars.contains_key(n) ==> s.vars.contains_key(n) && s.vars[n] == g.vars[n]
    &&& forall|i: u32| #[trigger]
        g.stack.contains_key(i) ==> s.stack.contains_key(i) && s.stack[i] == g.stack[i]
    &&& forall|v: VirtualReg| #[trigger] in_use(g, v) ==> s.sizes.contains_key(v) && s.sizes[v]
        == g.sizes[v]
}

/// Building came to `g` on the way to the function.
pub open spec fn ready(c: Ground, s: Scope, g: Gen) -> bool {
    g.ok && fits(c, g) && lies(s, g) && s.stack == c.stack && s.sizes == c.sizes
}

proof fn lemma_back(c: Ground, s: Scope, g: Gen, h: Gen)
    requires
        grew(g, h),
        ready(c, s, h),
    ensures
        ready(c, s, g),
        g.vregs <= h.vregs,
{
    reveal(grew);
    reveal(fits);
    reveal(lies);
    let n = g.blocks.len() as int;
    assert forall|i: int| 0 <= i < g.blocks.len() implies has_block(
        c,
        (#[trigger] g.blocks[i]).label,
        g.blocks[i].ops,
        g.blocks[i].terminator,
    ) by {
        assert(h.blocks[i] == g.blocks[i]);
    }
    let ops = open_ops(h, n);
    if n < h.blocks.len() {
        assert(has_block(c, h.blocks[n].label, h.blocks[n].ops, h.blocks[n].terminator));
    }
    assert(starts_with(c.blocks[g.label].0, ops));
    assert(starts_with(c.blocks[g.label].0, g.ops)) by {
        assert forall|i: int| 0 <= i < g.ops.len() implies c.blocks[g.label].0[i] == #[trigger] g.ops[i] by {
            assert(ops[i] == g.ops[i]);
        }
    }
    assert(starts_with(c.strings, g.strings)) by {
        assert forall|i: int| 0 <= i < g.strings.len() implies c.strings[i] == #[trigger] g.strings[i] by {
            assert(h.strings[i] == g.strings[i]);
        }
    }
    assert forall|v: VirtualReg| #[trigger] in_use(g, v) implies c.sizes.contains_key(v) && c.sizes[v]
        == g.sizes[v] && s.sizes.contains_key(v) && s.sizes[v] == g.sizes[v] by {
        assert(in_use(h, v));
    }
    assert forall|v: Seq<char>| #[trigger] g.vars.contains_key(v) implies s.vars.contains_key(v)
        && s.vars[v] == g.vars[v] by {
        assert(h.vars.contains_key(v));
    }
    assert forall|v: u32| #[trigger] g.stack.contains_key(v) implies s.stack.contains_key(v)
        && s.stack[v] == g.stack[v] && c.stack.contains_key(v) && c.stack[v] == g.stack[v] by {
        assert(h.stack.contains_key(v));
    }
}

proof fn lemma_loaded_grows(types: TypesV, g: Gen, var: Seq<char>, dest: VirtualReg)
    ensures
        grew(g, codegen::loaded(types, g, var, dest)),
{
    reveal(codegen::loaded);
    lemma_grows(g);
    if g.mem.allocs.contains_key(var) {
        let (offset, typ) = g.mem.allocs[var];
        let (ptr, g1) = g.fresh(ValSize::Doubleword);
        let g2 = g1.op(Op::Assign { src: SourceVal::StaticMem(offset), dest: ptr });
        let (size, g3) = g2.sized(codegen::size_of(types, typ));
        lemma_grows(g1);
        lemma_grew_trans(g, g1, g2);
        lemma_grows(g2);
        lemma_grew_trans(g, g2, g3);
        lemma_grows(g3);
        lemma_grew_trans(g, g3, g3.op(Op::LoadPointer { ptr, size, dest }));
    } else {
        let (v, g1) = g.var(var);
        lemma_grows(g1);
        let h = codegen::loaded(types, g, var, dest);
        assert(grew(g1, h));
        lemma_grew_trans(g, g1, h);
    }
}

pub open spec fn flat_grows(types: TypesV, g: Gen, e: ExprV<TypeId>, dest: Option<VirtualReg>) -> bool {
    grew(g, codegen::flat(types, g, e, dest).1)
}

proof fn lemma_atom_grows(types: TypesV, g: Gen, e: ExprV<TypeId>, dest: Option<VirtualReg>)
    requires
        match e.inner {
            ExprInnerV::Const(..)
            | ExprInnerV::Character(_)
            | ExprInnerV::String(_)
            | ExprInnerV::Bool(_)
            | ExprInnerV::Construct { .. }
            | ExprInnerV::SizeOf(_) => true,
            _ => false,
        },
    ensures
        flat_grows(types, g, e, dest),
{
    let g0 = g.checked(codegen::has_size(types, e.typ));
    lemma_grows(g);
    lemma_grows(g0);
    lemma_grew_trans(g, g0, g0.checked(false));
    if let ExprInnerV::String(t) = e.inner {
        let h = codegen::flat(types, g, e, dest).1;
        reveal(grew);
        reveal(Gen::checked);
        assert(extends(g, h));
    }
}

proof fn lemma_var_grows(types: TypesV, g: Gen, e: ExprV<TypeId>, dest: Option<VirtualReg>)
    requires
        e.inner is Ident || e.inner is Pointer || e.inner is Deref,
    ensures
        flat_grows(types, g, e, dest),
{
    let g0 = g.checked(codegen::has_size(types, e.typ));
    let size = codegen::opt_size(types, e.typ);
    lemma_grows(g);
    lemma_grows(g0);
    match e.inner {
        ExprInnerV::Ident(var) => {
            let (s, g1) = g0.sized(size);
            let (d, g2) = g1.fresh(s);
            let h = codegen::loaded(types, g2, var, d);
            lemma_grew_trans(g, g0, g1);
            lemma_grows(g1);
            lemma_grew_trans(g, g1, g2);
            lemma_loaded_grows(types, g2, var, d);
            lemma_grew_trans(g, g2, h);
        },
        ExprInnerV::Pointer(var) => {
            let (val, g1) = g0.var(var);
            let (d, g2) = g1.dest_or(dest, size);
            let h = codegen::flat(types, g, e, dest).1;
            lemma_grew_trans(g, g0, g1);
            lemma_grows_more(g1);
            lemma_grew_trans(g, g1, g2);
            lemma_grows(g2);
            assert(grew(g2, h));
            lemma_grew_trans(g, g2, h);
        },
        ExprInnerV::Deref(var, typ) => {
            let (ptr, g1) = g0.fresh(ValSize::Doubleword);
            let (d, g2) = g1.dest_or(dest, size);
            let g3 = codegen::loaded(types, g2, var, ptr);
            let (s, g4) = g3.sized(codegen::opt_size(types, typ));
            lemma_grew_trans(g, g0, g1);
            lemma_grows_more(g1);
            lemma_grew_trans(g, g1, g2);
            lemma_loaded_grows(types, g2, var, ptr);
            lemma_grew_trans(g, g2, g3);
            lemma_grows(g3);
            lemma_grew_trans(g, g3, g4);
            lemma_grows(g4);
            lemma_grew_trans(g, g4, g4.op(Op::LoadPointer { ptr, size: s, dest: d }));
        },
        _ => {},
    }
}

/// Two operands, each in a register.
pub open spec fn both(types: TypesV, g: Gen, a: ExprV<TypeId>, b: ExprV<TypeId>) -> (
    VirtualReg,
    VirtualReg,
    Gen,
) {
    let (x, g) = codegen::flat(types, g, a, None);
    let (y, g) = codegen::flat(types, g, b, None);
    let (x, g) = g.reg_of(x);
    let (y, g) = g.reg_of(y);
    (x, y, g)
}

/// An index and what it is an index of, each in a register, and a register for the address.
pub open spec fn indexed(types: TypesV, g: Gen, data: ExprV<TypeId>, index: ExprV<TypeId>) -> (
    VirtualReg,
    VirtualReg,
    Gen,
) {
    let (i, g) = codegen::flat(types, g, index, None);
    let (i, g) = g.reg_of(i);
    let (d, g) = codegen::flat(types, g, data, None);
    let (d, g) = g.reg_of(d);
    (d, i, g)
}

proof fn lemma_both_grows(types: TypesV, g: Gen, a: ExprV<TypeId>, b: ExprV<TypeId>)
    requires
        flat_grows(types, g, a, None),
        flat_grows(types, codegen::flat(types, g, a, None).1, b, None),
    ensures
        grew(g, both(types, g, a, b).2),
{
    let (x, g1) = codegen::flat(types, g, a, None);
    let (y, g2) = codegen::flat(types, g1, b, None);
    let (_, g3) = g2.reg_of(x);
    let (_, g4) = g3.reg_of(y);
    lemma_grew_trans(g, g1, g2);
    lemma_grows_more(g2);
    lemma_grew_trans(g, g2, g3);
    lemma_grows_more(g3);
    lemma_grew_trans(g, g3, g4);
}

proof fn lemma_indexed_grows(types: TypesV, g: Gen, data: ExprV<TypeId>, index: ExprV<TypeId>)
    requires
        flat_grows(types, g, index, None),
        ({
            let (i, g1) = codegen::flat(types, g, index, None);
            flat_grows(types, g1.reg_of(i).1, data, None)
        }),
    ensures
        grew(g, indexed(types, g, data, index).2),
{
    let (i, g1) = codegen::flat(types, g, index, None);
    let (_, g2) = g1.reg_of(i);
    let (d, g3) = codegen::flat(types, g2, data, None);
    lemma_grows_more(g1);
    lemma_grew_trans(g, g1, g2);
    lemma_grew_trans(g, g2, g3);
    lemma_grows_more(g3);
    lemma_grew_trans(g, g3, g3.reg_of(d).1);
}

/// Four labels.
pub open spec fn four(g: Gen) -> (Label, Label, Label, Label, Gen) {
    let (a, g) = g.fresh_label();
    let (b, g) = g.fresh_label();
    let (c, g) = g.fresh_label();
    let (d, g) = g.fresh_label();
    (a, b, c, d, g)
}

/// A block that puts a number in a register and leads to `end`; the block `next` follows.
pub open spec fn setting(g: Gen, dest: VirtualReg, n: u64, end: Label, next: Label) -> Gen {
    g.declares(dest).op(Op::Assign { src: SourceVal::Immediate(n), dest }).committed(
        Terminator::Branch { label: end },
        next,
    )
}

proof fn lemma_four_grows(g: Gen)
    ensures
        grew(g, four(g).4),
{
    let (_, g1) = g.fresh_label();
    let (_, g2) = g1.fresh_label();
    let (_, g3) = g2.fresh_label();
    lemma_grows(g);
    lemma_grows(g1);
    lemma_grows(g2);
    lemma_grows(g3);
    lemma_grew_trans(g, g1, g2);
    lemma_grew_trans(g, g2, g3);
    lemma_grew_trans(g, g3, g3.fresh_label().1);
}

proof fn lemma_setting_grows(g: Gen, dest: VirtualReg, n: u64, end: Label, next: Label)
    ensures
        grew(g, setting(g, dest, n, end, next)),
{
    let g1 = g.declares(dest);
    let g2 = g1.op(Op::Assign { src: SourceVal::Immediate(n), dest });
    lemma_grows(g);
    lemma_grows(g1);
    lemma_grows(g2);
    lemma_grew_trans(g, g1, g2);
    lemma_grew_trans(g, g2, setting(g, dest, n, end, next));
}

/// A logical operation behind its first operand, which is in `x`.
pub open spec fn decided(
    types: TypesV,
    g: Gen,
    x: VirtualReg,
    b: ExprV<TypeId>,
    op: LogicalOp,
    dest: VirtualReg,
) -> Gen {
    let (second, yes, no, end, g) = four(g);
    let g = g.committed(codegen::first_test(op, x, second, yes, no), second);
    let (y, g) = codegen::flat(types, g, b, None);
    let (y, g) = g.reg_of(y);
    let g = g.committed(Terminator::BranchCond { cond: y, if_true: yes, if_false: no }, yes);
    let g = setting(g, dest, 1, end, no);
    setting(g, dest, 0, end, end)
}

proof fn lemma_decided_grows(
    types: TypesV,
    g: Gen,
    x: VirtualReg,
    b: ExprV<TypeId>,
    op: LogicalOp,
    dest: VirtualReg,
)
    requires
        ({
            let (second, yes, no, end, g1) = four(g);
            flat_grows(
                types,
                g1.committed(codegen::first_test(op, x, second, yes, no), second),
                b,
                None,
            )
        }),
    ensures
        grew(g, decided(types, g, x, b, op, dest)),
{
    let (second, yes, no, end, g1) = four(g);
    let g2 = g1.committed(codegen::first_test(op, x, second, yes, no), second);
    let (y, g3) = codegen::flat(types, g2, b, None);
    let (y, g4) = g3.reg_of(y);
    let g5 = g4.committed(Terminator::BranchCond { cond: y, if_true: yes, if_false: no }, yes);
    let g6 = setting(g5, dest, 1, end, no);
    lemma_four_grows(g);
    lemma_grows(g1);
    lemma_grew_trans(g, g1, g2);
    lemma_grew_trans(g, g2, g3);
    lemma_grows_more(g3);
    lemma_grew_trans(g, g3, g4);
    lemma_grows(g4);
    lemma_grew_trans(g, g4, g5);
    lemma_setting_grows(g5, dest, 1, end, no);
    lemma_grew_trans(g, g5, g6);
    lemma_setting_grows(g6, dest, 0, end, end);
    lemma_grew_trans(g, g6, setting(g6, dest, 0, end, end));
}

proof fn lemma_grows3(a: Gen, b: Gen, c: Gen, d: Gen)
    requires
        grew(a, b),
        grew(b, c),
        grew(c, d),
    ensures
        grew(a, d),
{
    lemma_grew_trans(a, b, c);
    lemma_grew_trans(a, c, d);
}

proof fn lemma_two_grows(types: TypesV, g: Gen, e: ExprV<TypeId>, dest: Option<VirtualReg>)
    requires
        e.inner is Arithmetic || e.inner is Comparison,
    ensures
        flat_grows(types, g, e, dest),
    decreases e, 0nat,
{
    let g0 = g.checked(codegen::has_size(types, e.typ));
    let size = codegen::opt_size(types, e.typ);
    lemma_grows(g);
    match e.inner {
        ExprInnerV::Arithmetic(a, b, _, _) | ExprInnerV::Comparison(a, b, _, _) => {
            lemma_flat_grows(types, g0, *a, None);
            lemma_flat_grows(types, codegen::flat(types, g0, *a, None).1, *b, None);
            lemma_both_grows(types, g0, *a, *b);
            let (x, y, g1) = both(types, g0, *a, *b);
            let (d, g2) = g1.dest_or(dest, size);
            let h = codegen::flat(types, g, e, dest).1;
            lemma_grows_more(g1);
            lemma_grows(g2);
            assert(grew(g2, h));
            lemma_grows3(g, g0, g1, g2);
            lemma_grew_trans(g, g2, h);
        },
        _ => {},
    }
}

proof fn lemma_logical_grows(types: TypesV, g: Gen, e: ExprV<TypeId>, dest: Option<VirtualReg>)
    requires
        e.inner is Logical,
    ensures
        flat_grows(types, g, e, dest),
    decreases e, 0nat,
{
    if let ExprInnerV::Logical(a, b, op) = e.inner {
        let g0 = g.checked(codegen::has_size(types, e.typ));
        let (d, g1) = g0.dest_or(dest, codegen::opt_size(types, e.typ));
        let (x, g2) = codegen::flat(types, g1, *a, None);
        let (x, g3) = g2.reg_of(x);
        let (second, yes, no, end, g4) = four(g3);
        let g5 = g4.committed(codegen::first_test(op, x, second, yes, no), second);
        let h = decided(types, g3, x, *b, op, d);
        assert(codegen::flat(types, g, e, dest).1 == h);
        lemma_grows(g);
        lemma_grows_more(g0);
        lemma_flat_grows(types, g1, *a, None);
        lemma_grows_more(g2);
        lemma_flat_grows(types, g5, *b, None);
        lemma_decided_grows(types, g3, x, *b, op, d);
        lemma_grows3(g, g0, g1, g2);
        lemma_grows3(g, g2, g3, h);
    }
}

proof fn lemma_one_grows(types: TypesV, g: Gen, e: ExprV<TypeId>, dest: Option<VirtualReg>)
    requires
        e.inner is Not || e.inner is Negate || e.inner is Cast || e.inner is MemberAccess,
    ensures
        flat_grows(types, g, e, dest),
    decreases e, 0nat,
{
    let g0 = g.checked(codegen::has_size(types, e.typ));
    let size = codegen::opt_size(types, e.typ);
    let h = codegen::flat(types, g, e, dest).1;
    lemma_grows(g);
    match e.inner {
        ExprInnerV::Not(a) | ExprInnerV::Negate(a) => {
            let (x, g1) = codegen::flat(types, g0, *a, dest);
            let (x, g2) = g1.reg_of(x);
            let (d, g3) = g2.dest_or(dest, size);
            lemma_flat_grows(types, g0, *a, dest);
            lemma_grows_more(g1);
            lemma_grows_more(g2);
            lemma_grows(g3);
            assert(grew(g3, h));
            lemma_grows3(g, g0, g1, g2);
            lemma_grows3(g, g2, g3, h);
        },
        ExprInnerV::Cast(a, _) => {
            lemma_flat_grows(types, g0, *a, dest);
            lemma_grew_trans(g, g0, h);
        },
        ExprInnerV::MemberAccess(a, member, typ) => {
            let (x, g1) = codegen::flat(types, g0, *a, None);
            let (x, g2) = g1.reg_of(x);
            let g3 = g2.checked(codegen::offset_of(types, typ, member) is Some);
            let (d, g4) = g3.dest_or(dest, size);
            lemma_flat_grows(types, g0, *a, None);
            lemma_grows_more(g1);
            lemma_grows(g2);
            lemma_grows_more(g3);
            lemma_grows(g4);
            assert(grew(g4, h));
            lemma_grows3(g, g0, g1, g2);
            lemma_grows3(g, g2, g3, g4);
            lemma_grew_trans(g, g4, h);
        },
        _ => {},
    }
}

proof fn lemma_index_grows(types: TypesV, g: Gen, e: ExprV<TypeId>, dest: Option<VirtualReg>)
    requires
        e.inner is Index,
    ensures
        flat_grows(types, g, e, dest),
    decreases e, 0nat,
{
    if let ExprInnerV::Index { data, index, val_size } = e.inner {
        let g0 = g.checked(codegen::has_size(types, e.typ));
        let size = codegen::opt_size(types, e.typ);
        let (i, g1) = codegen::flat(types, g0, *index, None);
        lemma_grows(g);
        lemma_flat_grows(types, g0, *index, None);
        lemma_flat_grows(types, g1.reg_of(i).1, *data, None);
        lemma_indexed_grows(types, g0, *data, *index);
        let (a, b, g2) = indexed(types, g0, *data, *index);
        let (ptr, g3) = g2.fresh(ValSize::Doubleword);
        let (d, g4) = g3.dest_or(dest, size);
        let g5 = g4.op(Op::Add { a, b, dest: ptr });
        let (s, g6) = g5.sized(val_size);
        let h = g6.op(Op::LoadPointer { ptr, size: s, dest: d });
        assert(codegen::flat(types, g, e, dest).1 == h);
        lemma_grows(g2);
        lemma_grows_more(g3);
        lemma_grows(g4);
        lemma_grows(g5);
        lemma_grows(g6);
        lemma_grows3(g, g0, g2, g3);
        lemma_grows3(g, g3, g4, g5);
        lemma_grows3(g, g5, g6, h);
    }
}

/// The register for what a call gives back.
pub open spec fn call_dest(types: TypesV, g: Gen, dest: Option<VirtualReg>, size: Option<ValSize>) -> (
    Option<VirtualReg>,
    Gen,
) {
    if dest is None && size is Some {
        let (d, g) = g.fresh(size->0);
        (Some(d), g)
    } else {
        (dest, g)
    }
}

proof fn lemma_pushed_grows(g: Gen, op: OpV)
    ensures
        grew(g, Gen { ops: g.ops.push(op), ..g }),
{
    reveal(grew);
}

proof fn lemma_call_grows(types: TypesV, g: Gen, e: ExprV<TypeId>, dest: Option<VirtualReg>)
    requires
        e.inner is FnCall,
    ensures
        flat_grows(types, g, e, dest),
    decreases e, 0nat,
{
    if let ExprInnerV::FnCall(f, args) = e.inner {
        let g0 = g.checked(codegen::has_size(types, e.typ));
        let (regs, g1) = codegen::flat_args(types, g0, args, 0, Seq::empty());
        let (d, g2) = call_dest(types, g1, dest, codegen::opt_size(types, e.typ));
        let h = codegen::flat(types, g, e, dest).1;
        lemma_grows(g);
        lemma_args_grow(types, g0, args, 0, Seq::empty());
        lemma_grows(g1);
        lemma_grew_self(g1);
        lemma_grows(g2);
        assert(grew(g1, g2));
        if let FnPtrV::Named(function) = f {
            lemma_pushed_grows(g2, OpV::Call { function, args: regs, dest: d });
        }
        assert(grew(g2, h));
        lemma_grows3(g, g0, g1, g2);
        lemma_grew_trans(g, g2, h);
    }
}

proof fn lemma_args_grow(
    types: TypesV,
    g: Gen,
    args: Seq<ExprV<TypeId>>,
    i: nat,
    done: Seq<VirtualReg>,
)
    ensures
        grew(g, codegen::flat_args(types, g, args, i, done).1),
    decreases args, (args.len() - i) as nat,
{
    if i < args.len() {
        let (x, g1) = codegen::flat(types, g, args[i as int], None);
        let (v, g2) = g1.reg_of(x);
        lemma_flat_grows(types, g, args[i as int], None);
        lemma_grows_more(g1);
        lemma_args_grow(types, g2, args, i + 1, done.push(v));
        lemma_grows3(g, g1, g2, codegen::flat_args(types, g2, args, i + 1, done.push(v)).1);
    } else {
        lemma_grew_self(g);
    }
}

/// Computing an expression adds to what was built.
proof fn lemma_flat_grows(types: TypesV, g: Gen, e: ExprV<TypeId>, dest: Option<VirtualReg>)
    ensures
        flat_grows(types, g, e, dest),
    decreases e, 1nat,
{
    match e.inner {
        ExprInnerV::Const(..)
        | ExprInnerV::Character(_)
        | ExprInnerV::String(_)
        | ExprInnerV::Bool(_)
        | ExprInnerV::Construct { .. }
        | ExprInnerV::SizeOf(_) => lemma_atom_grows(types, g, e, dest),
        ExprInnerV::Ident(_) | ExprInnerV::Pointer(_) | ExprInnerV::Deref(..) => lemma_var_grows(
            types,
            g,
            e,
            dest,
        ),
        ExprInnerV::Arithmetic(..) | ExprInnerV::Comparison(..) => lemma_two_grows(
            types,
            g,
            e,
            dest,
        ),
        ExprInnerV::Logical(..) => lemma_logical_grows(types, g, e, dest),
        ExprInnerV::Not(_)
        | ExprInnerV::Negate(_)
        | ExprInnerV::Cast(..)
        | ExprInnerV::MemberAccess(..) => lemma_one_grows(types, g, e, dest),
        ExprInnerV::Index { .. } => lemma_index_grows(types, g, e, dest),
        ExprInnerV::FnCall(..) => lemma_call_grows(types, g, e, dest),
    }
}

proof fn lemma_reaches_self(k: Machine, c: Ground, p: Point)
    ensures
        meaning::reaches(k, c, p, p),
{
    reveal(meaning::reaches);
    assert(meaning::ran(k, c, p, 0) == p);
}

proof fn lemma_ran_on(k: Machine, c: Ground, p: Point, n: nat, m: nat)
    ensures
        meaning::ran(k, c, meaning::ran(k, c, p, n), m) == meaning::ran(k, c, p, n + m),
    decreases n,
{
    if n > 0 {
        lemma_ran_on(k, c, meaning::stepped(k, c, p), (n - 1) as nat, m);
    }
}

proof fn lemma_reaches_trans(k: Machine, c: Ground, p: Point, q: Point, r: Point)
    requires
        meaning::reaches(k, c, p, q),
        meaning::reaches(k, c, q, r),
    ensures
        meaning::reaches(k, c, p, r),
{
    reveal(meaning::reaches);
    let n = choose|n: nat| #[trigger] meaning::ran(k, c, p, n) == q;
    let m = choose|m: nat| #[trigger] meaning::ran(k, c, q, m) == r;
    lemma_ran_on(k, c, p, n, m);
    assert(meaning::ran(k, c, p, n + m) == r);
}

proof fn lemma_reaches_step(k: Machine, c: Ground, p: Point)
    ensures
        meaning::reaches(k, c, p, meaning::stepped(k, c, p)),
{
    reveal(meaning::reaches);
    reveal_with_fuel(meaning::ran, 2);
    assert(meaning::ran(k, c, p, 1) == meaning::stepped(k, c, p));
}

/// The point to which building has come, in front of what comes next.
pub open spec fn here(g: Gen, w: World) -> Point {
    Point::At(g.label, g.ops.len(), w)
}

/// The first `n` registers, but for `dest`, hold what they held.
pub open spec fn kept(
    n: u32,
    dest: Option<VirtualReg>,
    a: Map<VirtualReg, u64>,
    b: Map<VirtualReg, u64>,
) -> bool {
    forall|v: VirtualReg| v.0 < n && dest != Some(v) ==> #[trigger] b[v] == a[v]
}

/// What was built from `g` to `h` leads from one state of the machine to another.
pub open spec fn leads(
    k: Machine,
    c: Ground,
    g: Gen,
    h: Gen,
    dest: Option<VirtualReg>,
    w: World,
    end: World,
) -> bool {
    &&& meaning::reaches(k, c, here(g, w), here(h, end))
    &&& kept(g.vregs, dest, w.regs, end.regs)
    &&& g.vregs <= h.vregs
}

proof fn lemma_leads(
    k: Machine,
    c: Ground,
    g: Gen,
    h: Gen,
    i: Gen,
    first: Option<VirtualReg>,
    second: Option<VirtualReg>,
    dest: Option<VirtualReg>,
    w: World,
    x: World,
    y: World,
)
    requires
        leads(k, c, g, h, first, w, x),
        leads(k, c, h, i, second, x, y),
        first matches Some(v) ==> dest == Some(v) || v.0 >= g.vregs,
        second matches Some(v) ==> dest == Some(v) || v.0 >= g.vregs,
    ensures
        leads(k, c, g, i, dest, w, y),
{
    lemma_reaches_trans(k, c, here(g, w), here(h, x), here(i, y));
    assert forall|v: VirtualReg| v.0 < g.vregs && dest != Some(v) implies #[trigger] y.regs[v]
        == w.regs[v] by {
        assert(y.regs[v] == x.regs[v]);
        assert(x.regs[v] == w.regs[v]);
    }
}

/// Nothing that runs was added.
pub open spec fn quiet(g: Gen, h: Gen) -> bool {
    h.label == g.label && h.ops == g.ops && g.vregs <= h.vregs
}

proof fn lemma_quiet(k: Machine, c: Ground, g: Gen, h: Gen, w: World)
    requires
        quiet(g, h),
    ensures
        leads(k, c, g, h, None, w, w),
{
    lemma_reaches_self(k, c, here(g, w));
}

proof fn lemma_quiets(g: Gen)
    ensures
        forall|b: bool| quiet(g, #[trigger] g.checked(b)),
        forall|v: VirtualReg| quiet(g, #[trigger] g.declares(v)),
        forall|s: ValSize| quiet(g, (#[trigger] g.fresh(s)).1),
        quiet(g, g.fresh_label().1),
        forall|s: Option<ValSize>| quiet(g, (#[trigger] g.sized(s)).1),
        forall|d: Option<VirtualReg>, s: Option<ValSize>| quiet(g, (#[trigger] g.dest_or(d, s)).1),
        forall|n: Seq<char>| quiet(g, (#[trigger] g.var(n)).1),
{
    reveal(Gen::checked);
    reveal(Gen::declares);
    reveal(Gen::fresh);
    reveal(Gen::fresh_label);
    reveal(Gen::sized);
    reveal(Gen::dest_or);
    reveal(Gen::var);
}

/// A fresh register is behind all that were in use, and has the size that was asked for.
proof fn lemma_fresh(c: Ground, s: Scope, g: Gen, size: ValSize)
    requires
        ready(c, s, g.fresh(size).1),
    ensures
        ready(c, s, g),
        g.fresh(size).0.0 == g.vregs,
        g.fresh(size).1.vregs == g.vregs + 1,
        c.sizes[g.fresh(size).0] == size,
        g.fresh(size).1.mem == g.mem,
        g.fresh(size).1.args == g.args,
{
    lemma_grows(g);
    lemma_back(c, s, g, g.fresh(size).1);
    reveal(Gen::fresh);
    reveal(Gen::checked);
    reveal(fits);
    assert(in_use(g.fresh(size).1, g.fresh(size).0));
}

proof fn lemma_sized(c: Ground, s: Scope, g: Gen, size: Option<ValSize>)
    requires
        ready(c, s, g.sized(size).1),
    ensures
        size is Some,
        g.sized(size) == (size->0, g),
        ready(c, s, g),
{
    reveal(Gen::sized);
    reveal(Gen::checked);
}

proof fn lemma_dest_or(
    c: Ground,
    s: Scope,
    g: Gen,
    dest: Option<VirtualReg>,
    size: Option<ValSize>,
)
    requires
        ready(c, s, g.dest_or(dest, size).1),
        dest matches Some(d) ==> d.0 < g.vregs,
    ensures
        ready(c, s, g),
        g.dest_or(dest, size).0.0 < g.dest_or(dest, size).1.vregs,
        dest matches Some(d) ==> g.dest_or(dest, size).0 == d,
        dest is None ==> size is Some && g.dest_or(dest, size).0.0 == g.vregs
            && c.sizes[g.dest_or(dest, size).0] == size->0,
{
    lemma_grows_more(g);
    lemma_back(c, s, g, g.dest_or(dest, size).1);
    reveal(Gen::dest_or);
    if dest is None {
        let (t, h) = g.sized(size);
        lemma_grows(h);
        lemma_back(c, s, h, h.fresh(t).1);
        lemma_sized(c, s, g, size);
        lemma_fresh(c, s, h, t);
    }
}

proof fn lemma_checked(c: Ground, s: Scope, g: Gen, b: bool)
    requires
        ready(c, s, g.checked(b)),
    ensures
        b,
        g.checked(b) == g,
        ready(c, s, g),
{
    reveal(Gen::checked);
}

/// An operation is performed.
proof fn lemma_op(k: Machine, c: Ground, s: Scope, g: Gen, op: Op, w: World)
    requires
        ready(c, s, g.op(op)),
    ensures
        ready(c, s, g),
        meaning::reaches(k, c, here(g, w), here(g.op(op), meaning::performed(k, c, op, w))),
        g.op(op).vregs == g.vregs,
{
    lemma_grows(g);
    lemma_back(c, s, g, g.op(op));
    reveal(Gen::op);
    lemma_pushed(k, c, g, OpV::Plain(op), w);
}

proof fn lemma_pushed(k: Machine, c: Ground, g: Gen, op: OpV, w: World)
    requires
        fits(c, Gen { ops: g.ops.push(op), ..g }),
    ensures
        meaning::reaches(
            k,
            c,
            here(g, w),
            here(Gen { ops: g.ops.push(op), ..g }, meaning::done(k, c, op, w)),
        ),
{
    reveal(fits);
    let h = Gen { ops: g.ops.push(op), ..g };
    lemma_reaches_step(k, c, here(g, w));
    assert(c.blocks[g.label].0[g.ops.len() as int] == h.ops[g.ops.len() as int]);
}

/// A value is in a register.
proof fn lemma_reg_of(k: Machine, c: Ground, s: Scope, g: Gen, src: SourceVal, w: World) -> (end:
    World)
    requires
        ready(c, s, g.reg_of(src).1),
        src matches SourceVal::VReg(v) ==> v.0 < g.vregs,
    ensures
        ready(c, s, g),
        leads(k, c, g, g.reg_of(src).1, None, w, end),
        end.mem == w.mem,
        end.regs[g.reg_of(src).0] == meaning::source_value(k, c, src, w.regs),
        g.reg_of(src).0.0 < g.reg_of(src).1.vregs,
{
    lemma_grows_more(g);
    lemma_back(c, s, g, g.reg_of(src).1);
    reveal(Gen::reg_of);
    match src {
        SourceVal::VReg(v) => {
            lemma_reaches_self(k, c, here(g, w));
            w
        },
        _ => {
            let (dest, g1) = g.fresh(ValSize::Doubleword);
            let op = Op::Assign { src, dest };
            lemma_op(k, c, s, g1, op, w);
            lemma_fresh(c, s, g, ValSize::Doubleword);
            lemma_quiets(g);
            meaning::performed(k, c, op, w)
        },
    }
}

/// A value stays what it is while no register in use changes.
proof fn lemma_source(
    k: Machine,
    c: Ground,
    src: SourceVal,
    n: u32,
    a: Map<VirtualReg, u64>,
    b: Map<VirtualReg, u64>,
)
    requires
        kept(n, None, a, b),
        src matches SourceVal::VReg(v) ==> v.0 < n,
    ensures
        meaning::source_value(k, c, src, b) == meaning::source_value(k, c, src, a),
{
}

/// A variable is loaded.
proof fn lemma_loaded(
    k: Machine,
    c: Ground,
    types: TypesV,
    s: Scope,
    g: Gen,
    var: Seq<char>,
    dest: VirtualReg,
    w: World,
) -> (end: World)
    requires
        ready(c, s, codegen::loaded(types, g, var, dest)),
        dest.0 < g.vregs,
    ensures
        ready(c, s, g),
        leads(k, c, g, codegen::loaded(types, g, var, dest), Some(dest), w, end),
        end.mem == w.mem,
        end.regs[dest] == meaning::read(types, k, s.place(var), Some(c.sizes[dest]), w.mem),
{
    lemma_loaded_grows(types, g, var, dest);
    lemma_back(c, s, g, codegen::loaded(types, g, var, dest));
    reveal(codegen::loaded);
    reveal(lies);
    if g.mem.allocs.contains_key(var) {
        let (offset, typ) = g.mem.allocs[var];
        let (ptr, g1) = g.fresh(ValSize::Doubleword);
        let set = Op::Assign { src: SourceVal::StaticMem(offset), dest: ptr };
        let g2 = g1.op(set);
        let (size, g3) = g2.sized(codegen::size_of(types, typ));
        let load = Op::LoadPointer { ptr, size, dest };
        let h = g3.op(load);
        let x = meaning::performed(k, c, set, w);
        let y = meaning::performed(k, c, load, x);
        lemma_op(k, c, s, g3, load, x);
        lemma_sized(c, s, g2, codegen::size_of(types, typ));
        lemma_op(k, c, s, g1, set, w);
        lemma_fresh(c, s, g, ValSize::Doubleword);
        lemma_quiets(g);
        lemma_reaches_trans(k, c, here(g, w), here(g2, x), here(h, y));
        y
    } else {
        let (v, g1) = g.var(var);
        lemma_grows(g1);
        assert(grew(g1, codegen::loaded(types, g, var, dest)));
        lemma_back(c, s, g1, codegen::loaded(types, g, var, dest));
        reveal(Gen::var);
        reveal(Gen::checked);
        let op = if g1.args.contains_key(v.0) {
            Op::LoadArg { offset: g1.args[v.0], dest }
        } else {
            Op::Load { stack_offset: g1.stack[v.0], dest }
        };
        assert(g1 == g && g.vars.contains_key(var));
        assert(codegen::loaded(types, g, var, dest) == g1.op(op));
        lemma_op(k, c, s, g1, op, w);
        meaning::performed(k, c, op, w)
    }
}

/// Whether the members that an expression reads lie near enough to the beginnings of their structs.
pub open spec fn near(types: TypesV, e: ExprV<TypeId>) -> bool
    decreases e, 0nat,
{
    match e.inner {
        ExprInnerV::Arithmetic(a, b, _, _) => near(types, *a) && near(types, *b),
        ExprInnerV::Comparison(a, b, _, _) => near(types, *a) && near(types, *b),
        ExprInnerV::Logical(a, b, _) => near(types, *a) && near(types, *b),
        ExprInnerV::Not(a) => near(types, *a),
        ExprInnerV::Negate(a) => near(types, *a),
        ExprInnerV::Cast(a, _) => near(types, *a),
        ExprInnerV::Index { data, index, .. } => near(types, *data) && near(types, *index),
        ExprInnerV::MemberAccess(a, member, t) => near(types, *a) && meaning::member_offset(
            types,
            t,
            member,
        ) < 0x1_0000_0000,
        ExprInnerV::FnCall(_, args) => near_args(types, args, args.len()),
        _ => true,
    }
}

pub open spec fn near_args(types: TypesV, args: Seq<ExprV<TypeId>>, n: nat) -> bool
    decreases args, n,
{
    if n == 0 || n > args.len() {
        true
    } else {
        near_args(types, args, (n - 1) as nat) && near(types, args[n - 1])
    }
}

/// Whether an expression can be computed into a register of a given size: a member that is read takes as
/// many bytes, and a function that is called gives back a value.
pub open spec fn suits(types: TypesV, e: ExprV<TypeId>, size: ValSize) -> bool
    decreases e,
{
    match e.inner {
        ExprInnerV::Not(a) => suits(types, *a, size),
        ExprInnerV::Negate(a) => suits(types, *a, size),
        ExprInnerV::Cast(a, _) => suits(types, *a, size),
        ExprInnerV::MemberAccess(..) => meaning::type_size(types, e.typ) == Some(size),
        ExprInnerV::FnCall(..) => meaning::type_size(types, e.typ) is Some,
        _ => true,
    }
}

/// Whether an expression can be computed into a register, if one is given.
pub open spec fn wanted(
    c: Ground,
    types: TypesV,
    g: Gen,
    e: ExprV<TypeId>,
    dest: Option<VirtualReg>,
) -> bool {
    dest matches Some(d) ==> d.0 < g.vregs && suits(types, e, c.sizes[d])
}

/// What was built for an expression computes its value.
pub open spec fn computes(
    k: Machine,
    c: Ground,
    types: TypesV,
    s: Scope,
    g: Gen,
    e: ExprV<TypeId>,
    dest: Option<VirtualReg>,
    w: World,
    end: World,
) -> bool {
    let (src, h) = codegen::flat(types, g, e, dest);
    let (n, m) = meaning::value(types, s, k, w.mem, e);
    &&& leads(k, c, g, h, dest, w, end)
    &&& end.mem == m
    &&& meaning::source_value(k, c, src, end.regs) == n
    &&& src matches SourceVal::VReg(v) ==> v.0 < h.vregs
}

proof fn lemma_string(strings: Seq<Seq<char>>, t: Seq<char>)
    ensures
        0 <= ir::string_index(strings, t) <= strings.len(),
        ir::string_index(strings, t) < ir::with_string(strings, t).len(),
        ir::with_string(strings, t)[ir::string_index(strings, t)] == t,
    decreases strings.len(),
{
    if strings.len() > 0 && strings[0] != t {
        let rest = strings.drop_first();
        lemma_string(rest, t);
        let i = ir::string_index(rest, t);
        if i < rest.len() {
            assert(rest[i] == strings[i + 1]);
        }
    }
}

/// A literal is its value.
proof fn lemma_atom_value(
    k: Machine,
    c: Ground,
    types: TypesV,
    s: Scope,
    g: Gen,
    e: ExprV<TypeId>,
    dest: Option<VirtualReg>,
    w: World,
)
    requires
        match e.inner {
            ExprInnerV::Const(..)
            | ExprInnerV::Character(_)
            | ExprInnerV::String(_)
            | ExprInnerV::Bool(_)
            | ExprInnerV::Construct { .. }
            | ExprInnerV::SizeOf(_) => true,
            _ => false,
        },
        ready(c, s, codegen::flat(types, g, e, dest).1),
    ensures
        computes(k, c, types, s, g, e, dest, w, w),
{
    let (src, h) = codegen::flat(types, g, e, dest);
    let g0 = g.checked(codegen::has_size(types, e.typ));
    reveal(Gen::checked);
    assert(quiet(g, h));
    lemma_quiet(k, c, g, h, w);
    if let ExprInnerV::String(t) = e.inner {
        reveal(fits);
        lemma_string(g0.strings, t);
        let i = ir::string_index(g0.strings, t);
        assert(c.strings[i] == h.strings[i]);
    }
}

proof fn lemma_var_value(
    k: Machine,
    c: Ground,
    types: TypesV,
    s: Scope,
    g: Gen,
    e: ExprV<TypeId>,
    dest: Option<VirtualReg>,
    w: World,
) -> (end: World)
    requires
        e.inner is Ident || e.inner is Pointer || e.inner is Deref,
        ready(c, s, codegen::flat(types, g, e, dest).1),
        wanted(c, types, g, e, dest),
    ensures
        computes(k, c, types, s, g, e, dest, w, end),
{
    let g0 = g.checked(codegen::has_size(types, e.typ));
    let size = codegen::opt_size(types, e.typ);
    let (src, h) = codegen::flat(types, g, e, dest);
    lemma_quiets(g);
    lemma_quiets(g0);
    match e.inner {
        ExprInnerV::Ident(var) => {
            let (t, g1) = g0.sized(size);
            let (d, g2) = g1.fresh(t);
            lemma_loaded_grows(types, g2, var, d);
            lemma_back(c, s, g2, h);
            lemma_fresh(c, s, g1, t);
            lemma_quiets(g1);
            let end = lemma_loaded(k, c, types, s, g2, var, d, w);
            lemma_sized(c, s, g0, size);
            lemma_checked(c, s, g, codegen::has_size(types, e.typ));
            lemma_quiet(k, c, g, g2, w);
            lemma_leads(k, c, g, g2, h, None, Some(d), dest, w, w, end);
            end
        },
        ExprInnerV::Pointer(var) => {
            let (val, g1) = g0.var(var);
            let (d, g2) = g1.dest_or(dest, size);
            let op = if g2.args.contains_key(val.0) {
                Op::AddressOfArg { offset: g2.args[val.0], dest: d }
            } else {
                Op::AddressOf { val, dest: d }
            };
            assert(h == g2.op(op));
            lemma_op(k, c, s, g2, op, w);
            lemma_quiets(g1);
            lemma_grows_more(g1);
            lemma_back(c, s, g1, g2);
            lemma_dest_or(c, s, g1, dest, size);
            lemma_pointer(c, s, g0, var, g2, val, d);
            let end = meaning::performed(k, c, op, w);
            lemma_quiet(k, c, g, g2, w);
            lemma_leads(k, c, g, g2, h, None, Some(d), dest, w, w, end);
            end
        },
        ExprInnerV::Deref(var, typ) => {
            let (ptr, g1) = g0.fresh(ValSize::Doubleword);
            let (d, g2) = g1.dest_or(dest, size);
            let g3 = codegen::loaded(types, g2, var, ptr);
            let (t, g4) = g3.sized(codegen::opt_size(types, typ));
            let op = Op::LoadPointer { ptr, size: t, dest: d };
            lemma_grows(g4);
            lemma_back(c, s, g4, h);
            lemma_sized(c, s, g3, codegen::opt_size(types, typ));
            lemma_loaded_grows(types, g2, var, ptr);
            lemma_back(c, s, g2, g3);
            lemma_grows_more(g1);
            lemma_back(c, s, g1, g2);
            lemma_fresh(c, s, g0, ValSize::Doubleword);
            lemma_quiets(g1);
            lemma_dest_or(c, s, g1, dest, size);
            let x = lemma_loaded(k, c, types, s, g2, var, ptr, w);
            lemma_op(k, c, s, g4, op, x);
            let end = meaning::performed(k, c, op, x);
            lemma_quiet(k, c, g, g2, w);
            lemma_leads(k, c, g, g2, g3, None, Some(ptr), dest, w, w, x);
            lemma_leads(k, c, g, g3, h, dest, Some(d), dest, w, x, end);
            end
        },
        _ => w,
    }
}

/// A variable whose address is taken is one of the function.
proof fn lemma_pointer(
    c: Ground,
    s: Scope,
    g: Gen,
    var: Seq<char>,
    h: Gen,
    val: VirtualReg,
    dest: VirtualReg,
)
    requires
        g.var(var).0 == val,
        ready(c, s, g.var(var).1),
        ready(c, s, h),
        grew(g.var(var).1, h),
    ensures
        s.vars.contains_key(var),
        s.vars[var] == val,
        h.args == s.args,
        c.stack == s.stack,
{
    reveal(Gen::var);
    reveal(Gen::checked);
    reveal(lies);
    reveal(fits);
    reveal(grew);
}

/// Two operands that are computed are in registers.
proof fn lemma_both(
    k: Machine,
    c: Ground,
    types: TypesV,
    s: Scope,
    g: Gen,
    a: ExprV<TypeId>,
    b: ExprV<TypeId>,
    w: World,
    x: World,
    y: World,
) -> (end: World)
    requires
        ready(c, s, both(types, g, a, b).2),
        computes(k, c, types, s, g, a, None, w, x),
        computes(k, c, types, s, codegen::flat(types, g, a, None).1, b, None, x, y),
    ensures
        leads(k, c, g, both(types, g, a, b).2, None, w, end),
        both(types, g, a, b).0.0 < both(types, g, a, b).2.vregs,
        both(types, g, a, b).1.0 < both(types, g, a, b).2.vregs,
        ({
            let (n, m) = meaning::value(types, s, k, w.mem, a);
            let (p, m) = meaning::value(types, s, k, m, b);
            &&& end.mem == m
            &&& end.regs[both(types, g, a, b).0] == n
            &&& end.regs[both(types, g, a, b).1] == p
        }),
{
    let (l, g1) = codegen::flat(types, g, a, None);
    let (r, g2) = codegen::flat(types, g1, b, None);
    let (u, g3) = g2.reg_of(l);
    let (v, g4) = g3.reg_of(r);
    lemma_grows_more(g3);
    lemma_back(c, s, g3, g4);
    lemma_grows_more(g2);
    lemma_back(c, s, g2, g3);
    lemma_source(k, c, l, g1.vregs, x.regs, y.regs);
    let z = lemma_reg_of(k, c, s, g2, l, y);
    lemma_source(k, c, r, g2.vregs, y.regs, z.regs);
    let end = lemma_reg_of(k, c, s, g3, r, z);
    lemma_leads(k, c, g, g1, g2, None, None, None, w, x, y);
    lemma_leads(k, c, g, g2, g3, None, None, None, w, y, z);
    lemma_leads(k, c, g, g3, g4, None, None, None, w, z, end);
    end
}

proof fn lemma_two_value(
    k: Machine,
    c: Ground,
    types: TypesV,
    s: Scope,
    g: Gen,
    e: ExprV<TypeId>,
    dest: Option<VirtualReg>,
    w: World,
) -> (end: World)
    requires
        e.inner is Arithmetic || e.inner is Comparison,
        ready(c, s, codegen::flat(types, g, e, dest).1),
        wanted(c, types, g, e, dest),
        near(types, e),
    ensures
        computes(k, c, types, s, g, e, dest, w, end),
    decreases e, 1nat,
{
    let g0 = g.checked(codegen::has_size(types, e.typ));
    let size = codegen::opt_size(types, e.typ);
    let h = codegen::flat(types, g, e, dest).1;
    match e.inner {
        ExprInnerV::Arithmetic(a, b, _, _) | ExprInnerV::Comparison(a, b, _, _) => {
            let (l, g1) = codegen::flat(types, g0, *a, None);
            let (r, g2) = codegen::flat(types, g1, *b, None);
            let (u, v, g3) = both(types, g0, *a, *b);
            let (d, g4) = g3.dest_or(dest, size);
            let op = match e.inner {
                ExprInnerV::Arithmetic(_, _, op, _) => codegen::arithmetic_op(op, u, v, d),
                ExprInnerV::Comparison(_, _, op, sign) => Op::Compare {
                    a: u,
                    b: v,
                    cond: ir::condition_of(op, sign == Some(Sign::Signed)),
                    dest: d,
                },
                _ => Op::Not { val: u, dest: d },
            };
            assert(h == g4.op(op));
            lemma_grows(g4);
            lemma_back(c, s, g4, h);
            lemma_grows_more(g3);
            lemma_back(c, s, g3, g4);
            lemma_flat_grows(types, g0, *a, None);
            lemma_flat_grows(types, g1, *b, None);
            lemma_both_grows(types, g0, *a, *b);
            lemma_back(c, s, g0, g3);
            lemma_grows_more(g2);
            lemma_grows_more(g2.reg_of(l).1);
            lemma_back(c, s, g2.reg_of(l).1, g3);
            lemma_back(c, s, g2, g2.reg_of(l).1);
            lemma_back(c, s, g1, g2);
            lemma_checked(c, s, g, codegen::has_size(types, e.typ));
            let x = law_value(k, c, types, s, g0, *a, None, w);
            let y = law_value(k, c, types, s, g1, *b, None, x);
            let z = lemma_both(k, c, types, s, g0, *a, *b, w, x, y);
            lemma_dest_or(c, s, g3, dest, size);
            lemma_quiets(g3);
            lemma_quiet(k, c, g3, g4, z);
            lemma_op(k, c, s, g4, op, z);
            let end = meaning::performed(k, c, op, z);
            lemma_leads(k, c, g, g3, g4, None, None, dest, w, z, z);
            lemma_leads(k, c, g, g4, h, dest, Some(d), dest, w, z, end);
            lemma_operation(k, c, e, u, v, d, z);
            end
        },
        _ => w,
    }
}

/// The operation that an operator becomes does what the operator says.
proof fn lemma_operation(
    k: Machine,
    c: Ground,
    e: ExprV<TypeId>,
    u: VirtualReg,
    v: VirtualReg,
    d: VirtualReg,
    w: World,
)
    ensures
        e.inner matches ExprInnerV::Arithmetic(_, _, op, _) ==> meaning::performed(
            k,
            c,
            codegen::arithmetic_op(op, u, v, d),
            w,
        ) == w.set(d, meaning::combined(op, w.regs[u], w.regs[v])),
        e.inner matches ExprInnerV::Comparison(_, _, op, sign) ==> meaning::performed(
            k,
            c,
            Op::Compare {
                a: u,
                b: v,
                cond: ir::condition_of(op, sign == Some(Sign::Signed)),
                dest: d,
            },
            w,
        ) == w.set(
            d,
            meaning::truth(
                meaning::compares(op, sign == Some(Sign::Signed), w.regs[u], w.regs[v]),
            ),
        ),
{
    if let ExprInnerV::Comparison(_, _, op, sign) = e.inner {
        meaning::law_condition(op, sign == Some(Sign::Signed), w.regs[u], w.regs[v]);
    }
}

proof fn lemma_one_value(
    k: Machine,
    c: Ground,
    types: TypesV,
    s: Scope,
    g: Gen,
    e: ExprV<TypeId>,
    dest: Option<VirtualReg>,
    w: World,
) -> (end: World)
    requires
        e.inner is Not || e.inner is Negate || e.inner is Cast,
        ready(c, s, codegen::flat(types, g, e, dest).1),
        wanted(c, types, g, e, dest),
        near(types, e),
    ensures
        computes(k, c, types, s, g, e, dest, w, end),
    decreases e, 1nat,
{
    let g0 = g.checked(codegen::has_size(types, e.typ));
    let size = codegen::opt_size(types, e.typ);
    let h = codegen::flat(types, g, e, dest).1;
    match e.inner {
        ExprInnerV::Not(a) | ExprInnerV::Negate(a) => {
            let (x, g1) = codegen::flat(types, g0, *a, dest);
            let (val, g2) = g1.reg_of(x);
            let (d, g3) = g2.dest_or(dest, size);
            let op = if e.inner is Not {
                Op::Not { val, dest: d }
            } else {
                Op::Negate { val, dest: d }
            };
            assert(h == g3.op(op));
            lemma_grows(g3);
            lemma_back(c, s, g3, h);
            lemma_grows_more(g2);
            lemma_back(c, s, g2, g3);
            lemma_grows_more(g1);
            lemma_back(c, s, g1, g2);
            lemma_flat_grows(types, g0, *a, dest);
            lemma_back(c, s, g0, g1);
            lemma_checked(c, s, g, codegen::has_size(types, e.typ));
            let p = law_value(k, c, types, s, g0, *a, dest, w);
            let q = lemma_reg_of(k, c, s, g1, x, p);
            lemma_dest_or(c, s, g2, dest, size);
            lemma_quiets(g2);
            lemma_quiet(k, c, g2, g3, q);
            lemma_op(k, c, s, g3, op, q);
            let end = meaning::performed(k, c, op, q);
            lemma_leads(k, c, g, g1, g2, dest, None, dest, w, p, q);
            lemma_leads(k, c, g, g2, g3, dest, None, dest, w, q, q);
            lemma_leads(k, c, g, g3, h, dest, Some(d), dest, w, q, end);
            end
        },
        ExprInnerV::Cast(a, _) => {
            lemma_flat_grows(types, g0, *a, dest);
            lemma_back(c, s, g0, h);
            lemma_checked(c, s, g, codegen::has_size(types, e.typ));
            law_value(k, c, types, s, g0, *a, dest, w)
        },
        _ => w,
    }
}

proof fn lemma_member_value(
    k: Machine,
    c: Ground,
    types: TypesV,
    s: Scope,
    g: Gen,
    e: ExprV<TypeId>,
    dest: Option<VirtualReg>,
    w: World,
) -> (end: World)
    requires
        e.inner is MemberAccess,
        ready(c, s, codegen::flat(types, g, e, dest).1),
        wanted(c, types, g, e, dest),
        near(types, e),
    ensures
        computes(k, c, types, s, g, e, dest, w, end),
    decreases e, 1nat,
{
    let g0 = g.checked(codegen::has_size(types, e.typ));
    let size = codegen::opt_size(types, e.typ);
    let h = codegen::flat(types, g, e, dest).1;
    match e.inner {
        ExprInnerV::MemberAccess(a, member, typ) => {
            let (x, g1) = codegen::flat(types, g0, *a, None);
            let (base, g2) = g1.reg_of(x);
            let found = codegen::offset_of(types, typ, member);
            let g3 = g2.checked(found is Some);
            let (d, g4) = g3.dest_or(dest, size);
            let offset = codegen::low_half(meaning::member_offset(types, typ, member));
            let op = Op::LoadOffset { base, offset, dest: d };
            lemma_grows(g4);
            assert(grew(g4, h));
            lemma_back(c, s, g4, h);
            lemma_grows_more(g3);
            lemma_back(c, s, g3, g4);
            lemma_checked(c, s, g2, found is Some);
            assert(h == g4.op(op));
            lemma_grows_more(g1);
            lemma_back(c, s, g1, g2);
            lemma_flat_grows(types, g0, *a, None);
            lemma_back(c, s, g0, g1);
            lemma_checked(c, s, g, codegen::has_size(types, e.typ));
            let p = law_value(k, c, types, s, g0, *a, None, w);
            let q = lemma_reg_of(k, c, s, g1, x, p);
            lemma_dest_or(c, s, g3, dest, size);
            lemma_quiets(g3);
            lemma_quiet(k, c, g3, g4, q);
            lemma_op(k, c, s, g4, op, q);
            let end = meaning::performed(k, c, op, q);
            lemma_leads(k, c, g, g1, g2, None, None, dest, w, p, q);
            lemma_leads(k, c, g, g2, g4, dest, None, dest, w, q, q);
            lemma_leads(k, c, g, g4, h, dest, Some(d), dest, w, q, end);
            end
        },
        _ => w,
    }
}

/// An index and what it is an index of, when computed, are in registers.
proof fn lemma_indexed(
    k: Machine,
    c: Ground,
    types: TypesV,
    s: Scope,
    g: Gen,
    e: ExprV<TypeId>,
    data: ExprV<TypeId>,
    index: ExprV<TypeId>,
    w: World,
) -> (end: World)
    requires
        e.inner matches ExprInnerV::Index { data: x, index: y, .. } && *x == data && *y == index,
        ready(c, s, indexed(types, g, data, index).2),
        near(types, e),
    ensures
        ready(c, s, g),
        leads(k, c, g, indexed(types, g, data, index).2, None, w, end),
        indexed(types, g, data, index).0.0 < indexed(types, g, data, index).2.vregs,
        indexed(types, g, data, index).1.0 < indexed(types, g, data, index).2.vregs,
        ({
            let (i, m) = meaning::value(types, s, k, w.mem, index);
            let (d, m) = meaning::value(types, s, k, m, data);
            &&& end.mem == m
            &&& end.regs[indexed(types, g, data, index).0] == d
            &&& end.regs[indexed(types, g, data, index).1] == i
        }),
    decreases e, 0nat,
{
    let (i, g1) = codegen::flat(types, g, index, None);
    let (b, g2) = g1.reg_of(i);
    let (d, g3) = codegen::flat(types, g2, data, None);
    let (a, g4) = g3.reg_of(d);
    lemma_grows_more(g3);
    lemma_back(c, s, g3, g4);
    lemma_flat_grows(types, g2, data, None);
    lemma_back(c, s, g2, g3);
    lemma_grows_more(g1);
    lemma_back(c, s, g1, g2);
    lemma_flat_grows(types, g, index, None);
    lemma_back(c, s, g, g1);
    let p = law_value(k, c, types, s, g, index, None, w);
    let q = lemma_reg_of(k, c, s, g1, i, p);
    let r = law_value(k, c, types, s, g2, data, None, q);
    let end = lemma_reg_of(k, c, s, g3, d, r);
    assert(r.regs[b] == q.regs[b]);
    assert(end.regs[b] == r.regs[b]);
    lemma_leads(k, c, g, g1, g2, None, None, None, w, p, q);
    lemma_leads(k, c, g, g2, g3, None, None, None, w, q, r);
    lemma_leads(k, c, g, g3, g4, None, None, None, w, r, end);
    end
}

proof fn lemma_index_value(
    k: Machine,
    c: Ground,
    types: TypesV,
    s: Scope,
    g: Gen,
    e: ExprV<TypeId>,
    dest: Option<VirtualReg>,
    w: World,
) -> (end: World)
    requires
        e.inner is Index,
        ready(c, s, codegen::flat(types, g, e, dest).1),
        wanted(c, types, g, e, dest),
        near(types, e),
    ensures
        computes(k, c, types, s, g, e, dest, w, end),
    decreases e, 1nat,
{
    let g0 = g.checked(codegen::has_size(types, e.typ));
    let size = codegen::opt_size(types, e.typ);
    let h = codegen::flat(types, g, e, dest).1;
    match e.inner {
        ExprInnerV::Index { data, index, val_size } => {
            let (a, b, g2) = indexed(types, g0, *data, *index);
            let (ptr, g3) = g2.fresh(ValSize::Doubleword);
            let (d, g4) = g3.dest_or(dest, size);
            let add = Op::Add { a, b, dest: ptr };
            let g5 = g4.op(add);
            let (t, g6) = g5.sized(val_size);
            let load = Op::LoadPointer { ptr, size: t, dest: d };
            assert(h == g6.op(load));
            lemma_grows(g6);
            lemma_back(c, s, g6, h);
            lemma_sized(c, s, g5, val_size);
            lemma_grows(g4);
            lemma_back(c, s, g4, g5);
            lemma_grows_more(g3);
            lemma_back(c, s, g3, g4);
            lemma_fresh(c, s, g2, ValSize::Doubleword);
            let p = lemma_indexed(k, c, types, s, g0, e, *data, *index, w);
            lemma_checked(c, s, g, codegen::has_size(types, e.typ));
            lemma_quiets(g2);
            lemma_quiets(g3);
            lemma_dest_or(c, s, g3, dest, size);
            lemma_quiet(k, c, g2, g4, p);
            lemma_op(k, c, s, g4, add, p);
            let q = meaning::performed(k, c, add, p);
            lemma_op(k, c, s, g6, load, q);
            let end = meaning::performed(k, c, load, q);
            lemma_leads(k, c, g, g2, g4, None, None, dest, w, p, p);
            lemma_leads(k, c, g, g4, g5, dest, Some(ptr), dest, w, p, q);
            lemma_leads(k, c, g, g5, h, dest, Some(d), dest, w, q, end);
            end
        },
        _ => w,
    }
}

/// The arguments that are computed are in registers.
proof fn lemma_args_value(
    k: Machine,
    c: Ground,
    types: TypesV,
    s: Scope,
    first: Gen,
    g: Gen,
    args: Seq<ExprV<TypeId>>,
    i: nat,
    done: Seq<VirtualReg>,
    begin: World,
    w: World,
) -> (end: World)
    requires
        i <= args.len(),
        ready(c, s, codegen::flat_args(types, g, args, i, done).1),
        near_args(types, args, args.len()),
        leads(k, c, first, g, None, begin, w),
        holds_args(types, s, k, begin.mem, args, i, g.vregs, done, w),
    ensures
        ({
            let (regs, h) = codegen::flat_args(types, g, args, i, done);
            &&& leads(k, c, first, h, None, begin, end)
            &&& holds_args(types, s, k, begin.mem, args, args.len(), h.vregs, regs, end)
        }),
    decreases args, (args.len() - i) as nat,
{
    if i < args.len() {
        let arg = args[i as int];
        let (x, g1) = codegen::flat(types, g, arg, None);
        let (v, g2) = g1.reg_of(x);
        lemma_args_grow(types, g2, args, i + 1, done.push(v));
        lemma_back(c, s, g2, codegen::flat_args(types, g2, args, i + 1, done.push(v)).1);
        lemma_grows_more(g1);
        lemma_back(c, s, g1, g2);
        lemma_near_args(types, args, args.len(), i as int);
        let p = law_value(k, c, types, s, g, arg, None, w);
        let q = lemma_reg_of(k, c, s, g1, x, p);
        lemma_leads(k, c, first, g, g1, None, None, None, begin, w, p);
        lemma_leads(k, c, first, g1, g2, None, None, None, begin, p, q);
        let done1 = done.push(v);
        let xs = meaning::values(types, s, k, begin.mem, args, i + 1).0;
        assert forall|j: int| 0 <= j < done1.len() implies (#[trigger] done1[j]).0 < g2.vregs
            && q.regs[done1[j]] == xs[j] by {
            if j < i {
                assert(done1[j] == done[j]);
                assert(done[j].0 < g.vregs);
                assert(w.regs[done[j]] == meaning::values(types, s, k, begin.mem, args, i).0[j]);
                assert(p.regs[done[j]] == w.regs[done[j]]);
                assert(q.regs[done[j]] == p.regs[done[j]]);
            }
        }
        lemma_args_value(k, c, types, s, first, g2, args, i + 1, done1, begin, q)
    } else {
        w
    }
}

/// The first `n` arguments are in registers.
pub open spec fn holds_args(
    types: TypesV,
    s: Scope,
    k: Machine,
    mem: Memory,
    args: Seq<ExprV<TypeId>>,
    n: nat,
    vregs: u32,
    regs: Seq<VirtualReg>,
    w: World,
) -> bool {
    let (xs, m) = meaning::values(types, s, k, mem, args, n);
    &&& w.mem == m
    &&& regs.len() == n && xs.len() == n
    &&& forall|j: int|
        0 <= j < regs.len() ==> (#[trigger] regs[j]).0 < vregs && w.regs[regs[j]] == xs[j]
}

proof fn lemma_near_args(types: TypesV, args: Seq<ExprV<TypeId>>, n: nat, i: int)
    requires
        near_args(types, args, n),
        0 <= i < n <= args.len(),
    ensures
        near(types, args[i]),
    decreases n,
{
    if i < n - 1 {
        lemma_near_args(types, args, (n - 1) as nat, i);
    }
}

proof fn lemma_call_value(
    k: Machine,
    c: Ground,
    types: TypesV,
    s: Scope,
    g: Gen,
    e: ExprV<TypeId>,
    dest: Option<VirtualReg>,
    w: World,
) -> (end: World)
    requires
        e.inner is FnCall,
        ready(c, s, codegen::flat(types, g, e, dest).1),
        wanted(c, types, g, e, dest),
        near(types, e),
    ensures
        computes(k, c, types, s, g, e, dest, w, end),
    decreases e, 1nat,
{
    let g0 = g.checked(codegen::has_size(types, e.typ));
    let size = codegen::opt_size(types, e.typ);
    let h = codegen::flat(types, g, e, dest).1;
    match e.inner {
        ExprInnerV::FnCall(f, args) => {
            let (regs, g1) = codegen::flat_args(types, g0, args, 0, Seq::empty());
            let (d, g2) = call_dest(types, g1, dest, size);
            reveal(Gen::checked);
            assert(f is Named);
            let function = f->Named_0;
            let op = OpV::Call { function, args: regs, dest: d };
            assert(h == Gen { ops: g2.ops.push(op), ..g2 });
            lemma_pushed_grows(g2, op);
            lemma_back(c, s, g2, h);
            lemma_grows(g1);
            lemma_grew_self(g1);
            lemma_back(c, s, g1, g2);
            lemma_args_grow(types, g0, args, 0, Seq::empty());
            lemma_back(c, s, g0, g1);
            lemma_quiet(k, c, g, g0, w);
            let p = lemma_args_value(k, c, types, s, g, g0, args, 0, Seq::empty(), w, w);
            lemma_quiets(g1);
            if dest is None && size is Some {
                lemma_fresh(c, s, g1, size->0);
            }
            assert(quiet(g1, g2));
            lemma_quiet(k, c, g1, g2, p);
            lemma_pushed(k, c, g2, op, p);
            let end = meaning::done(k, c, op, p);
            let xs = meaning::values(types, s, k, w.mem, args, args.len()).0;
            assert(regs.map_values(|v: VirtualReg| p.regs[v]) =~= xs);
            lemma_leads(k, c, g, g1, g2, None, None, dest, w, p, p);
            lemma_leads(k, c, g, g2, h, dest, d, dest, w, p, end);
            end
        },
        _ => w,
    }
}

/// The test at the end of a block is taken.
proof fn lemma_branch(
    k: Machine,
    c: Ground,
    s: Scope,
    g: Gen,
    t: Terminator,
    next: Label,
    w: World,
)
    requires
        ready(c, s, g.committed(t, next)),
    ensures
        ready(c, s, g),
        t matches Terminator::Branch { label } ==> meaning::reaches(
            k,
            c,
            here(g, w),
            meaning::went(label, w),
        ),
        t matches Terminator::BranchCond { cond, if_true, if_false } ==> meaning::reaches(
            k,
            c,
            here(g, w),
            meaning::went(
                if w.regs[cond] != 0 {
                    if_true
                } else {
                    if_false
                },
                w,
            ),
        ),
        t matches Terminator::Return { value } ==> meaning::reaches(
            k,
            c,
            here(g, w),
            Point::Returned(w.regs[value], w.mem),
        ),
        g.committed(t, next).label == next,
        g.committed(t, next).ops.len() == 0,
        g.committed(t, next).vregs == g.vregs,
{
    lemma_grows(g);
    let h = g.committed(t, next);
    lemma_back(c, s, g, h);
    reveal(Gen::committed);
    reveal(fits);
    let b = h.blocks[g.blocks.len() as int];
    assert(has_block(c, b.label, b.ops, b.terminator));
    lemma_reaches_step(k, c, here(g, w));
}

/// A block that puts a number in a register does so, wherever it is entered from.
proof fn lemma_setting(
    k: Machine,
    c: Ground,
    s: Scope,
    g: Gen,
    dest: VirtualReg,
    n: u64,
    end: Label,
    next: Label,
    w: World,
)
    requires
        ready(c, s, setting(g, dest, n, end, next)),
        end != Label::End,
    ensures
        ready(c, s, g),
        meaning::reaches(k, c, here(g, w), Point::At(end, 0, w.set(dest, n))),
        setting(g, dest, n, end, next).label == next,
        setting(g, dest, n, end, next).ops.len() == 0,
        setting(g, dest, n, end, next).vregs == g.vregs,
{
    let g1 = g.declares(dest);
    let op = Op::Assign { src: SourceVal::Immediate(n), dest };
    let g2 = g1.op(op);
    lemma_branch(k, c, s, g2, Terminator::Branch { label: end }, next, w.set(dest, n));
    lemma_op(k, c, s, g1, op, w);
    lemma_grows(g);
    lemma_back(c, s, g, g1);
    lemma_quiets(g);
    reveal(Gen::declares);
    lemma_reaches_trans(
        k,
        c,
        here(g, w),
        here(g2, w.set(dest, n)),
        Point::At(end, 0, w.set(dest, n)),
    );
}

proof fn lemma_labels(c: Ground, s: Scope, g: Gen)
    requires
        ready(c, s, four(g).4),
    ensures
        ready(c, s, g),
        quiet(g, four(g).4),
        four(g).0 != Label::End,
        four(g).1 != Label::End,
        four(g).2 != Label::End,
        four(g).3 != Label::End,
        four(g).4.vregs == g.vregs,
{
    lemma_four_grows(g);
    lemma_back(c, s, g, four(g).4);
    reveal(Gen::fresh_label);
    reveal(Gen::checked);
}

proof fn lemma_logical_value(
    k: Machine,
    c: Ground,
    types: TypesV,
    s: Scope,
    g: Gen,
    e: ExprV<TypeId>,
    dest: Option<VirtualReg>,
    w: World,
) -> (end: World)
    requires
        e.inner is Logical,
        ready(c, s, codegen::flat(types, g, e, dest).1),
        wanted(c, types, g, e, dest),
        near(types, e),
    ensures
        computes(k, c, types, s, g, e, dest, w, end),
    decreases e, 1nat,
{
    let g0 = g.checked(codegen::has_size(types, e.typ));
    let size = codegen::opt_size(types, e.typ);
    let h = codegen::flat(types, g, e, dest).1;
    match e.inner {
        ExprInnerV::Logical(a, b, op) => {
            let (d, g1) = g0.dest_or(dest, size);
            let (l, g2) = codegen::flat(types, g1, *a, None);
            let (x, g3) = g2.reg_of(l);
            assert(h == decided(types, g3, x, *b, op, d));
            let (second, yes, no, last, g4) = four(g3);
            let test = codegen::first_test(op, x, second, yes, no);
            let g5 = g4.committed(test, second);
            lemma_flat_grows(types, g5, *b, None);
            lemma_decided_grows(types, g3, x, *b, op, d);
            lemma_back(c, s, g3, h);
            lemma_grows_more(g2);
            lemma_back(c, s, g2, g3);
            lemma_flat_grows(types, g1, *a, None);
            lemma_back(c, s, g1, g2);
            lemma_grows_more(g0);
            lemma_back(c, s, g0, g1);
            lemma_checked(c, s, g, codegen::has_size(types, e.typ));
            lemma_dest_or(c, s, g0, dest, size);
            lemma_quiets(g0);
            lemma_quiet(k, c, g, g1, w);
            let p = law_value(k, c, types, s, g1, *a, None, w);
            let q = lemma_reg_of(k, c, s, g2, l, p);
            lemma_leads(k, c, g, g1, g2, None, None, dest, w, w, p);
            lemma_leads(k, c, g, g2, g3, dest, None, dest, w, p, q);
            let end = lemma_decided(k, c, types, s, g3, e, x, *b, op, d, q);
            lemma_leads(k, c, g, g3, h, dest, Some(d), dest, w, q, end);
            end
        },
        _ => w,
    }
}

/// Behind its first operand a logical operation comes out as the operator says.
proof fn lemma_decided(
    k: Machine,
    c: Ground,
    types: TypesV,
    s: Scope,
    g: Gen,
    e: ExprV<TypeId>,
    x: VirtualReg,
    b: ExprV<TypeId>,
    op: LogicalOp,
    dest: VirtualReg,
    w: World,
) -> (end: World)
    requires
        e.inner matches ExprInnerV::Logical(_, r, _) && *r == b,
        ready(c, s, decided(types, g, x, b, op, dest)),
        dest.0 < g.vregs,
        near(types, b),
    ensures
        leads(k, c, g, decided(types, g, x, b, op, dest), Some(dest), w, end),
        if op == LogicalOp::And && w.regs[x] == 0 {
            end == w.set(dest, 0)
        } else if op == LogicalOp::Or && w.regs[x] != 0 {
            end == w.set(dest, 1)
        } else {
            let (n, m) = meaning::value(types, s, k, w.mem, b);
            end.mem == m && end.regs[dest] == meaning::truth(n != 0)
        },
    decreases e, 0nat,
{
    let (second, yes, no, last, g1) = four(g);
    let test = codegen::first_test(op, x, second, yes, no);
    let g2 = g1.committed(test, second);
    let (r, g3) = codegen::flat(types, g2, b, None);
    let (y, g4) = g3.reg_of(r);
    let choice = Terminator::BranchCond { cond: y, if_true: yes, if_false: no };
    let g5 = g4.committed(choice, yes);
    let g6 = setting(g5, dest, 1, last, no);
    let h = setting(g6, dest, 0, last, last);
    assert(h == decided(types, g, x, b, op, dest));
    lemma_setting_grows(g6, dest, 0, last, last);
    lemma_back(c, s, g6, h);
    lemma_setting_grows(g5, dest, 1, last, no);
    lemma_back(c, s, g5, g6);
    lemma_grows(g4);
    lemma_back(c, s, g4, g5);
    lemma_grows_more(g3);
    lemma_back(c, s, g3, g4);
    lemma_flat_grows(types, g2, b, None);
    lemma_back(c, s, g2, g3);
    lemma_grows(g1);
    lemma_back(c, s, g1, g2);
    lemma_labels(c, s, g);
    lemma_branch(k, c, s, g1, test, second, w);
    assert(here(g, w) == here(g1, w));
    let decides = (op == LogicalOp::And && w.regs[x] == 0) || (op == LogicalOp::Or && w.regs[x] != 0);
    lemma_branch(k, c, s, g4, choice, yes, w);
    lemma_setting(k, c, s, g5, dest, 1, last, no, w);
    lemma_setting(k, c, s, g6, dest, 0, last, last, w);
    if decides {
        let end = if op == LogicalOp::And {
            w.set(dest, 0)
        } else {
            w.set(dest, 1)
        };
        if op == LogicalOp::And {
            lemma_reaches_trans(k, c, here(g, w), here(g6, w), here(h, end));
        } else {
            lemma_reaches_trans(k, c, here(g, w), here(g5, w), here(h, end));
        }
        end
    } else {
        assert(meaning::reaches(k, c, here(g, w), here(g2, w)));
        let p = law_value(k, c, types, s, g2, b, None, w);
        let q = lemma_reg_of(k, c, s, g3, r, p);
        lemma_leads(k, c, g2, g3, g4, None, None, None, w, p, q);
        lemma_branch(k, c, s, g4, choice, yes, q);
        lemma_setting(k, c, s, g5, dest, 1, last, no, q);
        lemma_setting(k, c, s, g6, dest, 0, last, last, q);
        lemma_reaches_trans(k, c, here(g, w), here(g2, w), here(g4, q));
        let end = if q.regs[y] != 0 {
            q.set(dest, 1)
        } else {
            q.set(dest, 0)
        };
        if q.regs[y] != 0 {
            lemma_reaches_trans(k, c, here(g, w), here(g4, q), here(g5, q));
            lemma_reaches_trans(k, c, here(g, w), here(g5, q), here(h, end));
        } else {
            lemma_reaches_trans(k, c, here(g, w), here(g4, q), here(g6, q));
            lemma_reaches_trans(k, c, here(g, w), here(g6, q), here(h, end));
        }
        assert(kept(g.vregs, Some(dest), w.regs, end.regs)) by {
            assert forall|v: VirtualReg| v.0 < g.vregs && Some(dest) != Some(v) implies #[trigger] end.regs[v]
                == w.regs[v] by {
                assert(q.regs[v] == w.regs[v]);
            }
        }
        end
    }
}

/// What is built for an expression computes its value: running it leaves the value where the expression is said
/// to be, the memory that computing the value leaves, and every other register as it was.
pub proof fn law_value(
    k: Machine,
    c: Ground,
    types: TypesV,
    s: Scope,
    g: Gen,
    e: ExprV<TypeId>,
    dest: Option<VirtualReg>,
    w: World,
) -> (end: World)
    requires
        ready(c, s, codegen::flat(types, g, e, dest).1),
        wanted(c, types, g, e, dest),
        near(types, e),
    ensures
        computes(k, c, types, s, g, e, dest, w, end),
    decreases e, 2nat,
{
    match e.inner {
        ExprInnerV::Const(..)
        | ExprInnerV::Character(_)
        | ExprInnerV::String(_)
        | ExprInnerV::Bool(_)
        | ExprInnerV::Construct { .. }
        | ExprInnerV::SizeOf(_) => {
            lemma_atom_value(k, c, types, s, g, e, dest, w);
            w
        },
        ExprInnerV::Ident(_) | ExprInnerV::Pointer(_) | ExprInnerV::Deref(..) => lemma_var_value(
            k,
            c,
            types,
            s,
            g,
            e,
            dest,
            w,
        ),
        ExprInnerV::Arithmetic(..) | ExprInnerV::Comparison(..) => lemma_two_value(
            k,
            c,
            types,
            s,
            g,
            e,
            dest,
            w,
        ),
        ExprInnerV::Logical(..) => lemma_logical_value(k, c, types, s, g, e, dest, w),
        ExprInnerV::Not(_) | ExprInnerV::Negate(_) | ExprInnerV::Cast(..) => lemma_one_value(
            k,
            c,
            types,
            s,
            g,
            e,
            dest,
            w,
        ),
        ExprInnerV::MemberAccess(..) => lemma_member_value(k, c, types, s, g, e, dest, w),
        ExprInnerV::Index { .. } => lemma_index_value(k, c, types, s, g, e, dest, w),
        ExprInnerV::FnCall(..) => lemma_call_value(k, c, types, s, g, e, dest, w),
    }
}

proof fn lemma_stack_var_grows(g: Gen, name: Seq<char>, size: ValSize)
    ensures
        grew(g, g.stack_var(name, size).2),
{
    reveal(Gen::stack_var);
    reveal(Gen::fresh);
    reveal(Gen::checked);
    reveal(grew);
}

proof fn lemma_assigned_grows(
    types: TypesV,
    g: Gen,
    var: AssignableV<TypeId>,
    src: SourceVal,
    size: ValSize,
)
    ensures
        grew(g, codegen::assigned(types, g, var, src, size)),
{
    reveal(codegen::assigned);
    let h = codegen::assigned(types, g, var, src, size);
    lemma_grows(g);
    match var {
        AssignableV::Var(name) => if g.mem.allocs.contains_key(name) {
            let (offset, typ) = g.mem.allocs[name];
            let (ptr, g1) = g.fresh(ValSize::Doubleword);
            let (r, g2) = g1.reg_of(src);
            let g3 = g2.op(Op::Assign { src: SourceVal::StaticMem(offset), dest: ptr });
            let (t, g4) = g3.sized(codegen::size_of(types, typ));
            lemma_grows_more(g1);
            lemma_grows(g2);
            lemma_grows(g3);
            lemma_grows(g4);
            lemma_grows3(g, g1, g2, g3);
            lemma_grows3(g, g3, g4, h);
        } else {
            let (d, offset, g1) = g.stack_var(name, size);
            let g2 = g1.op(Op::Assign { src, dest: d });
            lemma_stack_var_grows(g, name, size);
            lemma_grows(g1);
            lemma_grows(g2);
            lemma_grows3(g, g1, g2, h);
        },
        AssignableV::Ptr(name, val_size) => {
            let (ptr, g1) = g.var(name);
            let (r, g2) = g1.reg_of(src);
            let (t, g3) = g2.sized(val_size);
            lemma_grows_more(g1);
            lemma_grows(g2);
            lemma_grows(g3);
            lemma_grows3(g, g1, g2, g3);
            lemma_grew_trans(g, g3, h);
        },
        AssignableV::Index { data, index, val_size } => {
            let (i, g0) = codegen::flat(types, g, index, None);
            lemma_flat_grows(types, g, index, None);
            lemma_flat_grows(types, g0.reg_of(i).1, data, None);
            lemma_indexed_grows(types, g, data, index);
            let (a, b, g1) = indexed(types, g, data, index);
            let (ptr, g2) = g1.fresh(ValSize::Doubleword);
            let (r, g3) = g2.reg_of(src);
            let g4 = g3.op(Op::Add { a, b, dest: ptr });
            let (t, g5) = g4.sized(val_size);
            lemma_grows(g1);
            lemma_grows_more(g2);
            lemma_grows(g3);
            lemma_grows(g4);
            lemma_grows(g5);
            lemma_grows3(g, g1, g2, g3);
            lemma_grows3(g, g3, g4, g5);
            lemma_grew_trans(g, g5, h);
        },
        AssignableV::MemberAccess(parent, member) => {
            let found = codegen::offset_of(
                types,
                codegen::parent_struct(types, parent.typ),
                member,
            );
            let g1 = g.checked(found is Some);
            let (x, g2) = codegen::flat(types, g1, parent, None);
            let (ptr, g3) = g2.reg_of(x);
            let (r, g4) = g3.reg_of(src);
            lemma_flat_grows(types, g1, parent, None);
            lemma_grows_more(g2);
            lemma_grows_more(g3);
            lemma_grows(g4);
            lemma_grows3(g, g1, g2, g3);
            lemma_grows3(g, g3, g4, h);
        },
    }
}

/// The guard of a statement in a register.
pub open spec fn guarded(types: TypesV, g: Gen, guard: ExprV<TypeId>) -> (VirtualReg, Gen) {
    let (x, g) = codegen::flat(types, g, guard, None);
    g.reg_of(x)
}

proof fn lemma_guarded_grows(types: TypesV, g: Gen, guard: ExprV<TypeId>)
    ensures
        grew(g, guarded(types, g, guard).1),
{
    let (x, g1) = codegen::flat(types, g, guard, None);
    lemma_flat_grows(types, g, guard, None);
    lemma_grows_more(g1);
    lemma_grew_trans(g, g1, g1.reg_of(x).1);
}

/// Building a statement adds to what was built.
proof fn lemma_built_grows(types: TypesV, g: Gen, stmt: StmtV<TypeId>)
    ensures
        grew(g, codegen::built(types, g, stmt)),
    decreases stmt, 0nat,
{
    let h = codegen::built(types, g, stmt);
    lemma_grows(g);
    match stmt {
        StmtV::Declare { var, expr, .. } => {
            let g1 = g.checked(!g.vars.contains_key(var));
            let (size, g2) = g1.sized(codegen::opt_size(types, expr.typ));
            let (d, offset, g3) = g2.stack_var(var, size);
            let (src, g4) = codegen::flat(types, g3, expr, Some(d));
            let g5 = g4.op(Op::Assign { src, dest: d });
            lemma_grows(g1);
            lemma_stack_var_grows(g2, var, size);
            lemma_flat_grows(types, g3, expr, Some(d));
            lemma_grows(g4);
            lemma_grows(g5);
            lemma_grows(g5.declares(d));
            lemma_grows3(g, g1, g2, g3);
            lemma_grew_trans(g, g3, g4);
            lemma_grows3(g, g4, g5, g5.declares(d));
            let store = Op::Store { src: SourceVal::VReg(d), stack_offset: offset };
            lemma_grew_trans(g, g5.declares(d), g5.declares(d).op(store));
            lemma_grew_trans(g, g4, g4.op(store));
        },
        StmtV::Assign { var, expr, .. } => {
            let (size, g1) = g.sized(codegen::opt_size(types, expr.typ));
            let (src, g2) = codegen::flat(types, g1, expr, None);
            lemma_flat_grows(types, g1, expr, None);
            lemma_assigned_grows(types, g2, var, src, size);
            lemma_grows3(g, g1, g2, h);
        },
        StmtV::Expr(expr) => lemma_flat_grows(types, g, expr, None),
        StmtV::If { guard, body } => {
            let (cond, g1) = guarded(types, g, guard);
            let (yes, g2) = g1.fresh_label();
            let (no, g3) = g2.fresh_label();
            let g4 = g3.committed(
                Terminator::BranchCond { cond, if_true: yes, if_false: no },
                yes,
            );
            let g5 = codegen::built_all(types, g4, body, 0);
            lemma_guarded_grows(types, g, guard);
            lemma_grows(g1);
            lemma_grows(g2);
            lemma_grows(g3);
            lemma_built_all_grows(types, g4, body, 0);
            lemma_grows(g5);
            lemma_grows3(g, g1, g2, g3);
            lemma_grows3(g, g3, g4, g5);
            lemma_grew_trans(g, g5, h);
        },
        StmtV::Return(expr) => {
            let (value, g1) = guarded(types, g, expr);
            let (next, g2) = g1.fresh_label();
            lemma_guarded_grows(types, g, expr);
            lemma_grows(g1);
            lemma_grows(g2);
            lemma_grows3(g, g1, g2, h);
        },
        StmtV::WhileLoop { guard, body } => {
            let (test, g1) = g.fresh_label();
            let (inside, g2) = g1.fresh_label();
            let (end, g3) = g2.fresh_label();
            let g4 = g3.committed(Terminator::Branch { label: test }, test);
            let (cond, g5) = guarded(types, g4, guard);
            let g6 = g5.committed(
                Terminator::BranchCond { cond, if_true: inside, if_false: end },
                inside,
            );
            let g7 = codegen::built_all(types, g6, body, 0);
            lemma_grows(g1);
            lemma_grows(g2);
            lemma_grows(g3);
            lemma_guarded_grows(types, g4, guard);
            lemma_grows(g5);
            lemma_built_all_grows(types, g6, body, 0);
            lemma_grows(g7);
            lemma_grows3(g, g1, g2, g3);
            lemma_grows3(g, g3, g4, g5);
            lemma_grows3(g, g5, g6, g7);
            lemma_grew_trans(g, g7, h);
        },
    }
}

proof fn lemma_built_all_grows(types: TypesV, g: Gen, stmts: Seq<StmtV<TypeId>>, i: nat)
    ensures
        grew(g, codegen::built_all(types, g, stmts, i)),
    decreases stmts, (stmts.len() - i) as nat,
{
    if i < stmts.len() {
        let g1 = codegen::built(types, g, stmts[i as int]);
        lemma_built_grows(types, g, stmts[i as int]);
        lemma_built_all_grows(types, g1, stmts, i + 1);
        lemma_grew_trans(g, g1, codegen::built_all(types, g1, stmts, i + 1));
    } else {
        lemma_grew_self(g);
    }
}

/// Whether a statement is run as it is written. An argument cannot be assigned to, and nothing behind a
/// pointer variable by its name.
pub open spec fn runs_well(types: TypesV, s: Scope, stmt: StmtV<TypeId>) -> bool
    decreases stmt, 0nat,
{
    match stmt {
        StmtV::Declare { expr, .. } => {
            &&& near(types, expr)
            &&& meaning::type_size(types, expr.typ) matches Some(size) ==> suits(types, expr, size)
        },
        StmtV::Assign { var, expr, .. } => near(types, expr) && match var {
            AssignableV::Var(name) => s.allocs.contains_key(name) || !s.args.contains_key(
                s.vars[name].0,
            ),
            AssignableV::Ptr(..) => false,
            AssignableV::Index { data, index, .. } => near(types, data) && near(types, index),
            AssignableV::MemberAccess(parent, member) => near(types, parent) && meaning::member_offset(
                types,
                types[(parent.typ->0).0].pointee(),
                member,
            ) < 0x1_0000_0000,
        },
        StmtV::Expr(expr) => near(types, expr),
        StmtV::Return(expr) => near(types, expr),
        StmtV::If { guard, body } => near(types, guard) && run_well(types, s, body, body.len()),
        StmtV::WhileLoop { guard, body } => near(types, guard) && run_well(
            types,
            s,
            body,
            body.len(),
        ),
    }
}

pub open spec fn run_well(types: TypesV, s: Scope, stmts: Seq<StmtV<TypeId>>, n: nat) -> bool
    decreases stmts, n,
{
    if n == 0 || n > stmts.len() {
        true
    } else {
        run_well(types, s, stmts, (n - 1) as nat) && runs_well(types, s, stmts[n - 1])
    }
}

proof fn lemma_run_well(types: TypesV, s: Scope, stmts: Seq<StmtV<TypeId>>, n: nat, i: int)
    requires
        run_well(types, s, stmts, n),
        0 <= i < n <= stmts.len(),
    ensures
        runs_well(types, s, stmts[i]),
    decreases n,
{
    if i < n - 1 {
        lemma_run_well(types, s, stmts, (n - 1) as nat, i);
    }
}

/// The registers of arguments come first.
pub open spec fn args_first(g: Gen) -> bool {
    forall|i: u32| #[trigger] g.args.contains_key(i) ==> i < g.vregs
}

proof fn lemma_args_first(g: Gen, h: Gen)
    requires
        grew(g, h),
        h.ok,
        args_first(g),
    ensures
        args_first(h),
{
    reveal(grew);
}

/// What was built from `g` to `h` comes to what was to be run.
pub open spec fn comes_to(k: Machine, c: Ground, g: Gen, h: Gen, w: World, r: Ran) -> bool {
    match r {
        Ran::On(m) => exists|regs: Map<VirtualReg, u64>| #[trigger]
            meaning::reaches(k, c, here(g, w), here(h, World { regs, mem: m })),
        Ran::Back(n, m) => meaning::reaches(k, c, here(g, w), Point::Returned(n, m)),
        Ran::Late => true,
    }
}

proof fn lemma_on(k: Machine, c: Ground, g: Gen, h: Gen, w: World, end: World)
    requires
        meaning::reaches(k, c, here(g, w), here(h, end)),
    ensures
        comes_to(k, c, g, h, w, Ran::On(end.mem)),
{
    assert(World { regs: end.regs, mem: end.mem } == end);
}

/// What follows comes to what was to be run.
proof fn lemma_after(k: Machine, c: Ground, g: Gen, h: Gen, i: Gen, w: World, x: World, r: Ran)
    requires
        meaning::reaches(k, c, here(g, w), here(h, x)),
        comes_to(k, c, h, i, x, r),
    ensures
        comes_to(k, c, g, i, w, r),
{
    match r {
        Ran::On(m) => {
            let regs = choose|regs: Map<VirtualReg, u64>| #[trigger]
                meaning::reaches(k, c, here(h, x), here(i, World { regs, mem: m }));
            lemma_reaches_trans(k, c, here(g, w), here(h, x), here(i, World { regs, mem: m }));
        },
        Ran::Back(n, m) => {
            lemma_reaches_trans(k, c, here(g, w), here(h, x), Point::Returned(n, m));
        },
        Ran::Late => {},
    }
}

/// A variable of a function gets a register and a place, and keeps them.
proof fn lemma_stack_var(c: Ground, s: Scope, g: Gen, name: Seq<char>, size: ValSize)
    requires
        ready(c, s, g.stack_var(name, size).2),
        args_first(g),
    ensures
        ready(c, s, g),
        quiet(g, g.stack_var(name, size).2),
        s.vars[name] == g.stack_var(name, size).0,
        s.stack[g.stack_var(name, size).0.0] == g.stack_var(name, size).1,
        !s.allocs.contains_key(name),
        g.vars.contains_key(name) ==> g.stack_var(name, size).0 == g.vars[name],
        !g.vars.contains_key(name) ==> {
            &&& c.sizes[g.stack_var(name, size).0] == size
            &&& !s.args.contains_key(g.stack_var(name, size).0.0)
            &&& g.stack_var(name, size).0.0 == g.vregs
            &&& g.stack_var(name, size).2.vregs == g.vregs + 1
        },
{
    lemma_stack_var_grows(g, name, size);
    lemma_back(c, s, g, g.stack_var(name, size).2);
    let (v, offset, h) = g.stack_var(name, size);
    reveal(Gen::stack_var);
    reveal(Gen::fresh);
    reveal(Gen::checked);
    reveal(fits);
    reveal(lies);
    assert(h.vars.contains_key(name));
    assert(h.stack.contains_key(v.0));
    assert(!g.vars.contains_key(name) ==> in_use(h, v));
}

/// A guard is computed.
proof fn lemma_guarded(
    k: Machine,
    c: Ground,
    types: TypesV,
    s: Scope,
    g: Gen,
    guard: ExprV<TypeId>,
    w: World,
) -> (end: World)
    requires
        ready(c, s, guarded(types, g, guard).1),
        near(types, guard),
    ensures
        ready(c, s, g),
        meaning::reaches(k, c, here(g, w), here(guarded(types, g, guard).1, end)),
        end.regs[guarded(types, g, guard).0] == meaning::value(types, s, k, w.mem, guard).0,
        end.mem == meaning::value(types, s, k, w.mem, guard).1,
{
    let (x, g1) = codegen::flat(types, g, guard, None);
    lemma_grows_more(g1);
    lemma_back(c, s, g1, g1.reg_of(x).1);
    lemma_flat_grows(types, g, guard, None);
    lemma_back(c, s, g, g1);
    let p = law_value(k, c, types, s, g, guard, None, w);
    let q = lemma_reg_of(k, c, s, g1, x, p);
    lemma_reaches_trans(k, c, here(g, w), here(g1, p), here(g1.reg_of(x).1, q));
    q
}

proof fn lemma_declared(
    k: Machine,
    c: Ground,
    types: TypesV,
    s: Scope,
    g: Gen,
    stmt: StmtV<TypeId>,
    w: World,
    time: nat,
)
    requires
        stmt is Declare,
        ready(c, s, codegen::built(types, g, stmt)),
        args_first(g),
        runs_well(types, s, stmt),
    ensures
        comes_to(
            k,
            c,
            g,
            codegen::built(types, g, stmt),
            w,
            meaning::run_stmt(types, s, k, w.mem, stmt, time),
        ),
{
    let h = codegen::built(types, g, stmt);
    if let StmtV::Declare { var, expr, .. } = stmt {
        let g1 = g.checked(!g.vars.contains_key(var));
        if expr.typ == Some(types::primitive_id(Primitive::Unit)) {
            lemma_checked(c, s, g, !g.vars.contains_key(var));
            lemma_reaches_self(k, c, here(g, w));
            lemma_on(k, c, g, h, w, w);
        } else {
            let wide = codegen::opt_size(types, expr.typ);
            let (size, g2) = g1.sized(wide);
            let (d, offset, g3) = g2.stack_var(var, size);
            let (src, g4) = codegen::flat(types, g3, expr, Some(d));
            let set = Op::Assign { src, dest: d };
            let g5 = if src != SourceVal::VReg(d) {
                g4.op(set).declares(d)
            } else {
                g4
            };
            let store = Op::Store { src: SourceVal::VReg(d), stack_offset: offset };
            assert(h == g5.op(store));
            lemma_grows(g5);
            lemma_back(c, s, g5, h);
            lemma_grows(g4);
            lemma_grows(g4.op(set));
            if src != SourceVal::VReg(d) {
                lemma_back(c, s, g4.op(set), g5);
                lemma_back(c, s, g4, g4.op(set));
            }
            lemma_flat_grows(types, g3, expr, Some(d));
            lemma_back(c, s, g3, g4);
            lemma_stack_var_grows(g2, var, size);
            lemma_back(c, s, g2, g3);
            lemma_sized(c, s, g1, wide);
            lemma_checked(c, s, g, !g.vars.contains_key(var));
            lemma_stack_var(c, s, g2, var, size);
            let p = law_value(k, c, types, s, g3, expr, Some(d), w);
            let q = if src != SourceVal::VReg(d) {
                meaning::performed(k, c, set, p)
            } else {
                p
            };
            if src != SourceVal::VReg(d) {
                lemma_op(k, c, s, g4, set, p);
                lemma_quiets(g4.op(set));
                lemma_reaches_trans(k, c, here(g3, w), here(g4, p), here(g5, q));
            }
            lemma_op(k, c, s, g5, store, q);
            let end = meaning::performed(k, c, store, q);
            assert(here(g, w) == here(g3, w));
            lemma_reaches_trans(k, c, here(g, w), here(g5, q), here(h, end));
            lemma_on(k, c, g, h, w, end);
        }
    }
}

/// A value that is assigned to a variable is stored.
proof fn lemma_assigned_var(
    k: Machine,
    c: Ground,
    types: TypesV,
    s: Scope,
    g: Gen,
    var: AssignableV<TypeId>,
    src: SourceVal,
    size: ValSize,
    typ: Option<TypeId>,
    w: World,
) -> (end: World)
    requires
        ready(c, s, codegen::assigned(types, g, var, src, size)),
        args_first(g),
        src matches SourceVal::VReg(v) ==> v.0 < g.vregs,
        var matches AssignableV::Var(name) && (s.allocs.contains_key(name) || !s.args.contains_key(
            s.vars[name].0,
        )),
    ensures
        meaning::reaches(
            k,
            c,
            here(g, w),
            here(codegen::assigned(types, g, var, src, size), end),
        ),
        end.mem == meaning::assigned(
            types,
            s,
            k,
            w.mem,
            var,
            meaning::source_value(k, c, src, w.regs),
            typ,
        ),
{
    let h = codegen::assigned(types, g, var, src, size);
    lemma_assigned_grows(types, g, var, src, size);
    lemma_back(c, s, g, h);
    reveal(codegen::assigned);
    let name = var->Var_0;
    assert(s.allocs == g.mem.allocs) by {
        reveal(lies);
    }
    if g.mem.allocs.contains_key(name) {
        let (offset, t) = g.mem.allocs[name];
        let (ptr, g1) = g.fresh(ValSize::Doubleword);
        let (r, g2) = g1.reg_of(src);
        let set = Op::Assign { src: SourceVal::StaticMem(offset), dest: ptr };
        let g3 = g2.op(set);
        let (u, g4) = g3.sized(codegen::size_of(types, t));
        let store = Op::StorePointer { src: r, ptr, size: u, offset: 0 };
        lemma_grows(g4);
        lemma_back(c, s, g4, h);
        lemma_sized(c, s, g3, codegen::size_of(types, t));
        lemma_grows(g2);
        lemma_back(c, s, g2, g3);
        lemma_grows_more(g1);
        lemma_back(c, s, g1, g2);
        lemma_fresh(c, s, g, ValSize::Doubleword);
        lemma_quiets(g);
        let p = lemma_reg_of(k, c, s, g1, src, w);
        lemma_op(k, c, s, g2, set, p);
        let q = meaning::performed(k, c, set, p);
        lemma_op(k, c, s, g4, store, q);
        let end = meaning::performed(k, c, store, q);
        lemma_other_reg(g1, src, ptr);
        meaning::law_wrapped((k.fixed)(offset) as int, 0);
        lemma_reaches_trans(k, c, here(g, w), here(g2, p), here(g3, q));
        lemma_reaches_trans(k, c, here(g, w), here(g3, q), here(h, end));
        end
    } else {
        let (d, offset, g1) = g.stack_var(name, size);
        let set = Op::Assign { src, dest: d };
        let g2 = g1.op(set);
        let store = Op::Store { src: SourceVal::VReg(d), stack_offset: offset };
        lemma_grows(g2);
        lemma_back(c, s, g2, h);
        lemma_grows(g1);
        lemma_back(c, s, g1, g2);
        lemma_stack_var(c, s, g, name, size);
        lemma_op(k, c, s, g1, set, w);
        let q = meaning::performed(k, c, set, w);
        lemma_op(k, c, s, g2, store, q);
        let end = meaning::performed(k, c, store, q);
        lemma_reaches_trans(k, c, here(g, w), here(g2, q), here(h, end));
        end
    }
}

/// The register of a value is another one than the last register that was taken before, unless the value
/// was in that.
proof fn lemma_other_reg(g: Gen, src: SourceVal, ptr: VirtualReg)
    requires
        ptr.0 + 1 == g.vregs,
        src matches SourceVal::VReg(v) ==> v.0 < ptr.0,
    ensures
        g.reg_of(src).0 != ptr,
{
    reveal(Gen::reg_of);
    reveal(Gen::fresh);
}

/// A value that is assigned by an index is stored.
proof fn lemma_assigned_index(
    k: Machine,
    c: Ground,
    types: TypesV,
    s: Scope,
    g: Gen,
    var: AssignableV<TypeId>,
    src: SourceVal,
    size: ValSize,
    typ: Option<TypeId>,
    w: World,
) -> (end: World)
    requires
        ready(c, s, codegen::assigned(types, g, var, src, size)),
        src matches SourceVal::VReg(v) ==> v.0 < g.vregs,
        var matches AssignableV::Index { data, index, .. } && near(types, data) && near(types, index),
    ensures
        meaning::reaches(
            k,
            c,
            here(g, w),
            here(codegen::assigned(types, g, var, src, size), end),
        ),
        end.mem == meaning::assigned(
            types,
            s,
            k,
            w.mem,
            var,
            meaning::source_value(k, c, src, w.regs),
            typ,
        ),
{
    let h = codegen::assigned(types, g, var, src, size);
    lemma_assigned_grows(types, g, var, src, size);
    lemma_back(c, s, g, h);
    reveal(codegen::assigned);
    match var {
        AssignableV::Index { data, index, val_size } => {
            let (a, b, g1) = indexed(types, g, data, index);
            let (ptr, g2) = g1.fresh(ValSize::Doubleword);
            let (r, g3) = g2.reg_of(src);
            let add = Op::Add { a, b, dest: ptr };
            let g4 = g3.op(add);
            let (u, g5) = g4.sized(val_size);
            let store = Op::StorePointer { src: r, ptr, size: u, offset: 0 };
            lemma_grows(g5);
            lemma_back(c, s, g5, h);
            lemma_sized(c, s, g4, val_size);
            lemma_grows(g3);
            lemma_back(c, s, g3, g4);
            lemma_grows_more(g2);
            lemma_back(c, s, g2, g3);
            lemma_fresh(c, s, g1, ValSize::Doubleword);
            lemma_quiets(g1);
            let e = ExprV {
                inner: ExprInnerV::Index { data: Box::new(data), index: Box::new(index), val_size },
                typ,
                span: data.span,
            };
            let o = lemma_indexed(k, c, types, s, g, e, data, index, w);
            lemma_source(k, c, src, g.vregs, w.regs, o.regs);
            let p = lemma_reg_of(k, c, s, g2, src, o);
            assert(p.regs[a] == o.regs[a] && p.regs[b] == o.regs[b]);
            lemma_op(k, c, s, g3, add, p);
            let q = meaning::performed(k, c, add, p);
            lemma_op(k, c, s, g5, store, q);
            let end = meaning::performed(k, c, store, q);
            lemma_other_reg(g2, src, ptr);
            meaning::law_wrapped(q.regs[ptr] as int, 0);
            lemma_reaches_trans(k, c, here(g, w), here(g1, o), here(g3, p));
            lemma_reaches_trans(k, c, here(g, w), here(g3, p), here(g4, q));
            lemma_reaches_trans(k, c, here(g, w), here(g4, q), here(h, end));
            end
        },
        _ => w,
    }
}

/// A value that is assigned to a member is stored.
proof fn lemma_assigned_member(
    k: Machine,
    c: Ground,
    types: TypesV,
    s: Scope,
    g: Gen,
    var: AssignableV<TypeId>,
    src: SourceVal,
    size: ValSize,
    typ: Option<TypeId>,
    w: World,
) -> (end: World)
    requires
        ready(c, s, codegen::assigned(types, g, var, src, size)),
        src matches SourceVal::VReg(v) ==> v.0 < g.vregs,
        meaning::type_size(types, typ) == Some(size),
        var matches AssignableV::MemberAccess(parent, member) && near(types, parent)
            && meaning::member_offset(types, types[(parent.typ->0).0].pointee(), member)
            < 0x1_0000_0000,
    ensures
        meaning::reaches(
            k,
            c,
            here(g, w),
            here(codegen::assigned(types, g, var, src, size), end),
        ),
        end.mem == meaning::assigned(
            types,
            s,
            k,
            w.mem,
            var,
            meaning::source_value(k, c, src, w.regs),
            typ,
        ),
{
    let h = codegen::assigned(types, g, var, src, size);
    lemma_assigned_grows(types, g, var, src, size);
    lemma_back(c, s, g, h);
    reveal(codegen::assigned);
    match var {
        AssignableV::MemberAccess(parent, member) => {
            let t = codegen::parent_struct(types, parent.typ);
            let found = codegen::offset_of(types, t, member);
            let g1 = g.checked(found is Some);
            let (x, g2) = codegen::flat(types, g1, parent, None);
            let (ptr, g3) = g2.reg_of(x);
            let (r, g4) = g3.reg_of(src);
            let offset = match found {
                Some(o) => codegen::low_half(o),
                None => 0,
            };
            let store = Op::StorePointer { src: r, ptr, size, offset };
            assert(h == g4.op(store));
            lemma_grows(g4);
            lemma_back(c, s, g4, h);
            lemma_grows_more(g3);
            lemma_back(c, s, g3, g4);
            lemma_grows_more(g2);
            lemma_back(c, s, g2, g3);
            lemma_flat_grows(types, g1, parent, None);
            lemma_back(c, s, g1, g2);
            lemma_checked(c, s, g, found is Some);
            let o = law_value(k, c, types, s, g1, parent, None, w);
            lemma_source(k, c, src, g.vregs, w.regs, o.regs);
            let p = lemma_reg_of(k, c, s, g2, x, o);
            lemma_source(k, c, src, g2.vregs, o.regs, p.regs);
            let q = lemma_reg_of(k, c, s, g3, src, p);
            assert(q.regs[ptr] == p.regs[ptr]);
            lemma_op(k, c, s, g4, store, q);
            let end = meaning::performed(k, c, store, q);
            lemma_reaches_trans(k, c, here(g, w), here(g2, o), here(g3, p));
            lemma_reaches_trans(k, c, here(g, w), here(g3, p), here(g4, q));
            lemma_reaches_trans(k, c, here(g, w), here(g4, q), here(h, end));
            end
        },
        _ => w,
    }
}

proof fn lemma_assign_runs(
    k: Machine,
    c: Ground,
    types: TypesV,
    s: Scope,
    g: Gen,
    stmt: StmtV<TypeId>,
    w: World,
    time: nat,
)
    requires
        stmt is Assign,
        ready(c, s, codegen::built(types, g, stmt)),
        args_first(g),
        runs_well(types, s, stmt),
    ensures
        comes_to(
            k,
            c,
            g,
            codegen::built(types, g, stmt),
            w,
            meaning::run_stmt(types, s, k, w.mem, stmt, time),
        ),
{
    let h = codegen::built(types, g, stmt);
    if let StmtV::Assign { var, expr, .. } = stmt {
        let wide = codegen::opt_size(types, expr.typ);
        let (size, g1) = g.sized(wide);
        let (src, g2) = codegen::flat(types, g1, expr, None);
        lemma_assigned_grows(types, g2, var, src, size);
        lemma_back(c, s, g2, h);
        lemma_flat_grows(types, g1, expr, None);
        lemma_back(c, s, g1, g2);
        lemma_sized(c, s, g, wide);
        let p = law_value(k, c, types, s, g1, expr, None, w);
        lemma_args_first(g, g2);
        let end = match var {
            AssignableV::Var(_) => lemma_assigned_var(
                k,
                c,
                types,
                s,
                g2,
                var,
                src,
                size,
                expr.typ,
                p,
            ),
            AssignableV::Index { .. } => lemma_assigned_index(
                k,
                c,
                types,
                s,
                g2,
                var,
                src,
                size,
                expr.typ,
                p,
            ),
            AssignableV::MemberAccess(..) => lemma_assigned_member(
                k,
                c,
                types,
                s,
                g2,
                var,
                src,
                size,
                expr.typ,
                p,
            ),
            AssignableV::Ptr(..) => p,
        };
        lemma_reaches_trans(k, c, here(g, w), here(g2, p), here(h, end));
        lemma_on(k, c, g, h, w, end);
    }
}

/// A label that is made leads to a block.
proof fn lemma_label(c: Ground, s: Scope, g: Gen)
    requires
        ready(c, s, g.fresh_label().1),
    ensures
        ready(c, s, g),
        quiet(g, g.fresh_label().1),
        g.fresh_label().0 != Label::End,
{
    lemma_grows(g);
    lemma_back(c, s, g, g.fresh_label().1);
    reveal(Gen::fresh_label);
    reveal(Gen::checked);
}

/// What is built for a statement runs it: if the statement comes to an end in some time, what is built comes
/// to the same end.
pub proof fn law_stmt_runs(
    k: Machine,
    c: Ground,
    types: TypesV,
    s: Scope,
    g: Gen,
    stmt: StmtV<TypeId>,
    w: World,
    time: nat,
)
    requires
        ready(c, s, codegen::built(types, g, stmt)),
        args_first(g),
        runs_well(types, s, stmt),
    ensures
        comes_to(
            k,
            c,
            g,
            codegen::built(types, g, stmt),
            w,
            meaning::run_stmt(types, s, k, w.mem, stmt, time),
        ),
    decreases time, stmt, 2nat,
{
    let h = codegen::built(types, g, stmt);
    match stmt {
        StmtV::Declare { .. } => lemma_declared(k, c, types, s, g, stmt, w, time),
        StmtV::Assign { .. } => lemma_assign_runs(k, c, types, s, g, stmt, w, time),
        StmtV::Expr(expr) => {
            let end = law_value(k, c, types, s, g, expr, None, w);
            lemma_on(k, c, g, h, w, end);
        },
        StmtV::Return(expr) => {
            let (value, g1) = guarded(types, g, expr);
            let (next, g2) = g1.fresh_label();
            let t = Terminator::Return { value };
            assert(h == g2.committed(t, next));
            lemma_grows(g2);
            lemma_back(c, s, g2, h);
            lemma_label(c, s, g1);
            let p = lemma_guarded(k, c, types, s, g, expr, w);
            lemma_branch(k, c, s, g2, t, next, p);
            assert(here(g1, p) == here(g2, p));
            lemma_reaches_trans(
                k,
                c,
                here(g, w),
                here(g2, p),
                Point::Returned(p.regs[value], p.mem),
            );
        },
        StmtV::If { .. } => lemma_if_runs(k, c, types, s, g, stmt, w, time),
        StmtV::WhileLoop { guard, body } => {
            let (test, g1) = g.fresh_label();
            let (inside, g2) = g1.fresh_label();
            let (end, g3) = g2.fresh_label();
            let t = Terminator::Branch { label: test };
            let g4 = g3.committed(t, test);
            let (cond, g5) = guarded(types, g4, guard);
            let g6 = g5.committed(
                Terminator::BranchCond { cond, if_true: inside, if_false: end },
                inside,
            );
            let g7 = codegen::built_all(types, g6, body, 0);
            assert(h == g7.committed(t, end));
            lemma_grows(g7);
            lemma_back(c, s, g7, h);
            lemma_built_all_grows(types, g6, body, 0);
            lemma_back(c, s, g6, g7);
            lemma_grows(g5);
            lemma_back(c, s, g5, g6);
            lemma_guarded_grows(types, g4, guard);
            lemma_back(c, s, g4, g5);
            lemma_grows(g3);
            lemma_back(c, s, g3, g4);
            lemma_label(c, s, g2);
            lemma_label(c, s, g1);
            lemma_label(c, s, g);
            lemma_branch(k, c, s, g3, t, test, w);
            assert(here(g, w) == here(g3, w));
            lemma_grows(g);
            lemma_grows(g1);
            lemma_grows(g2);
            lemma_grows3(g, g1, g2, g3);
            lemma_grew_trans(g, g3, g4);
            lemma_args_first(g, g4);
            lemma_loop(k, c, types, s, g4, stmt, guard, body, test, inside, end, w, time);
            lemma_after(
                k,
                c,
                g,
                g4,
                h,
                w,
                w,
                meaning::run_stmt(types, s, k, w.mem, stmt, time),
            );
        },
    }
}

proof fn lemma_if_runs(
    k: Machine,
    c: Ground,
    types: TypesV,
    s: Scope,
    g: Gen,
    stmt: StmtV<TypeId>,
    w: World,
    time: nat,
)
    requires
        stmt is If,
        ready(c, s, codegen::built(types, g, stmt)),
        args_first(g),
        runs_well(types, s, stmt),
    ensures
        comes_to(
            k,
            c,
            g,
            codegen::built(types, g, stmt),
            w,
            meaning::run_stmt(types, s, k, w.mem, stmt, time),
        ),
    decreases time, stmt, 1nat,
{
    let h = codegen::built(types, g, stmt);
    if let StmtV::If { guard, body } = stmt {
        let (cond, g1) = guarded(types, g, guard);
        let (yes, g2) = g1.fresh_label();
        let (no, g3) = g2.fresh_label();
        let choice = Terminator::BranchCond { cond, if_true: yes, if_false: no };
        let g4 = g3.committed(choice, yes);
        let g5 = codegen::built_all(types, g4, body, 0);
        let t = Terminator::Branch { label: no };
        assert(h == g5.committed(t, no));
        lemma_grows(g5);
        lemma_back(c, s, g5, h);
        lemma_built_all_grows(types, g4, body, 0);
        lemma_back(c, s, g4, g5);
        lemma_grows(g3);
        lemma_back(c, s, g3, g4);
        lemma_label(c, s, g2);
        lemma_label(c, s, g1);
        let p = lemma_guarded(k, c, types, s, g, guard, w);
        lemma_branch(k, c, s, g3, choice, yes, p);
        assert(here(g1, p) == here(g3, p));
        lemma_branch(k, c, s, g5, t, no, p);
        if p.regs[cond] != 0 {
            lemma_reaches_trans(k, c, here(g, w), here(g3, p), here(g4, p));
            lemma_guarded_grows(types, g, guard);
            lemma_grows(g1);
            lemma_grows(g2);
            lemma_grows3(g, g1, g2, g3);
            lemma_grew_trans(g, g3, g4);
            lemma_args_first(g, g4);
            law_stmts_run(k, c, types, s, g4, body, 0, p, time);
            let r = meaning::run_stmts(types, s, k, p.mem, body, 0, time);
            lemma_after(k, c, g, g4, g5, w, p, r);
            lemma_closed(k, c, s, g, g5, t, no, w, r);
        } else {
            lemma_reaches_trans(k, c, here(g, w), here(g3, p), here(h, p));
            lemma_on(k, c, g, h, w, p);
        }
    }
}

/// Behind a body a branch leads on.
proof fn lemma_closed(
    k: Machine,
    c: Ground,
    s: Scope,
    g: Gen,
    h: Gen,
    t: Terminator,
    next: Label,
    w: World,
    r: Ran,
)
    requires
        ready(c, s, h.committed(t, next)),
        t == (Terminator::Branch { label: next }),
        next != Label::End,
        comes_to(k, c, g, h, w, r),
    ensures
        comes_to(k, c, g, h.committed(t, next), w, r),
{
    if let Ran::On(m) = r {
        let regs = choose|regs: Map<VirtualReg, u64>| #[trigger]
            meaning::reaches(k, c, here(g, w), here(h, World { regs, mem: m }));
        let x = World { regs, mem: m };
        lemma_branch(k, c, s, h, t, next, x);
        lemma_reaches_trans(k, c, here(g, w), here(h, x), here(h.committed(t, next), x));
        lemma_on(k, c, g, h.committed(t, next), w, x);
    }
}

/// A loop, from its test on.
proof fn lemma_loop(
    k: Machine,
    c: Ground,
    types: TypesV,
    s: Scope,
    g: Gen,
    stmt: StmtV<TypeId>,
    guard: ExprV<TypeId>,
    body: Seq<StmtV<TypeId>>,
    test: Label,
    inside: Label,
    end: Label,
    w: World,
    time: nat,
)
    requires
        stmt == (StmtV::WhileLoop { guard, body }),
        args_first(g),
        runs_well(types, s, stmt),
        g.label == test,
        g.ops.len() == 0,
        test != Label::End,
        inside != Label::End,
        end != Label::End,
        ready(c, s, looped(types, g, guard, body, test, inside, end)),
    ensures
        comes_to(
            k,
            c,
            g,
            looped(types, g, guard, body, test, inside, end),
            w,
            meaning::run_stmt(types, s, k, w.mem, stmt, time),
        ),
    decreases time, stmt, 1nat,
{
    let h = looped(types, g, guard, body, test, inside, end);
    let (cond, g1) = guarded(types, g, guard);
    let choice = Terminator::BranchCond { cond, if_true: inside, if_false: end };
    let g2 = g1.committed(choice, inside);
    let g3 = codegen::built_all(types, g2, body, 0);
    let t = Terminator::Branch { label: test };
    lemma_grows(g3);
    lemma_back(c, s, g3, h);
    lemma_built_all_grows(types, g2, body, 0);
    lemma_back(c, s, g2, g3);
    lemma_grows(g1);
    lemma_back(c, s, g1, g2);
    let p = lemma_guarded(k, c, types, s, g, guard, w);
    lemma_branch(k, c, s, g1, choice, inside, p);
    lemma_branch(k, c, s, g3, t, end, p);
    if p.regs[cond] == 0 {
        lemma_reaches_trans(k, c, here(g, w), here(g1, p), here(h, p));
        lemma_on(k, c, g, h, w, p);
    } else if time > 0 {
        let less = (time - 1) as nat;
        lemma_reaches_trans(k, c, here(g, w), here(g1, p), here(g2, p));
        lemma_guarded_grows(types, g, guard);
        lemma_grew_trans(g, g1, g2);
        lemma_args_first(g, g2);
        law_stmts_run(k, c, types, s, g2, body, 0, p, less);
        let r = meaning::run_stmts(types, s, k, p.mem, body, 0, less);
        lemma_after(k, c, g, g2, g3, w, p, r);
        if let Ran::On(m) = r {
            let regs = choose|regs: Map<VirtualReg, u64>| #[trigger]
                meaning::reaches(k, c, here(g, w), here(g3, World { regs, mem: m }));
            let x = World { regs, mem: m };
            lemma_branch(k, c, s, g3, t, end, x);
            lemma_reaches_trans(k, c, here(g, w), here(g3, x), here(g, x));
            lemma_loop(k, c, types, s, g, stmt, guard, body, test, inside, end, x, less);
            lemma_after(
                k,
                c,
                g,
                g,
                h,
                w,
                x,
                meaning::run_stmt(types, s, k, m, stmt, less),
            );
        }
    }
}

/// What is built of a loop, from its test on.
pub open spec fn looped(
    types: TypesV,
    g: Gen,
    guard: ExprV<TypeId>,
    body: Seq<StmtV<TypeId>>,
    test: Label,
    inside: Label,
    end: Label,
) -> Gen {
    let (cond, g) = guarded(types, g, guard);
    let g = g.committed(Terminator::BranchCond { cond, if_true: inside, if_false: end }, inside);
    codegen::built_all(types, g, body, 0).committed(Terminator::Branch { label: test }, end)
}

/// What is built for statements runs them one after the other.
pub proof fn law_stmts_run(
    k: Machine,
    c: Ground,
    types: TypesV,
    s: Scope,
    g: Gen,
    stmts: Seq<StmtV<TypeId>>,
    i: nat,
    w: World,
    time: nat,
)
    requires
        ready(c, s, codegen::built_all(types, g, stmts, i)),
        args_first(g),
        run_well(types, s, stmts, stmts.len()),
    ensures
        comes_to(
            k,
            c,
            g,
            codegen::built_all(types, g, stmts, i),
            w,
            meaning::run_stmts(types, s, k, w.mem, stmts, i, time),
        ),
    decreases time, stmts, (stmts.len() - i) as nat,
{
    let h = codegen::built_all(types, g, stmts, i);
    if i < stmts.len() {
        let stmt = stmts[i as int];
        let g1 = codegen::built(types, g, stmt);
        lemma_built_all_grows(types, g1, stmts, i + 1);
        lemma_back(c, s, g1, h);
        lemma_run_well(types, s, stmts, stmts.len(), i as int);
        law_stmt_runs(k, c, types, s, g, stmt, w, time);
        let r = meaning::run_stmt(types, s, k, w.mem, stmt, time);
        if let Ran::On(m) = r {
            let regs = choose|regs: Map<VirtualReg, u64>| #[trigger]
                meaning::reaches(k, c, here(g, w), here(g1, World { regs, mem: m }));
            let x = World { regs, mem: m };
            lemma_built_grows(types, g, stmt);
            lemma_args_first(g, g1);
            law_stmts_run(k, c, types, s, g1, stmts, i + 1, x, time);
            lemma_after(
                k,
                c,
                g,
                g1,
                h,
                w,
                x,
                meaning::run_stmts(types, s, k, m, stmts, i + 1, time),
            );
        }
    } else {
        lemma_reaches_self(k, c, here(g, w));
        lemma_on(k, c, g, h, w, w);
    }
}

/// The blocks of a function by their labels, and what else is known of it.
pub open spec fn ground_of(f: FunctionV, strings: Seq<Seq<char>>) -> Ground {
    Ground {
        blocks: Map::new(
            |l: Label| laws::has_label(f.body, l),
            |l: Label|
                {
                    let b = f.body[block_at(f.body, l)];
                    (b.ops, b.terminator)
                },
        ),
        sizes: f.sizes,
        stack: f.stack,
        strings,
    }
}

pub open spec fn block_at(blocks: Seq<BlockV>, l: Label) -> int {
    choose|i: int| 0 <= i < blocks.len() && (#[trigger] blocks[i]).label == l
}

/// Where the variables of a function lie, once all of them are known.
pub open spec fn scope_of(g: Gen) -> Scope {
    Scope {
        allocs: g.mem.allocs,
        vars: g.vars,
        args: g.args,
        stack: g.stack,
        sizes: g.sizes,
    }
}

/// A function does what its statements say: if they come to an end in some time, running its blocks comes
/// to the same end. One that returns gives back the value and leaves the memory.
pub proof fn law_function_runs(
    k: Machine,
    types: TypesV,
    program: IrV,
    def: FnDefV<TypeId>,
    name: Seq<char>,
    strings: Seq<Seq<char>>,
    w: World,
    time: nat,
)
    requires
        codegen::with_function(types, program, def, name) is Some,
        starts_with(strings, (codegen::with_function(types, program, def, name)->0).strings),
        strings.len() <= usize::MAX,
        run_well(types, function_scope(types, program, def), def.body, def.body.len()),
    ensures
        ({
            let f = (codegen::with_function(types, program, def, name)->0).items.last();
            let c = ground_of(f, strings);
            let s = function_scope(types, program, def);
            match meaning::run_stmts(types, s, k, w.mem, def.body, 0, time) {
                Ran::On(m) => meaning::reaches(
                    k,
                    c,
                    Point::At(Label::Entry, 0, w),
                    Point::Ended(m),
                ),
                Ran::Back(n, m) => meaning::reaches(
                    k,
                    c,
                    Point::At(Label::Entry, 0, w),
                    Point::Returned(n, m),
                ),
                Ran::Late => true,
            }
        }),
{
    let p = codegen::with_function(types, program, def, name)->0;
    let f = p.items.last();
    let c = ground_of(f, strings);
    let s = function_scope(types, program, def);
    let start = codegen::unbuilt(codegen::numbered(def.args), program.strings, program.mem);
    let g = codegen::built_all(types, start, def.body, 0);
    let t = Terminator::Branch { label: Label::End };
    let h = g.committed(t, Label::End);
    laws::lemma_function_ok(types, program, def, name);
    lemma_ground(c, s, f, g, h, strings);
    lemma_unbuilt_args(def.args, def.args.len());
    law_stmts_run(k, c, types, s, start, def.body, 0, w, time);
    let r = meaning::run_stmts(types, s, k, w.mem, def.body, 0, time);
    assert(here(start, w) == Point::At(Label::Entry, 0, w));
    if let Ran::On(m) = r {
        let regs = choose|regs: Map<VirtualReg, u64>| #[trigger]
            meaning::reaches(k, c, here(start, w), here(g, World { regs, mem: m }));
        let x = World { regs, mem: m };
        lemma_ended(k, c, g, h, x);
        lemma_reaches_trans(k, c, here(start, w), here(g, x), Point::Ended(m));
    }
}

pub open spec fn function_scope(types: TypesV, program: IrV, def: FnDefV<TypeId>) -> Scope {
    scope_of(
        codegen::finished(
            types,
            codegen::unbuilt(codegen::numbered(def.args), program.strings, program.mem),
            def.body,
        ),
    )
}

proof fn lemma_unbuilt_args(args: Seq<(Seq<char>, TypeId, crate::analyze::Span)>, n: nat)
    requires
        n <= args.len() <= u32::MAX,
    ensures
        forall|i: u32| #[trigger]
            codegen::arg_positions(codegen::numbered(args), n).contains_key(i) ==> i < args.len(),
    decreases n,
{
    if n > 0 {
        lemma_unbuilt_args(args, (n - 1) as nat);
        let named = codegen::numbered(args);
        let before = codegen::arg_positions(named, (n - 1) as nat);
        let all = codegen::arg_positions(named, n);
        assert(named[n - 1].1.0 == n - 1);
        assert forall|i: u32| #[trigger] all.contains_key(i) implies i < args.len() by {
            if i != n - 1 {
                assert(before.contains_key(i));
            }
        }
    }
}

proof fn lemma_ended(k: Machine, c: Ground, g: Gen, h: Gen, w: World)
    requires
        h == g.committed(Terminator::Branch { label: Label::End }, Label::End),
        has_block(c, g.label, g.ops, Terminator::Branch { label: Label::End }),
    ensures
        meaning::reaches(k, c, here(g, w), Point::Ended(w.mem)),
{
    lemma_reaches_step(k, c, here(g, w));
}

/// A function is one that its building came to.
proof fn lemma_ground(
    c: Ground,
    s: Scope,
    f: FunctionV,
    g: Gen,
    h: Gen,
    strings: Seq<Seq<char>>,
)
    requires
        laws::function_ok(f),
        h == g.committed(Terminator::Branch { label: Label::End }, Label::End),
        h.ok,
        f.body == codegen::settled(h.blocks),
        f.sizes == h.sizes,
        f.stack == h.stack,
        c == ground_of(f, strings),
        s == scope_of(h),
        starts_with(strings, h.strings),
        strings.len() <= usize::MAX,
    ensures
        ready(c, s, g),
        has_block(c, g.label, g.ops, Terminator::Branch { label: Label::End }),
{
    reveal(Gen::committed);
    reveal(fits);
    reveal(lies);
    assert forall|i: int| 0 <= i < h.blocks.len() implies has_block(
        c,
        (#[trigger] h.blocks[i]).label,
        h.blocks[i].ops,
        h.blocks[i].terminator,
    ) by {
        let l = h.blocks[i].label;
        assert(f.body[i].label == l);
        assert(laws::has_label(f.body, l));
        let j = block_at(f.body, l);
        assert(f.body[j].label == l);
        assert(i == j);
    }
    let n = g.blocks.len() as int;
    assert(h.blocks[n].label == g.label);
    assert forall|i: int| 0 <= i < g.blocks.len() implies has_block(
        c,
        (#[trigger] g.blocks[i]).label,
        g.blocks[i].ops,
        g.blocks[i].terminator,
    ) by {
        assert(h.blocks[i] == g.blocks[i]);
    }
}

} // verus!
