//! What holds of every function that is generated.

use vstd::prelude::*;

use crate::analyze::ast::{
    AssignableV, AstV, ExprInnerV, ExprV, FnDefV, FnPtrV, ItemV, LogicalOp, StmtV,
};
use crate::analyze::semantics::types;
use crate::analyze::semantics::types::{Primitive, Sign, TypeId, TypesV};
use crate::ir;
use crate::ir::codegen;
use crate::ir::codegen::Gen;
use crate::ir::{
    BlockV, FunctionV, IrV, Label, Op, OpV, SourceVal, Terminator, ValSize, VirtualReg,
};
use crate::text;

verus! {

/// What is known of some labels: those that are still to be placed, and those that stand at a block.
pub struct Marks {
    pub open: Set<Label>,
    pub placed: Set<Label>,
}

impl Marks {
    pub open spec fn none() -> Marks {
        Marks { open: Set::empty(), placed: Set::empty() }
    }

    /// One more label is to be placed.
    pub open spec fn with(self, l: Label) -> Marks {
        Marks { open: self.open.insert(l), ..self }
    }

    /// A label is placed.
    pub open spec fn placing(self, l: Label) -> Marks {
        Marks { open: self.open.remove(l), placed: self.placed.insert(l) }
    }
}

/// Whether an operation reads or assigns a register.
pub open spec fn mentions(op: OpV, v: VirtualReg) -> bool {
    op.uses().contains(v) || op.assigns() == Some(v)
}

/// Whether all registers of an operation have numbers below `n`.
pub open spec fn op_below(op: OpV, n: u32) -> bool {
    forall|v: VirtualReg| #[trigger] mentions(op, v) ==> v.0 < n
}

pub open spec fn ops_below(ops: Seq<OpV>, n: u32) -> bool {
    forall|i: int| 0 <= i < ops.len() ==> op_below(#[trigger] ops[i], n)
}

pub open spec fn opt_below(v: Option<VirtualReg>, n: u32) -> bool {
    v matches Some(v) ==> v.0 < n
}

/// Whether all registers of a block have numbers below `n`.
pub open spec fn block_below(b: BlockV, n: u32) -> bool {
    ops_below(b.ops, n) && opt_below(b.terminator.used(), n)
}

/// Whether a block asks its predecessors for no register that it declares itself.
pub open spec fn block_apart(b: BlockV) -> bool {
    forall|v: VirtualReg| #[trigger] b.args.contains(v) ==> !b.decls.contains(v)
}

/// The registers of a function: the first `n` are its arguments, each of the others has a size, and
/// there are no more.
pub open spec fn registers_ok(n: u32, g: Gen) -> bool {
    &&& n <= g.vregs
    &&& forall|v: VirtualReg| #[trigger] g.sizes.contains_key(v) <==> n <= v.0 < g.vregs
    &&& forall|name: Seq<char>| #[trigger]
        g.vars.contains_key(name) ==> g.vars[name].0 < g.vregs
    &&& ops_below(g.ops, g.vregs)
    &&& forall|i: int| 0 <= i < g.blocks.len() ==> block_below(#[trigger] g.blocks[i], g.vregs)
    &&& forall|i: int| 0 <= i < g.blocks.len() ==> block_apart(#[trigger] g.blocks[i])
}

/// The places on the stack: each has eight bytes, no two variables share one, and the stack holds
/// nothing else.
pub open spec fn stack_ok(stack: Map<u32, u32>, size: u32) -> bool {
    &&& stack.dom().finite()
    &&& size == 8 * stack.dom().len()
    &&& forall|k: u32| #[trigger] stack.contains_key(k) ==> stack[k] % 8 == 0 && stack[k] + 8 <= size
    &&& forall|j: u32, k: u32|
        #![trigger stack.contains_key(j), stack.contains_key(k)]
        stack.contains_key(j) && stack.contains_key(k) && j != k ==> stack[j] != stack[k]
}

/// The label of block `i`, or that of the block that is being built.
pub open spec fn label_at(g: Gen, i: int) -> Label {
    if i < g.blocks.len() {
        g.blocks[i].label
    } else {
        g.label
    }
}

/// Whether a label can have been made by now.
pub open spec fn is_made(l: Label, labels: u32) -> bool {
    l == Label::Entry || (l matches Label::Anon(n) && n < labels)
}

/// Whether a label stands at a block.
pub open spec fn is_placed(g: Gen, l: Label) -> bool {
    exists|i: int| 0 <= i <= g.blocks.len() && #[trigger] label_at(g, i) == l
}

/// Whether a branch can lead to a label: to the end of the function, to a block, or to a label that is
/// still to be placed.
pub open spec fn is_target(m: Marks, g: Gen, l: Label) -> bool {
    l == Label::End || m.open.contains(l) || is_placed(g, l)
}

pub open spec fn targets_ok(m: Marks, g: Gen, t: Terminator) -> bool {
    forall|k: int|
        0 <= k < ir::successors_of(t).len() ==> is_target(
            m,
            g,
            #[trigger] ir::successors_of(t)[k],
        )
}

/// The labels of a function: no two blocks share one, the marks tell the truth, and every branch leads
/// somewhere.
pub open spec fn labels_ok(m: Marks, g: Gen) -> bool {
    &&& label_at(g, 0) == Label::Entry
    &&& forall|i: int, j: int|
        0 <= i < j <= g.blocks.len() ==> #[trigger] label_at(g, i) != #[trigger] label_at(g, j)
    &&& forall|i: int| 0 <= i <= g.blocks.len() ==> is_made(#[trigger] label_at(g, i), g.labels)
    &&& forall|l: Label| #[trigger]
        m.open.contains(l) ==> is_made(l, g.labels) && l != Label::Entry && !is_placed(g, l)
    &&& forall|l: Label| #[trigger] m.placed.contains(l) ==> is_placed(g, l)
    &&& forall|i: int|
        0 <= i < g.blocks.len() ==> targets_ok(m, g, (#[trigger] g.blocks[i]).terminator)
}

/// What holds of a function while it is built.
#[verifier::opaque]
pub open spec fn whole(n: u32, m: Marks, g: Gen) -> bool {
    registers_ok(n, g) && stack_ok(g.stack, g.stack_size) && labels_ok(m, g)
}

/// What leads from `g` to `h` keeps the function whole, if `c` holds.
#[verifier::opaque]
pub open spec fn keeps(n: u32, m: Marks, c: bool, g: Gen, h: Gen) -> bool {
    h.ok ==> {
        &&& g.ok
        &&& g.vregs <= h.vregs
        &&& c && whole(n, m, g) ==> whole(n, m, h)
    }
}

/// A register that is known in `h`.
pub open spec fn known(n: u32, m: Marks, c: bool, g: Gen, h: Gen, v: VirtualReg) -> bool {
    h.ok && c && whole(n, m, g) ==> v.0 < h.vregs
}

pub open spec fn src_known(
    n: u32,
    m: Marks,
    c: bool,
    g: Gen,
    h: Gen,
    s: SourceVal,
) -> bool {
    s matches SourceVal::VReg(v) ==> known(n, m, c, g, h, v)
}

proof fn lemma_start(n: u32, m: Marks, c: bool, g: Gen)
    ensures
        keeps(n, m, c, g, g),
{
    reveal(keeps);
}

proof fn lemma_trans(n: u32, m: Marks, c: bool, d: bool, g: Gen, h: Gen, k: Gen)
    requires
        keeps(n, m, c, g, h),
        keeps(n, m, d, h, k),
        h.ok && c ==> d,
    ensures
        keeps(n, m, c, g, k),
        k.ok ==> h.ok && h.vregs <= k.vregs,
{
    reveal(keeps);
}

proof fn lemma_weak(n: u32, m: Marks, g: Gen, h: Gen)
    requires
        keeps(n, m, true, g, h),
    ensures
        keeps(n, m, false, g, h),
{
    reveal(keeps);
}

/// A register stays known.
proof fn lemma_known(
    n: u32,
    m: Marks,
    c: bool,
    d: bool,
    g: Gen,
    h: Gen,
    k: Gen,
    v: VirtualReg,
)
    requires
        known(n, m, c, g, h, v),
        keeps(n, m, d, h, k),
    ensures
        known(n, m, c, g, k, v),
{
    reveal(keeps);
}

/// What a step gives back is known from the start.
proof fn lemma_result(
    n: u32,
    m: Marks,
    c: bool,
    d: bool,
    g: Gen,
    h: Gen,
    k: Gen,
    s: SourceVal,
)
    requires
        keeps(n, m, c, g, h),
        keeps(n, m, d, h, k),
        h.ok && c ==> d,
        src_known(n, m, d, h, k, s),
    ensures
        src_known(n, m, c, g, k, s),
{
    reveal(keeps);
}

proof fn lemma_checked(n: u32, m: Marks, c: bool, g: Gen, h: Gen, b: bool)
    requires
        keeps(n, m, c, g, h),
    ensures
        keeps(n, m, c, g, h.checked(b)),
        keeps(n, m, true, h, h.checked(b)),
{
    reveal(keeps);
    reveal(Gen::checked);
    reveal(whole);
    let k = h.checked(b);
    assert forall|o: Marks| #[trigger] labels_ok(o, h) implies labels_ok(o, k) by {
        lemma_same_labels(o, h, k);
    }
}

/// The labels of a function depend on its blocks, its current label and its counter alone.
proof fn lemma_same_labels(m: Marks, g: Gen, h: Gen)
    requires
        labels_ok(m, g),
        g.blocks == h.blocks,
        g.label == h.label,
        g.labels == h.labels,
    ensures
        labels_ok(m, h),
{
    assert forall|i: int| #[trigger] label_at(h, i) == label_at(g, i) by {}
    assert forall|l: Label| #[trigger] is_placed(h, l) == is_placed(g, l) by {
        if is_placed(g, l) {
            let i = choose|i: int| 0 <= i <= g.blocks.len() && #[trigger] label_at(g, i) == l;
            assert(label_at(h, i) == l);
        }
        if is_placed(h, l) {
            let i = choose|i: int| 0 <= i <= h.blocks.len() && #[trigger] label_at(h, i) == l;
            assert(label_at(g, i) == l);
        }
    }
    assert forall|i: int| 0 <= i < h.blocks.len() implies targets_ok(
        m,
        h,
        (#[trigger] h.blocks[i]).terminator,
    ) by {
        assert(targets_ok(m, g, g.blocks[i].terminator));
    }
}

proof fn lemma_op(n: u32, m: Marks, c: bool, g: Gen, h: Gen, op: Op)
    requires
        keeps(n, m, c, g, h),
        forall|v: VirtualReg| #[trigger]
            mentions(OpV::Plain(op), v) ==> known(n, m, c, g, h, v),
    ensures
        keeps(n, m, c, g, h.op(op)),
        h.op(op).vregs == h.vregs,
        h.op(op).ok == h.ok,
{
    reveal(keeps);
    reveal(Gen::op);
    lemma_push(n, m, c, g, h, OpV::Plain(op));
}

proof fn lemma_push(n: u32, m: Marks, c: bool, g: Gen, h: Gen, op: OpV)
    requires
        keeps(n, m, c, g, h),
        forall|v: VirtualReg| #[trigger] mentions(op, v) ==> known(n, m, c, g, h, v),
    ensures
        keeps(n, m, c, g, Gen { ops: h.ops.push(op), ..h }),
{
    reveal(keeps);
    reveal(whole);
    let k = Gen { ops: h.ops.push(op), ..h };
    if h.ok && c && whole(n, m, g) {
        lemma_same_labels(m, h, k);
        assert(op_below(op, h.vregs));
        assert(ops_below(k.ops, k.vregs));
    }
}

proof fn lemma_declares(n: u32, m: Marks, c: bool, g: Gen, h: Gen, v: VirtualReg)
    requires
        keeps(n, m, c, g, h),
    ensures
        keeps(n, m, c, g, h.declares(v)),
        h.declares(v).vregs == h.vregs,
        h.declares(v).ok == h.ok,
{
    reveal(keeps);
    reveal(Gen::declares);
    reveal(whole);
    if h.ok && c && whole(n, m, g) {
        lemma_same_labels(m, h, h.declares(v));
    }
}

proof fn lemma_op_mono(op: OpV, n: u32, m: u32)
    requires
        n <= m,
    ensures
        op_below(op, n) ==> op_below(op, m),
{
}

proof fn lemma_ops_mono(ops: Seq<OpV>, n: u32, m: u32)
    requires
        n <= m,
        ops_below(ops, n),
    ensures
        ops_below(ops, m),
{
    assert forall|i: int| 0 <= i < ops.len() implies op_below(#[trigger] ops[i], m) by {
        lemma_op_mono(ops[i], n, m);
    }
}

proof fn lemma_fresh(n: u32, m: Marks, c: bool, g: Gen, h: Gen, size: ValSize)
    requires
        keeps(n, m, c, g, h),
    ensures
        keeps(n, m, c, g, h.fresh(size).1),
        keeps(n, m, true, h, h.fresh(size).1),
        known(n, m, c, g, h.fresh(size).1, h.fresh(size).0),
        h.fresh(size).1.ok ==> h.fresh(size).0.0 < h.fresh(size).1.vregs,
{
    reveal(keeps);
    reveal(Gen::fresh);
    reveal(Gen::checked);
    reveal(whole);
    let (v, k) = h.fresh(size);
    if k.ok {
        if whole(n, m, h) {
            lemma_same_labels(m, h, k);
            lemma_ops_mono(h.ops, h.vregs, k.vregs);
            assert forall|i: int| 0 <= i < k.blocks.len() implies block_below(
                #[trigger] k.blocks[i],
                k.vregs,
            ) by {
                assert(block_below(h.blocks[i], h.vregs));
                lemma_ops_mono(h.blocks[i].ops, h.vregs, k.vregs);
            }
            assert forall|w: VirtualReg| #[trigger] k.sizes.contains_key(w) <==> n <= w.0
                < k.vregs by {
                assert(h.sizes.contains_key(w) <==> n <= w.0 < h.vregs);
            }
        }
    }
}

proof fn lemma_sized(n: u32, m: Marks, c: bool, g: Gen, h: Gen, size: Option<ValSize>)
    requires
        keeps(n, m, c, g, h),
    ensures
        keeps(n, m, c, g, h.sized(size).1),
        keeps(n, m, true, h, h.sized(size).1),
{
    reveal(Gen::sized);
    lemma_checked(n, m, c, g, h, false);
    lemma_start(n, m, true, h);
}

proof fn lemma_dest_or(
    n: u32,
    m: Marks,
    c: bool,
    g: Gen,
    h: Gen,
    dest: Option<VirtualReg>,
    size: Option<ValSize>,
)
    requires
        keeps(n, m, c, g, h),
        dest matches Some(d) ==> known(n, m, c, g, h, d),
    ensures
        keeps(n, m, c, g, h.dest_or(dest, size).1),
        keeps(n, m, true, h, h.dest_or(dest, size).1),
        known(n, m, c, g, h.dest_or(dest, size).1, h.dest_or(dest, size).0),
{
    reveal(Gen::dest_or);
    lemma_start(n, m, true, h);
    if dest is None {
        lemma_sized(n, m, c, g, h, size);
        let (s, k) = h.sized(size);
        lemma_fresh(n, m, c, g, k, s);
        lemma_trans(n, m, true, true, h, k, k.fresh(s).1);
    }
}

proof fn lemma_reg_of(n: u32, m: Marks, c: bool, g: Gen, h: Gen, src: SourceVal)
    requires
        keeps(n, m, c, g, h),
        src_known(n, m, c, g, h, src),
    ensures
        keeps(n, m, c, g, h.reg_of(src).1),
        keeps(n, m, true, h, h.reg_of(src).1),
        known(n, m, c, g, h.reg_of(src).1, h.reg_of(src).0),
{
    reveal(Gen::reg_of);
    lemma_start(n, m, true, h);
    if !(src is VReg) {
        lemma_fresh(n, m, c, g, h, ValSize::Doubleword);
        let (dest, k) = h.fresh(ValSize::Doubleword);
        let op = Op::Assign { src, dest };
        assert forall|v: VirtualReg| #[trigger] mentions(OpV::Plain(op), v) implies v == dest by {}
        lemma_op(n, m, c, g, k, op);
        lemma_op(n, m, true, h, k, op);
    }
}

proof fn lemma_var(n: u32, m: Marks, c: bool, g: Gen, h: Gen, name: Seq<char>)
    requires
        keeps(n, m, c, g, h),
    ensures
        keeps(n, m, c, g, h.var(name).1),
        keeps(n, m, true, h, h.var(name).1),
        known(n, m, c, g, h.var(name).1, h.var(name).0),
{
    reveal(Gen::var);
    lemma_start(n, m, true, h);
    lemma_checked(n, m, c, g, h, false);
    reveal(keeps);
    reveal(Gen::checked);
    reveal(whole);
}

proof fn lemma_stack_var(
    n: u32,
    m: Marks,
    c: bool,
    g: Gen,
    h: Gen,
    name: Seq<char>,
    size: ValSize,
)
    requires
        keeps(n, m, c, g, h),
    ensures
        keeps(n, m, c, g, h.stack_var(name, size).2),
        known(n, m, c, g, h.stack_var(name, size).2, h.stack_var(name, size).0),
{
    let a = h.checked(!h.mem.allocs.contains_key(name));
    lemma_checked(n, m, c, g, h, !h.mem.allocs.contains_key(name));
    lemma_fresh(n, m, c, g, a, size);
    let (v, b) = if a.vars.contains_key(name) {
        (a.vars[name], a)
    } else {
        let (v, k) = a.fresh(size);
        (v, Gen { vars: k.vars.insert(name, v), ..k })
    };
    assert(keeps(n, m, c, g, b) && known(n, m, c, g, b, v)) by {
        reveal(keeps);
        reveal(whole);
        if !a.vars.contains_key(name) && b.ok && c && whole(n, m, g) {
            lemma_same_labels(m, a.fresh(size).1, b);
        }
    }
    let k = h.stack_var(name, size).2;
    assert(keeps(n, m, c, g, k) && known(n, m, c, g, k, h.stack_var(name, size).0)) by {
        reveal(Gen::stack_var);
        reveal(Gen::checked);
        reveal(keeps);
        reveal(whole);
        if k.ok && c && whole(n, m, g) {
            lemma_same_labels(m, b, k);
            assert forall|j: u32, l: u32|
                #![trigger k.stack.contains_key(j), k.stack.contains_key(l)]
                k.stack.contains_key(j) && k.stack.contains_key(l) && j != l implies k.stack[j]
                != k.stack[l] by {
                if b.stack.contains_key(j) && b.stack.contains_key(l) {
                }
            }
        }
    }
}

proof fn lemma_loaded(
    n: u32,
    m: Marks,
    c: bool,
    types: TypesV,
    g: Gen,
    h: Gen,
    var: Seq<char>,
    dest: VirtualReg,
)
    requires
        keeps(n, m, c, g, h),
        known(n, m, c, g, h, dest),
    ensures
        keeps(n, m, c, g, codegen::loaded(types, h, var, dest)),
        keeps(n, m, false, h, codegen::loaded(types, h, var, dest)),
{
    reveal(codegen::loaded);
    lemma_start(n, m, false, h);
    if h.mem.allocs.contains_key(var) {
        let (offset, typ) = h.mem.allocs[var];
        let (ptr, a) = h.fresh(ValSize::Doubleword);
        lemma_fresh(n, m, c, g, h, ValSize::Doubleword);
        lemma_known(n, m, c, true, g, h, a, dest);
        lemma_weak(n, m, h, a);
        let op = Op::Assign { src: SourceVal::StaticMem(offset), dest: ptr };
        assert forall|v: VirtualReg| #[trigger] mentions(OpV::Plain(op), v) implies v == ptr by {}
        lemma_op(n, m, c, g, a, op);
        lemma_op(n, m, false, h, a, op);
        let b = a.op(op);
        let (size, d) = b.sized(codegen::size_of(types, typ));
        lemma_sized(n, m, c, g, b, codegen::size_of(types, typ));
        lemma_sized(n, m, false, h, b, codegen::size_of(types, typ));
        lemma_known(n, m, c, true, g, b, d, dest);
        lemma_known(n, m, c, true, g, b, d, ptr);
        let op = Op::LoadPointer { ptr, size, dest };
        assert forall|v: VirtualReg| #[trigger] mentions(OpV::Plain(op), v) implies v == ptr || v
            == dest by {}
        lemma_op(n, m, c, g, d, op);
        lemma_op(n, m, false, h, d, op);
    } else {
        let (v, a) = h.var(var);
        lemma_var(n, m, c, g, h, var);
        lemma_known(n, m, c, true, g, h, a, dest);
        lemma_weak(n, m, h, a);
        lemma_checked(n, m, c, g, a, false);
        lemma_checked(n, m, false, h, a, false);
        let first = Op::LoadArg { offset: a.args[v.0], dest };
        let second = Op::Load { stack_offset: a.stack[v.0], dest };
        assert forall|w: VirtualReg| #[trigger] mentions(OpV::Plain(first), w) implies w
            == dest by {}
        assert forall|w: VirtualReg| #[trigger] mentions(OpV::Plain(second), w) implies w
            == dest by {}
        lemma_op(n, m, c, g, a, first);
        lemma_op(n, m, c, g, a, second);
        lemma_op(n, m, false, h, a, first);
        lemma_op(n, m, false, h, a, second);
    }
}

/// A label that was not used before is still to be placed.
proof fn lemma_fresh_label(n: u32, m: Marks, g: Gen)
    ensures
        g.fresh_label().1.ok ==> g.ok && g.vregs == g.fresh_label().1.vregs && (whole(n, m, g)
            ==> whole(n, m.with(g.fresh_label().0), g.fresh_label().1) && !m.open.contains(
            g.fresh_label().0,
        )),
{
    reveal(Gen::fresh_label);
    reveal(Gen::checked);
    reveal(whole);
    let (l, h) = g.fresh_label();
    if h.ok && whole(n, m, g) {
        let more = m.with(l);
        assert forall|i: int| #[trigger] label_at(h, i) == label_at(g, i) by {}
        assert(!is_placed(h, l)) by {
            if is_placed(h, l) {
                let i = choose|i: int| 0 <= i <= h.blocks.len() && #[trigger] label_at(h, i) == l;
                assert(is_made(label_at(g, i), g.labels));
            }
        }
        assert forall|o: Label| #[trigger] more.open.contains(o) implies is_made(o, h.labels) && o
            != Label::Entry && !is_placed(h, o) by {
            if o != l {
                assert(m.open.contains(o));
                if is_placed(h, o) {
                    let i = choose|i: int|
                        0 <= i <= h.blocks.len() && #[trigger] label_at(h, i) == o;
                    assert(label_at(g, i) == o);
                }
            }
        }
        assert forall|o: Label| #[trigger] more.placed.contains(o) implies is_placed(h, o) by {
            let i = choose|i: int| 0 <= i <= g.blocks.len() && #[trigger] label_at(g, i) == o;
            assert(label_at(h, i) == o);
        }
        assert forall|i: int| 0 <= i < h.blocks.len() implies targets_ok(
            more,
            h,
            (#[trigger] h.blocks[i]).terminator,
        ) by {
            let t = h.blocks[i].terminator;
            assert(targets_ok(m, g, g.blocks[i].terminator));
            assert forall|k: int| 0 <= k < ir::successors_of(t).len() implies is_target(
                more,
                h,
                #[trigger] ir::successors_of(t)[k],
            ) by {
                let o = ir::successors_of(t)[k];
                assert(is_target(m, g, o));
                if is_placed(g, o) {
                    let j = choose|j: int|
                        0 <= j <= g.blocks.len() && #[trigger] label_at(g, j) == o;
                    assert(label_at(h, j) == o);
                }
            }
        }
        assert forall|i: int| 0 <= i <= h.blocks.len() implies is_made(
            #[trigger] label_at(h, i),
            h.labels,
        ) by {
            assert(is_made(label_at(g, i), g.labels));
        }
    }
}

/// A block ends where its terminator leads somewhere, and a label that was still to be placed stands
/// at the next one.
proof fn lemma_commit(n: u32, m: Marks, g: Gen, t: Terminator, next: Label)
    requires
        whole(n, m, g),
        m.open.contains(next),
        targets_ok(m, g, t),
        opt_below(t.used(), g.vregs),
    ensures
        whole(n, m.placing(next), g.committed(t, next)),
        g.committed(t, next).vregs == g.vregs,
        g.committed(t, next).ok == g.ok,
        is_placed(g.committed(t, next), next),
        forall|l: Label| #[trigger] is_placed(g, l) ==> is_placed(g.committed(t, next), l),
{
    reveal(Gen::committed);
    reveal(whole);
    let h = g.committed(t, next);
    let rest = m.placing(next);
    let last = g.blocks.len() as int;
    assert forall|i: int| 0 <= i <= last implies #[trigger] label_at(h, i) == label_at(g, i) by {}
    assert(label_at(h, last + 1) == next);
    assert forall|l: Label| #[trigger] is_placed(g, l) implies is_placed(h, l) by {
        let i = choose|i: int| 0 <= i <= g.blocks.len() && #[trigger] label_at(g, i) == l;
        assert(label_at(h, i) == l);
    }
    assert(is_placed(h, next));
    assert forall|i: int, j: int| 0 <= i < j <= h.blocks.len() implies #[trigger] label_at(h, i)
        != #[trigger] label_at(h, j) by {
        assert(label_at(h, i) == label_at(g, i));
        if j == last + 1 {
            if label_at(g, i) == next {
                assert(is_placed(g, next));
            }
        } else {
            assert(label_at(h, j) == label_at(g, j));
        }
    }
    assert forall|i: int| 0 <= i <= h.blocks.len() implies is_made(
        #[trigger] label_at(h, i),
        h.labels,
    ) by {
        if i <= last {
            assert(is_made(label_at(g, i), g.labels));
        }
    }
    assert forall|l: Label| #[trigger] rest.open.contains(l) implies is_made(l, h.labels) && l
        != Label::Entry && !is_placed(h, l) by {
        assert(m.open.contains(l));
        if is_placed(h, l) {
            let i = choose|i: int| 0 <= i <= h.blocks.len() && #[trigger] label_at(h, i) == l;
            if i <= last {
                assert(label_at(g, i) == l);
                assert(is_placed(g, l));
            }
        }
    }
    assert forall|i: int| 0 <= i < h.blocks.len() implies targets_ok(
        rest,
        h,
        (#[trigger] h.blocks[i]).terminator,
    ) by {
        let u = h.blocks[i].terminator;
        if i < last {
            assert(targets_ok(m, g, g.blocks[i].terminator));
        }
        assert forall|k: int| 0 <= k < ir::successors_of(u).len() implies is_target(
            rest,
            h,
            #[trigger] ir::successors_of(u)[k],
        ) by {
            assert(is_target(m, g, ir::successors_of(u)[k]));
        }
    }
    assert forall|i: int| 0 <= i < h.blocks.len() implies block_below(
        #[trigger] h.blocks[i],
        h.vregs,
    ) by {
        if i < last {
            assert(block_below(g.blocks[i], g.vregs));
        }
    }
}

proof fn lemma_commit_same(g: Gen, t: Terminator, next: Label)
    ensures
        g.committed(t, next).vregs == g.vregs,
        g.committed(t, next).ok == g.ok,
{
    reveal(Gen::committed);
}

/// Labels that were placed on the way need no mark.
proof fn lemma_forget(n: u32, m: Marks, k: Marks, g: Gen)
    requires
        whole(n, k, g),
        k.open == m.open,
        m.placed.subset_of(k.placed),
    ensures
        whole(n, m, g),
{
    reveal(whole);
    assert forall|i: int| 0 <= i < g.blocks.len() implies targets_ok(
        m,
        g,
        (#[trigger] g.blocks[i]).terminator,
    ) by {
        let t = g.blocks[i].terminator;
        assert(targets_ok(k, g, t));
        assert forall|j: int| 0 <= j < ir::successors_of(t).len() implies is_target(
            m,
            g,
            #[trigger] ir::successors_of(t)[j],
        ) by {
            assert(is_target(k, g, ir::successors_of(t)[j]));
        }
    }
}

/// A label that is marked can be branched to.
proof fn lemma_target(n: u32, m: Marks, g: Gen, l: Label)
    requires
        whole(n, m, g),
        m.open.contains(l) || m.placed.contains(l),
    ensures
        is_target(m, g, l),
{
    reveal(whole);
}

/// What holds of an expression that is computed.
pub open spec fn flat_keeps(
    n: u32,
    m: Marks,
    types: TypesV,
    g: Gen,
    expr: ExprV<TypeId>,
    dest: Option<VirtualReg>,
) -> bool {
    let (s, h) = codegen::flat(types, g, expr, dest);
    let c = opt_below(dest, g.vregs);
    keeps(n, m, c, g, h) && src_known(n, m, c, g, h, s)
}

proof fn lemma_flat(
    n: u32,
    m: Marks,
    types: TypesV,
    g: Gen,
    expr: ExprV<TypeId>,
    dest: Option<VirtualReg>,
)
    ensures
        flat_keeps(n, m, types, g, expr, dest),
    decreases expr, 1nat,
{
    let c = opt_below(dest, g.vregs);
    lemma_start(n, m, c, g);
    let has = codegen::has_size(types, expr.typ);
    lemma_checked(n, m, c, g, g, has);
    let h = g.checked(has);
    match expr.inner {
        ExprInnerV::Const(..)
        | ExprInnerV::Character(_)
        | ExprInnerV::Bool(_) => {},
        ExprInnerV::SizeOf(_) | ExprInnerV::Construct { .. } => {
            lemma_checked(n, m, c, g, h, false);
        },
        ExprInnerV::String(text) => {
            let k = Gen { strings: ir::with_string(h.strings, text), ..h };
            reveal(keeps);
            reveal(whole);
            if k.ok && c && whole(n, m, g) {
                lemma_same_labels(m, h, k);
            }
        },
        ExprInnerV::Ident(_) | ExprInnerV::Pointer(_) | ExprInnerV::Deref(..) => lemma_flat_var(
            n,
            m,
            types,
            g,
            expr,
            dest,
        ),
        ExprInnerV::Arithmetic(..) | ExprInnerV::Comparison(..) => lemma_flat_binary(
            n,
            m,
            types,
            g,
            expr,
            dest,
        ),
        ExprInnerV::Logical(..) => lemma_flat_logical(n, m, types, g, expr, dest),
        ExprInnerV::Not(..) | ExprInnerV::Negate(..) | ExprInnerV::Cast(..) => lemma_flat_unary(
            n,
            m,
            types,
            g,
            expr,
            dest,
        ),
        ExprInnerV::Index { .. } => lemma_flat_index(n, m, types, g, expr, dest),
        ExprInnerV::MemberAccess(..) => lemma_flat_member(n, m, types, g, expr, dest),
        ExprInnerV::FnCall(..) => lemma_flat_call(n, m, types, g, expr, dest),
    }
}

proof fn lemma_dest_known(
    n: u32,
    m: Marks,
    c: bool,
    g: Gen,
    h: Gen,
    dest: Option<VirtualReg>,
)
    requires
        keeps(n, m, c, g, h),
        c ==> opt_below(dest, g.vregs),
    ensures
        dest matches Some(d) ==> known(n, m, c, g, h, d),
        c && h.ok ==> opt_below(dest, h.vregs),
{
    reveal(keeps);
}

proof fn lemma_flat_var(
    n: u32,
    m: Marks,
    types: TypesV,
    g: Gen,
    expr: ExprV<TypeId>,
    dest: Option<VirtualReg>,
)
    requires
        expr.inner is Ident || expr.inner is Pointer || expr.inner is Deref,
    ensures
        flat_keeps(n, m, types, g, expr, dest),
    decreases expr, 0nat,
{
    let c = opt_below(dest, g.vregs);
    let size = codegen::opt_size(types, expr.typ);
    let has = codegen::has_size(types, expr.typ);
    lemma_start(n, m, c, g);
    lemma_checked(n, m, c, g, g, has);
    let h = g.checked(has);
    lemma_dest_known(n, m, c, g, h, dest);
    match expr.inner {
        ExprInnerV::Ident(var) => {
            let (s, a) = h.sized(size);
            lemma_sized(n, m, c, g, h, size);
            let (d, b) = a.fresh(s);
            lemma_fresh(n, m, c, g, a, s);
            lemma_loaded(n, m, c, types, g, b, var, d);
            let k = codegen::loaded(types, b, var, d);
            lemma_known(n, m, c, false, g, b, k, d);
        },
        ExprInnerV::Pointer(var) => {
            let (val, a) = h.var(var);
            lemma_var(n, m, c, g, h, var);
            if let Some(d) = dest {
                lemma_known(n, m, c, true, g, h, a, d);
            }
            let (d, b) = a.dest_or(dest, size);
            lemma_dest_or(n, m, c, g, a, dest, size);
            let first = Op::AddressOfArg { offset: b.args[val.0], dest: d };
            let second = Op::AddressOf { val, dest: d };
            assert forall|v: VirtualReg| #[trigger] mentions(OpV::Plain(first), v) implies v
                == d by {}
            assert forall|v: VirtualReg| #[trigger] mentions(OpV::Plain(second), v) implies v == d
                || v == val by {}
            lemma_known(n, m, c, true, g, a, b, val);
            lemma_op(n, m, c, g, b, first);
            lemma_op(n, m, c, g, b, second);
        },
        ExprInnerV::Deref(var, typ) => {
            let (ptr, a) = h.fresh(ValSize::Doubleword);
            lemma_fresh(n, m, c, g, h, ValSize::Doubleword);
            if let Some(d) = dest {
                lemma_known(n, m, c, true, g, h, a, d);
            }
            let (d, b) = a.dest_or(dest, size);
            lemma_dest_or(n, m, c, g, a, dest, size);
            lemma_known(n, m, c, true, g, a, b, ptr);
            let e = codegen::loaded(types, b, var, ptr);
            lemma_loaded(n, m, c, types, g, b, var, ptr);
            lemma_known(n, m, c, false, g, b, e, ptr);
            lemma_known(n, m, c, false, g, b, e, d);
            let (s, f) = e.sized(codegen::opt_size(types, typ));
            lemma_sized(n, m, c, g, e, codegen::opt_size(types, typ));
            lemma_known(n, m, c, true, g, e, f, ptr);
            lemma_known(n, m, c, true, g, e, f, d);
            let op = Op::LoadPointer { ptr, size: s, dest: d };
            assert forall|v: VirtualReg| #[trigger] mentions(OpV::Plain(op), v) implies v == ptr
                || v == d by {}
            lemma_op(n, m, c, g, f, op);
        },
        _ => {},
    }
}

proof fn lemma_flat_binary(
    n: u32,
    m: Marks,
    types: TypesV,
    g: Gen,
    expr: ExprV<TypeId>,
    dest: Option<VirtualReg>,
)
    requires
        expr.inner is Arithmetic || expr.inner is Comparison,
    ensures
        flat_keeps(n, m, types, g, expr, dest),
    decreases expr, 0nat,
{
    let c = opt_below(dest, g.vregs);
    let size = codegen::opt_size(types, expr.typ);
    let has = codegen::has_size(types, expr.typ);
    lemma_start(n, m, c, g);
    lemma_checked(n, m, c, g, g, has);
    let h = g.checked(has);
    match expr.inner {
        ExprInnerV::Arithmetic(x, y, op, _) => {
            lemma_flat(n, m, types, h, *x, None);
            let (_, h1) = codegen::flat(types, h, *x, None);
            lemma_flat(n, m, types, h1, *y, None);
            let (a, b, d, k) = two_operands(types, h, *x, *y, dest, size);
            lemma_two_operands(n, m, c, types, g, h, *x, *y, dest, size);
            let op = codegen::arithmetic_op(op, a, b, d);
            assert forall|v: VirtualReg| #[trigger] mentions(OpV::Plain(op), v) implies v == a || v
                == b || v == d by {}
            lemma_op(n, m, c, g, k, op);
        },
        ExprInnerV::Comparison(x, y, op, sign) => {
            lemma_flat(n, m, types, h, *x, None);
            let (_, h1) = codegen::flat(types, h, *x, None);
            lemma_flat(n, m, types, h1, *y, None);
            let (a, b, d, k) = two_operands(types, h, *x, *y, dest, size);
            lemma_two_operands(n, m, c, types, g, h, *x, *y, dest, size);
            let cond = ir::condition_of(op, sign == Some(Sign::Signed));
            let op = Op::Compare { a, b, cond, dest: d };
            assert forall|v: VirtualReg| #[trigger] mentions(OpV::Plain(op), v) implies v == a || v
                == b || v == d by {}
            lemma_op(n, m, c, g, k, op);
        },
        _ => {},
    }
}

/// Two operands in registers, and a register for the result.
pub open spec fn two_operands(
    types: TypesV,
    h: Gen,
    x: ExprV<TypeId>,
    y: ExprV<TypeId>,
    dest: Option<VirtualReg>,
    size: Option<ValSize>,
) -> (VirtualReg, VirtualReg, VirtualReg, Gen) {
    let (a, g) = codegen::flat(types, h, x, None);
    let (b, g) = codegen::flat(types, g, y, None);
    let (a, g) = g.reg_of(a);
    let (b, g) = g.reg_of(b);
    let (d, g) = g.dest_or(dest, size);
    (a, b, d, g)
}

proof fn lemma_two_operands(
    n: u32,
    m: Marks,
    c: bool,
    types: TypesV,
    g: Gen,
    h: Gen,
    x: ExprV<TypeId>,
    y: ExprV<TypeId>,
    dest: Option<VirtualReg>,
    size: Option<ValSize>,
)
    requires
        keeps(n, m, c, g, h),
        c ==> opt_below(dest, g.vregs),
        flat_keeps(n, m, types, h, x, None),
        flat_keeps(n, m, types, codegen::flat(types, h, x, None).1, y, None),
    ensures
        ({
            let (a, b, d, k) = two_operands(types, h, x, y, dest, size);
            &&& keeps(n, m, c, g, k)
            &&& known(n, m, c, g, k, a)
            &&& known(n, m, c, g, k, b)
            &&& known(n, m, c, g, k, d)
        }),
{
    let (a, h1) = codegen::flat(types, h, x, None);
    lemma_trans(n, m, c, true, g, h, h1);
    lemma_result(n, m, c, true, g, h, h1, a);
    let (b, h2) = codegen::flat(types, h1, y, None);
    lemma_trans(n, m, c, true, g, h1, h2);
    lemma_result(n, m, c, true, g, h1, h2, b);
    if let SourceVal::VReg(v) = a {
        lemma_known(n, m, c, true, g, h1, h2, v);
    }
    let (ra, h3) = h2.reg_of(a);
    lemma_reg_of(n, m, c, g, h2, a);
    if let SourceVal::VReg(v) = b {
        lemma_known(n, m, c, true, g, h2, h3, v);
    }
    let (rb, h4) = h3.reg_of(b);
    lemma_reg_of(n, m, c, g, h3, b);
    lemma_known(n, m, c, true, g, h3, h4, ra);
    lemma_dest_known(n, m, c, g, h4, dest);
    let (d, h5) = h4.dest_or(dest, size);
    lemma_dest_or(n, m, c, g, h4, dest, size);
    lemma_known(n, m, c, true, g, h4, h5, ra);
    lemma_known(n, m, c, true, g, h4, h5, rb);
}

proof fn lemma_flat_unary(
    n: u32,
    m: Marks,
    types: TypesV,
    g: Gen,
    expr: ExprV<TypeId>,
    dest: Option<VirtualReg>,
)
    requires
        expr.inner is Not || expr.inner is Negate || expr.inner is Cast,
    ensures
        flat_keeps(n, m, types, g, expr, dest),
    decreases expr, 0nat,
{
    let c = opt_below(dest, g.vregs);
    let size = codegen::opt_size(types, expr.typ);
    let has = codegen::has_size(types, expr.typ);
    lemma_start(n, m, c, g);
    lemma_checked(n, m, c, g, g, has);
    let h = g.checked(has);
    lemma_dest_known(n, m, c, g, h, dest);
    let d0 = opt_below(dest, h.vregs);
    let a = match expr.inner {
        ExprInnerV::Not(a) => *a,
        ExprInnerV::Negate(a) => *a,
        ExprInnerV::Cast(a, _) => *a,
        _ => expr,
    };
    match expr.inner {
        ExprInnerV::Not(a) => lemma_flat(n, m, types, h, *a, dest),
        ExprInnerV::Negate(a) => lemma_flat(n, m, types, h, *a, dest),
        ExprInnerV::Cast(a, _) => lemma_flat(n, m, types, h, *a, dest),
        _ => {},
    }
    let (val, h1) = codegen::flat(types, h, a, dest);
    lemma_trans(n, m, c, d0, g, h, h1);
    lemma_result(n, m, c, d0, g, h, h1, val);
    let (v, h2) = h1.reg_of(val);
    lemma_reg_of(n, m, c, g, h1, val);
    lemma_dest_known(n, m, c, g, h2, dest);
    let (d, h3) = h2.dest_or(dest, size);
    lemma_dest_or(n, m, c, g, h2, dest, size);
    lemma_known(n, m, c, true, g, h2, h3, v);
    let not = Op::Not { val: v, dest: d };
    let negate = Op::Negate { val: v, dest: d };
    assert forall|w: VirtualReg| #[trigger] mentions(OpV::Plain(not), w) implies w == v || w
        == d by {}
    assert forall|w: VirtualReg| #[trigger] mentions(OpV::Plain(negate), w) implies w == v || w
        == d by {}
    lemma_op(n, m, c, g, h3, not);
    lemma_op(n, m, c, g, h3, negate);
}

proof fn lemma_flat_index(
    n: u32,
    m: Marks,
    types: TypesV,
    g: Gen,
    expr: ExprV<TypeId>,
    dest: Option<VirtualReg>,
)
    requires
        expr.inner is Index,
    ensures
        flat_keeps(n, m, types, g, expr, dest),
    decreases expr, 0nat,
{
    let c = opt_below(dest, g.vregs);
    let size = codegen::opt_size(types, expr.typ);
    let has = codegen::has_size(types, expr.typ);
    lemma_start(n, m, c, g);
    lemma_checked(n, m, c, g, g, has);
    let h = g.checked(has);
    if let ExprInnerV::Index { data, index, val_size } = expr.inner {
        let (i, h1) = codegen::flat(types, h, *index, None);
        lemma_flat(n, m, types, h, *index, None);
        lemma_trans(n, m, c, true, g, h, h1);
        lemma_result(n, m, c, true, g, h, h1, i);
        let (b, h2) = h1.reg_of(i);
        lemma_reg_of(n, m, c, g, h1, i);
        let (x, h3) = codegen::flat(types, h2, *data, None);
        lemma_flat(n, m, types, h2, *data, None);
        lemma_trans(n, m, c, true, g, h2, h3);
        lemma_result(n, m, c, true, g, h2, h3, x);
        lemma_known(n, m, c, true, g, h2, h3, b);
        let (a, h4) = h3.reg_of(x);
        lemma_reg_of(n, m, c, g, h3, x);
        lemma_known(n, m, c, true, g, h3, h4, b);
        let (ptr, h5) = h4.fresh(ValSize::Doubleword);
        lemma_fresh(n, m, c, g, h4, ValSize::Doubleword);
        lemma_known(n, m, c, true, g, h4, h5, a);
        lemma_known(n, m, c, true, g, h4, h5, b);
        lemma_dest_known(n, m, c, g, h5, dest);
        let (d, h6) = h5.dest_or(dest, size);
        lemma_dest_or(n, m, c, g, h5, dest, size);
        lemma_known(n, m, c, true, g, h5, h6, a);
        lemma_known(n, m, c, true, g, h5, h6, b);
        lemma_known(n, m, c, true, g, h5, h6, ptr);
        lemma_pointed(n, m, c, g, h6, a, b, ptr, d, val_size);
    }
}

/// A value is loaded from an address that is the sum of two registers.
proof fn lemma_pointed(
    n: u32,
    m: Marks,
    c: bool,
    g: Gen,
    h: Gen,
    a: VirtualReg,
    b: VirtualReg,
    ptr: VirtualReg,
    dest: VirtualReg,
    size: Option<ValSize>,
)
    requires
        keeps(n, m, c, g, h),
        known(n, m, c, g, h, a),
        known(n, m, c, g, h, b),
        known(n, m, c, g, h, ptr),
        known(n, m, c, g, h, dest),
    ensures
        ({
            let (s, k) = h.op(Op::Add { a, b, dest: ptr }).sized(size);
            let last = k.op(Op::LoadPointer { ptr, size: s, dest });
            keeps(n, m, c, g, last) && known(n, m, c, g, last, dest)
        }),
{
    let sum = Op::Add { a, b, dest: ptr };
    assert forall|v: VirtualReg| #[trigger] mentions(OpV::Plain(sum), v) implies v == a || v == b
        || v == ptr by {}
    lemma_op(n, m, c, g, h, sum);
    let h1 = h.op(sum);
    let (s, k) = h1.sized(size);
    lemma_sized(n, m, c, g, h1, size);
    lemma_known(n, m, c, true, g, h1, k, ptr);
    lemma_known(n, m, c, true, g, h1, k, dest);
    let load = Op::LoadPointer { ptr, size: s, dest };
    assert forall|v: VirtualReg| #[trigger] mentions(OpV::Plain(load), v) implies v == ptr || v
        == dest by {}
    lemma_op(n, m, c, g, k, load);
}

proof fn lemma_flat_member(
    n: u32,
    m: Marks,
    types: TypesV,
    g: Gen,
    expr: ExprV<TypeId>,
    dest: Option<VirtualReg>,
)
    requires
        expr.inner is MemberAccess,
    ensures
        flat_keeps(n, m, types, g, expr, dest),
    decreases expr, 0nat,
{
    let c = opt_below(dest, g.vregs);
    let size = codegen::opt_size(types, expr.typ);
    let has = codegen::has_size(types, expr.typ);
    lemma_start(n, m, c, g);
    lemma_checked(n, m, c, g, g, has);
    let h = g.checked(has);
    if let ExprInnerV::MemberAccess(a, member, typ) = expr.inner {
        let (parent, h1) = codegen::flat(types, h, *a, None);
        lemma_flat(n, m, types, h, *a, None);
        lemma_trans(n, m, c, true, g, h, h1);
        lemma_result(n, m, c, true, g, h, h1, parent);
        let (base, h2) = h1.reg_of(parent);
        lemma_reg_of(n, m, c, g, h1, parent);
        let found = codegen::offset_of(types, typ, member);
        let h3 = h2.checked(found is Some);
        lemma_checked(n, m, c, g, h2, found is Some);
        lemma_known(n, m, c, true, g, h2, h3, base);
        lemma_dest_known(n, m, c, g, h3, dest);
        let (d, h4) = h3.dest_or(dest, size);
        lemma_dest_or(n, m, c, g, h3, dest, size);
        lemma_known(n, m, c, true, g, h3, h4, base);
        let offset = match found {
            Some(o) => codegen::low_half(o),
            None => 0,
        };
        let op = Op::LoadOffset { base, offset, dest: d };
        assert forall|v: VirtualReg| #[trigger] mentions(OpV::Plain(op), v) implies v == base || v
            == d by {}
        lemma_op(n, m, c, g, h4, op);
    }
}

/// What holds of the arguments of a call that are computed.
pub open spec fn args_known(
    n: u32,
    m: Marks,
    c: bool,
    g: Gen,
    h: Gen,
    args: Seq<VirtualReg>,
) -> bool {
    forall|i: int| 0 <= i < args.len() ==> known(n, m, c, g, h, #[trigger] args[i])
}

proof fn lemma_flat_args(
    n: u32,
    m: Marks,
    types: TypesV,
    g: Gen,
    h: Gen,
    args: Seq<ExprV<TypeId>>,
    i: nat,
    done: Seq<VirtualReg>,
)
    requires
        keeps(n, m, true, g, h),
        args_known(n, m, true, g, h, done),
    ensures
        ({
            let (regs, k) = codegen::flat_args(types, h, args, i, done);
            keeps(n, m, true, g, k) && args_known(n, m, true, g, k, regs)
        }),
    decreases args, args.len() - i,
{
    if i < args.len() {
        let (src, h1) = codegen::flat(types, h, args[i as int], None);
        lemma_flat(n, m, types, h, args[i as int], None);
        lemma_trans(n, m, true, true, g, h, h1);
        lemma_result(n, m, true, true, g, h, h1, src);
        let (v, h2) = h1.reg_of(src);
        lemma_reg_of(n, m, true, g, h1, src);
        assert forall|j: int| 0 <= j < done.push(v).len() implies known(
            n,
            m,
            true,
            g,
            h2,
            #[trigger] done.push(v)[j],
        ) by {
            if j < done.len() {
                lemma_known(n, m, true, true, g, h, h1, done[j]);
                lemma_known(n, m, true, true, g, h1, h2, done[j]);
            }
        }
        lemma_flat_args(n, m, types, g, h2, args, i + 1, done.push(v));
    }
}

proof fn lemma_flat_call(
    n: u32,
    m: Marks,
    types: TypesV,
    g: Gen,
    expr: ExprV<TypeId>,
    dest: Option<VirtualReg>,
)
    requires
        expr.inner is FnCall,
    ensures
        flat_keeps(n, m, types, g, expr, dest),
    decreases expr, 0nat,
{
    let c = opt_below(dest, g.vregs);
    let size = codegen::opt_size(types, expr.typ);
    let has = codegen::has_size(types, expr.typ);
    lemma_start(n, m, c, g);
    lemma_checked(n, m, c, g, g, has);
    let h = g.checked(has);
    if let ExprInnerV::FnCall(f, list) = expr.inner {
        lemma_start(n, m, true, h);
        lemma_flat_args(n, m, types, h, h, list, 0, Seq::empty());
        let (args, h1) = codegen::flat_args(types, h, list, 0, Seq::empty());
        lemma_trans(n, m, c, true, g, h, h1);
        lemma_dest_known(n, m, c, g, h1, dest);
        let (d, h2) = if dest is None && size is Some {
            let (d, k) = h1.fresh(size->0);
            (Some(d), k)
        } else {
            (dest, h1)
        };
        if dest is None && size is Some {
            lemma_fresh(n, m, c, g, h1, size->0);
        } else {
            lemma_start(n, m, true, h1);
        }
        lemma_checked(n, m, c, g, h2, false);
        if let FnPtrV::Named(function) = f {
            let op = OpV::Call { function, args, dest: d };
            assert forall|v: VirtualReg| #[trigger] mentions(op, v) implies known(
                n,
                m,
                c,
                g,
                h2,
                v,
            ) by {
                if d != Some(v) {
                    assert(args.to_set().contains(v));
                    let j = choose|j: int| 0 <= j < args.len() && args[j] == v;
                    lemma_result(n, m, c, true, g, h, h1, SourceVal::VReg(args[j]));
                    lemma_known(n, m, c, true, g, h1, h2, args[j]);
                }
            }
            lemma_push(n, m, c, g, h2, op);
        }
    }
}

/// The blocks of a logical operation behind its first operand.
pub open spec fn branches(
    types: TypesV,
    g: Gen,
    op: LogicalOp,
    a: VirtualReg,
    y: ExprV<TypeId>,
    dest: VirtualReg,
) -> Gen {
    let (second, g) = g.fresh_label();
    let (yes, g) = g.fresh_label();
    let (no, g) = g.fresh_label();
    let (end, g) = g.fresh_label();
    let g = g.committed(codegen::first_test(op, a, second, yes, no), second);
    let (b, g) = codegen::flat(types, g, y, None);
    let (b, g) = g.reg_of(b);
    let g = g.committed(Terminator::BranchCond { cond: b, if_true: yes, if_false: no }, yes);
    let g = g.declares(dest).op(Op::Assign { src: SourceVal::Immediate(1), dest });
    let g = g.committed(Terminator::Branch { label: end }, no);
    let g = g.declares(dest).op(Op::Assign { src: SourceVal::Immediate(0), dest });
    g.committed(Terminator::Branch { label: end }, end)
}

/// A register is set to a number.
proof fn lemma_set(n: u32, m: Marks, g: Gen, dest: VirtualReg, value: u64)
    ensures
        ({
            let h = g.declares(dest).op(
                Op::Assign { src: SourceVal::Immediate(value), dest },
            );
            &&& h.ok == g.ok
            &&& h.vregs == g.vregs
            &&& g.ok && whole(n, m, g) && dest.0 < g.vregs ==> whole(n, m, h)
        }),
{
    let c = dest.0 < g.vregs;
    lemma_start(n, m, c, g);
    lemma_declares(n, m, c, g, g, dest);
    let h = g.declares(dest);
    let op = Op::Assign { src: SourceVal::Immediate(value), dest };
    assert forall|v: VirtualReg| #[trigger] mentions(OpV::Plain(op), v) implies v == dest by {}
    lemma_op(n, m, c, g, h, op);
    reveal(keeps);
}

/// Four labels are made, one after the other.
proof fn lemma_four_labels(n: u32, m: Marks, g: Gen)
    ensures
        ({
            let (l1, g1) = g.fresh_label();
            let (l2, g2) = g1.fresh_label();
            let (l3, g3) = g2.fresh_label();
            let (l4, g4) = g3.fresh_label();
            g4.ok ==> {
                &&& g.ok
                &&& g4.vregs == g.vregs
                &&& whole(n, m, g) ==> {
                    &&& whole(n, m.with(l1).with(l2).with(l3).with(l4), g4)
                    &&& !m.open.contains(l1) && !m.open.contains(l2) && !m.open.contains(l3)
                        && !m.open.contains(l4)
                    &&& l1 != l2 && l1 != l3 && l1 != l4 && l2 != l3 && l2 != l4 && l3 != l4
                }
            }
        }),
{
    let (l1, g1) = g.fresh_label();
    let (l2, g2) = g1.fresh_label();
    let (l3, g3) = g2.fresh_label();
    lemma_fresh_label(n, m, g);
    lemma_fresh_label(n, m.with(l1), g1);
    lemma_fresh_label(n, m.with(l1).with(l2), g2);
    lemma_fresh_label(n, m.with(l1).with(l2).with(l3), g3);
}

proof fn lemma_branches(
    n: u32,
    m: Marks,
    types: TypesV,
    g: Gen,
    op: LogicalOp,
    a: VirtualReg,
    y: ExprV<TypeId>,
    dest: VirtualReg,
)
    ensures
        keeps(
            n,
            m,
            a.0 < g.vregs && dest.0 < g.vregs,
            g,
            branches(types, g, op, a, y, dest),
        ),
    decreases y, 2nat,
{
    let (second, g1) = g.fresh_label();
    let (yes, g2) = g1.fresh_label();
    let (no, g3) = g2.fresh_label();
    let (end, g4) = g3.fresh_label();
    lemma_four_labels(n, m, g);
    let m4 = m.with(second).with(yes).with(no).with(end);
    let t1 = codegen::first_test(op, a, second, yes, no);
    let g5 = g4.committed(t1, second);
    lemma_commit_same(g4, t1, second);
    let m5 = m4.placing(second);
    lemma_flat(n, m5, types, g5, y, None);
    let (src, g6) = codegen::flat(types, g5, y, None);
    let (b, g7) = g6.reg_of(src);
    lemma_reg_of(n, m5, true, g5, g6, src);
    let t2 = Terminator::BranchCond { cond: b, if_true: yes, if_false: no };
    let g8 = g7.committed(t2, yes);
    lemma_commit_same(g7, t2, yes);
    let m8 = m5.placing(yes);
    let g9 = g8.declares(dest).op(Op::Assign { src: SourceVal::Immediate(1), dest });
    lemma_set(n, m8, g8, dest, 1);
    let t3 = Terminator::Branch { label: end };
    let g10 = g9.committed(t3, no);
    lemma_commit_same(g9, t3, no);
    let m10 = m8.placing(no);
    let g11 = g10.declares(dest).op(Op::Assign { src: SourceVal::Immediate(0), dest });
    lemma_set(n, m10, g10, dest, 0);
    let g12 = g11.committed(t3, end);
    lemma_commit_same(g11, t3, end);
    let m12 = m10.placing(end);
    assert(g12 == branches(types, g, op, a, y, dest));
    reveal(keeps);
    if g12.ok && a.0 < g.vregs && dest.0 < g.vregs && whole(n, m, g) {
        assert(whole(n, m4, g4));
        lemma_target(n, m4, g4, second);
        lemma_target(n, m4, g4, yes);
        lemma_target(n, m4, g4, no);
        assert(targets_ok(m4, g4, t1));
        lemma_commit(n, m4, g4, t1, second);
        assert(whole(n, m5, g7));
        lemma_target(n, m5, g7, yes);
        lemma_target(n, m5, g7, no);
        assert(targets_ok(m5, g7, t2));
        lemma_commit(n, m5, g7, t2, yes);
        lemma_target(n, m8, g9, end);
        assert(targets_ok(m8, g9, t3));
        lemma_commit(n, m8, g9, t3, no);
        lemma_target(n, m10, g11, end);
        assert(targets_ok(m10, g11, t3));
        lemma_commit(n, m10, g11, t3, end);
        assert(m12.open =~= m.open);
        lemma_forget(n, m, m12, g12);
    }
}

proof fn lemma_flat_logical(
    n: u32,
    m: Marks,
    types: TypesV,
    g: Gen,
    expr: ExprV<TypeId>,
    dest: Option<VirtualReg>,
)
    requires
        expr.inner is Logical,
    ensures
        flat_keeps(n, m, types, g, expr, dest),
    decreases expr, 0nat,
{
    let c = opt_below(dest, g.vregs);
    let size = codegen::opt_size(types, expr.typ);
    let has = codegen::has_size(types, expr.typ);
    lemma_start(n, m, c, g);
    lemma_checked(n, m, c, g, g, has);
    let h = g.checked(has);
    if let ExprInnerV::Logical(x, y, op) = expr.inner {
        lemma_dest_known(n, m, c, g, h, dest);
        let (d, h1) = h.dest_or(dest, size);
        lemma_dest_or(n, m, c, g, h, dest, size);
        let (src, h2) = codegen::flat(types, h1, *x, None);
        lemma_flat(n, m, types, h1, *x, None);
        lemma_trans(n, m, c, true, g, h1, h2);
        lemma_result(n, m, c, true, g, h1, h2, src);
        lemma_known(n, m, c, true, g, h1, h2, d);
        let (a, h3) = h2.reg_of(src);
        lemma_reg_of(n, m, c, g, h2, src);
        lemma_known(n, m, c, true, g, h2, h3, d);
        let k = branches(types, h3, op, a, *y, d);
        lemma_branches(n, m, types, h3, op, a, *y, d);
        assert(codegen::flat(types, g, expr, dest) == (SourceVal::VReg(d), k));
        reveal(keeps);
    }
}

/// A value in a register is stored where a pointer leads.
proof fn lemma_stored(
    n: u32,
    m: Marks,
    g: Gen,
    h: Gen,
    src: VirtualReg,
    ptr: VirtualReg,
    size: Option<ValSize>,
)
    requires
        keeps(n, m, true, g, h),
        known(n, m, true, g, h, src),
        known(n, m, true, g, h, ptr),
    ensures
        ({
            let (s, k) = h.sized(size);
            keeps(n, m, true, g, k.op(Op::StorePointer { src, ptr, size: s, offset: 0 }))
        }),
{
    let (s, k) = h.sized(size);
    lemma_sized(n, m, true, g, h, size);
    lemma_known(n, m, true, true, g, h, k, src);
    lemma_known(n, m, true, true, g, h, k, ptr);
    let op = Op::StorePointer { src, ptr, size: s, offset: 0 };
    assert forall|v: VirtualReg| #[trigger] mentions(OpV::Plain(op), v) implies v == src || v
        == ptr by {}
    lemma_op(n, m, true, g, k, op);
}

/// A value stays known, in a register or not.
proof fn lemma_src_known(n: u32, m: Marks, d: bool, g: Gen, h: Gen, k: Gen, s: SourceVal)
    requires
        src_known(n, m, true, g, h, s),
        keeps(n, m, d, h, k),
    ensures
        src_known(n, m, true, g, k, s),
{
    if let SourceVal::VReg(v) = s {
        lemma_known(n, m, true, d, g, h, k, v);
    }
}

proof fn lemma_assigned(
    n: u32,
    m: Marks,
    types: TypesV,
    g: Gen,
    h: Gen,
    var: AssignableV<TypeId>,
    src: SourceVal,
    size: ValSize,
)
    requires
        keeps(n, m, true, g, h),
        src_known(n, m, true, g, h, src),
    ensures
        keeps(n, m, true, g, codegen::assigned(types, h, var, src, size)),
{
    reveal(codegen::assigned);
    match var {
        AssignableV::Var(name) => {
            if h.mem.allocs.contains_key(name) {
                let (offset, typ) = h.mem.allocs[name];
                let (ptr, h1) = h.fresh(ValSize::Doubleword);
                lemma_fresh(n, m, true, g, h, ValSize::Doubleword);
                lemma_src_known(n, m, true, g, h, h1, src);
                let (v, h2) = h1.reg_of(src);
                lemma_reg_of(n, m, true, g, h1, src);
                lemma_known(n, m, true, true, g, h1, h2, ptr);
                let op = Op::Assign { src: SourceVal::StaticMem(offset), dest: ptr };
                assert forall|w: VirtualReg| #[trigger] mentions(OpV::Plain(op), w) implies w
                    == ptr by {}
                lemma_op(n, m, true, g, h2, op);
                lemma_stored(n, m, g, h2.op(op), v, ptr, codegen::size_of(types, typ));
            } else {
                let (dest, stack_offset, h1) = h.stack_var(name, size);
                lemma_stack_var(n, m, true, g, h, name, size);
                lemma_start(n, m, true, h);
                lemma_stack_var(n, m, true, h, h, name, size);
                lemma_src_known(n, m, true, g, h, h1, src);
                let op = Op::Assign { src, dest };
                assert forall|w: VirtualReg| #[trigger] mentions(OpV::Plain(op), w) implies w
                    == dest || src == SourceVal::VReg(w) by {}
                lemma_op(n, m, true, g, h1, op);
                let store = Op::Store { src: SourceVal::VReg(dest), stack_offset };
                assert forall|w: VirtualReg| #[trigger] mentions(OpV::Plain(store), w) implies w
                    == dest by {}
                lemma_op(n, m, true, g, h1.op(op), store);
            }
        },
        AssignableV::Ptr(name, val_size) => {
            let (ptr, h1) = h.var(name);
            lemma_var(n, m, true, g, h, name);
            lemma_src_known(n, m, true, g, h, h1, src);
            let (v, h2) = h1.reg_of(src);
            lemma_reg_of(n, m, true, g, h1, src);
            lemma_known(n, m, true, true, g, h1, h2, ptr);
            lemma_stored(n, m, g, h2, v, ptr, val_size);
        },
        AssignableV::Index { data, index, val_size } => {
            let (i, h1) = codegen::flat(types, h, index, None);
            lemma_flat(n, m, types, h, index, None);
            lemma_trans(n, m, true, true, g, h, h1);
            lemma_result(n, m, true, true, g, h, h1, i);
            lemma_src_known(n, m, true, g, h, h1, src);
            let (b, h2) = h1.reg_of(i);
            lemma_reg_of(n, m, true, g, h1, i);
            lemma_src_known(n, m, true, g, h1, h2, src);
            let (x, h3) = codegen::flat(types, h2, data, None);
            lemma_flat(n, m, types, h2, data, None);
            lemma_trans(n, m, true, true, g, h2, h3);
            lemma_result(n, m, true, true, g, h2, h3, x);
            lemma_src_known(n, m, true, g, h2, h3, src);
            lemma_known(n, m, true, true, g, h2, h3, b);
            let (a, h4) = h3.reg_of(x);
            lemma_reg_of(n, m, true, g, h3, x);
            lemma_src_known(n, m, true, g, h3, h4, src);
            lemma_known(n, m, true, true, g, h3, h4, b);
            let (ptr, h5) = h4.fresh(ValSize::Doubleword);
            lemma_fresh(n, m, true, g, h4, ValSize::Doubleword);
            lemma_src_known(n, m, true, g, h4, h5, src);
            lemma_known(n, m, true, true, g, h4, h5, a);
            lemma_known(n, m, true, true, g, h4, h5, b);
            let (v, h6) = h5.reg_of(src);
            lemma_reg_of(n, m, true, g, h5, src);
            lemma_known(n, m, true, true, g, h5, h6, a);
            lemma_known(n, m, true, true, g, h5, h6, b);
            lemma_known(n, m, true, true, g, h5, h6, ptr);
            let op = Op::Add { a, b, dest: ptr };
            assert forall|w: VirtualReg| #[trigger] mentions(OpV::Plain(op), w) implies w == a || w
                == b || w == ptr by {}
            lemma_op(n, m, true, g, h6, op);
            lemma_stored(n, m, g, h6.op(op), v, ptr, val_size);
        },
        AssignableV::MemberAccess(parent, member) => {
            let found = codegen::offset_of(
                types,
                codegen::parent_struct(types, parent.typ),
                member,
            );
            let h1 = h.checked(found is Some);
            lemma_checked(n, m, true, g, h, found is Some);
            lemma_src_known(n, m, true, g, h, h1, src);
            let (x, h2) = codegen::flat(types, h1, parent, None);
            lemma_flat(n, m, types, h1, parent, None);
            lemma_trans(n, m, true, true, g, h1, h2);
            lemma_result(n, m, true, true, g, h1, h2, x);
            lemma_src_known(n, m, true, g, h1, h2, src);
            let (ptr, h3) = h2.reg_of(x);
            lemma_reg_of(n, m, true, g, h2, x);
            lemma_src_known(n, m, true, g, h2, h3, src);
            let (v, h4) = h3.reg_of(src);
            lemma_reg_of(n, m, true, g, h3, src);
            lemma_known(n, m, true, true, g, h3, h4, ptr);
            let offset = match found {
                Some(o) => codegen::low_half(o),
                None => 0,
            };
            let op = Op::StorePointer { src: v, ptr, size, offset };
            assert forall|w: VirtualReg| #[trigger] mentions(OpV::Plain(op), w) implies w == v || w
                == ptr by {}
            lemma_op(n, m, true, g, h4, op);
        },
    }
}

proof fn lemma_built(n: u32, m: Marks, types: TypesV, g: Gen, stmt: StmtV<TypeId>)
    ensures
        keeps(n, m, true, g, codegen::built(types, g, stmt)),
    decreases stmt, 1nat,
{
    lemma_start(n, m, true, g);
    match stmt {
        StmtV::Declare { var, expr, .. } => lemma_built_declare(n, m, types, g, var, expr, stmt),
        StmtV::Assign { var, expr, .. } => {
            let (size, h) = g.sized(codegen::opt_size(types, expr.typ));
            lemma_sized(n, m, true, g, g, codegen::opt_size(types, expr.typ));
            let (src, h1) = codegen::flat(types, h, expr, None);
            lemma_flat(n, m, types, h, expr, None);
            lemma_trans(n, m, true, true, g, h, h1);
            lemma_result(n, m, true, true, g, h, h1, src);
            lemma_assigned(n, m, types, g, h1, var, src, size);
        },
        StmtV::Expr(expr) => lemma_flat(n, m, types, g, expr, None),
        StmtV::If { guard, body } => lemma_built_if(n, m, types, g, stmt),
        StmtV::Return(expr) => {
            let (src, h) = codegen::flat(types, g, expr, None);
            lemma_flat(n, m, types, g, expr, None);
            let (value, h1) = h.reg_of(src);
            lemma_reg_of(n, m, true, g, h, src);
            let (next, h2) = h1.fresh_label();
            lemma_fresh_label(n, m, h1);
            let t = Terminator::Return { value };
            lemma_commit_same(h2, t, next);
            reveal(keeps);
            if h2.ok && whole(n, m, g) {
                assert(targets_ok(m.with(next), h2, t));
                lemma_commit(n, m.with(next), h2, t, next);
                assert(m.with(next).placing(next).open =~= m.open);
                lemma_forget(n, m, m.with(next).placing(next), h2.committed(t, next));
            }
        },
        StmtV::WhileLoop { guard, body } => lemma_built_while(n, m, types, g, stmt),
    }
}

proof fn lemma_built_declare(
    n: u32,
    m: Marks,
    types: TypesV,
    g: Gen,
    var: Seq<char>,
    expr: ExprV<TypeId>,
    stmt: StmtV<TypeId>,
)
    requires
        stmt matches StmtV::Declare { var: v, expr: e, .. } && v == var && e == expr,
    ensures
        keeps(n, m, true, g, codegen::built(types, g, stmt)),
{
    lemma_start(n, m, true, g);
    let h = g.checked(!g.vars.contains_key(var));
    lemma_checked(n, m, true, g, g, !g.vars.contains_key(var));
    if expr.typ != Some(types::primitive_id(Primitive::Unit)) {
        let (size, h1) = h.sized(codegen::opt_size(types, expr.typ));
        lemma_sized(n, m, true, g, h, codegen::opt_size(types, expr.typ));
        let (dest, stack_offset, h2) = h1.stack_var(var, size);
        lemma_stack_var(n, m, true, g, h1, var, size);
        let d = opt_below(Some(dest), h2.vregs);
        let (src, h3) = codegen::flat(types, h2, expr, Some(dest));
        lemma_flat(n, m, types, h2, expr, Some(dest));
        assert(keeps(n, m, true, g, h3) && known(n, m, true, g, h3, dest) && src_known(
            n,
            m,
            true,
            g,
            h3,
            src,
        )) by {
            reveal(keeps);
        }
        let op = Op::Assign { src, dest };
        assert forall|w: VirtualReg| #[trigger] mentions(OpV::Plain(op), w) implies w == dest || src
            == SourceVal::VReg(w) by {}
        lemma_op(n, m, true, g, h3, op);
        lemma_declares(n, m, true, g, h3.op(op), dest);
        let store = Op::Store { src: SourceVal::VReg(dest), stack_offset };
        assert forall|w: VirtualReg| #[trigger] mentions(OpV::Plain(store), w) implies w
            == dest by {}
        lemma_op(n, m, true, g, h3, store);
        lemma_op(n, m, true, g, h3.op(op).declares(dest), store);
    }
}

proof fn lemma_built_if(n: u32, m: Marks, types: TypesV, g: Gen, stmt: StmtV<TypeId>)
    requires
        stmt is If,
    ensures
        keeps(n, m, true, g, codegen::built(types, g, stmt)),
    decreases stmt, 0nat,
{
    if let StmtV::If { guard, body } = stmt {
        let (src, h) = codegen::flat(types, g, guard, None);
        lemma_flat(n, m, types, g, guard, None);
        let (cond, h1) = h.reg_of(src);
        lemma_reg_of(n, m, true, g, h, src);
        let (if_true, h2) = h1.fresh_label();
        lemma_fresh_label(n, m, h1);
        let m2 = m.with(if_true);
        let (if_false, h3) = h2.fresh_label();
        lemma_fresh_label(n, m2, h2);
        let m3 = m2.with(if_false);
        let t = Terminator::BranchCond { cond, if_true, if_false };
        let h4 = h3.committed(t, if_true);
        lemma_commit_same(h3, t, if_true);
        let m4 = m3.placing(if_true);
        let h5 = codegen::built_all(types, h4, body, 0);
        lemma_built_all(n, m4, types, h4, body, 0);
        let u = Terminator::Branch { label: if_false };
        let h6 = h5.committed(u, if_false);
        lemma_commit_same(h5, u, if_false);
        let m6 = m4.placing(if_false);
        reveal(keeps);
        if h6.ok && whole(n, m, g) {
            lemma_target(n, m3, h3, if_true);
            lemma_target(n, m3, h3, if_false);
            assert(targets_ok(m3, h3, t));
            lemma_commit(n, m3, h3, t, if_true);
            lemma_target(n, m4, h5, if_false);
            assert(targets_ok(m4, h5, u));
            lemma_commit(n, m4, h5, u, if_false);
            assert(m6.open =~= m.open);
            lemma_forget(n, m, m6, h6);
        }
    }
}

proof fn lemma_built_while(n: u32, m: Marks, types: TypesV, g: Gen, stmt: StmtV<TypeId>)
    requires
        stmt is WhileLoop,
    ensures
        keeps(n, m, true, g, codegen::built(types, g, stmt)),
    decreases stmt, 0nat,
{
    if let StmtV::WhileLoop { guard, body } = stmt {
        let (test, h1) = g.fresh_label();
        lemma_fresh_label(n, m, g);
        let m1 = m.with(test);
        let (inside, h2) = h1.fresh_label();
        lemma_fresh_label(n, m1, h1);
        let m2 = m1.with(inside);
        let (end, h3) = h2.fresh_label();
        lemma_fresh_label(n, m2, h2);
        let m3 = m2.with(end);
        let t = Terminator::Branch { label: test };
        let h4 = h3.committed(t, test);
        lemma_commit_same(h3, t, test);
        let m4 = m3.placing(test);
        let (src, h5) = codegen::flat(types, h4, guard, None);
        lemma_flat(n, m4, types, h4, guard, None);
        let (cond, h6) = h5.reg_of(src);
        lemma_reg_of(n, m4, true, h4, h5, src);
        let u = Terminator::BranchCond { cond, if_true: inside, if_false: end };
        let h7 = h6.committed(u, inside);
        lemma_commit_same(h6, u, inside);
        let m7 = m4.placing(inside);
        let h8 = codegen::built_all(types, h7, body, 0);
        lemma_built_all(n, m7, types, h7, body, 0);
        let h9 = h8.committed(t, end);
        lemma_commit_same(h8, t, end);
        let m9 = m7.placing(end);
        reveal(keeps);
        if h9.ok && whole(n, m, g) {
            lemma_target(n, m3, h3, test);
            assert(targets_ok(m3, h3, t));
            lemma_commit(n, m3, h3, t, test);
            lemma_target(n, m4, h6, inside);
            lemma_target(n, m4, h6, end);
            assert(targets_ok(m4, h6, u));
            lemma_commit(n, m4, h6, u, inside);
            lemma_target(n, m7, h8, test);
            assert(targets_ok(m7, h8, t));
            lemma_commit(n, m7, h8, t, end);
            assert(m9.open =~= m.open);
            lemma_forget(n, m, m9, h9);
        }
    }
}

proof fn lemma_built_all(
    n: u32,
    m: Marks,
    types: TypesV,
    g: Gen,
    stmts: Seq<StmtV<TypeId>>,
    i: nat,
)
    ensures
        keeps(n, m, true, g, codegen::built_all(types, g, stmts, i)),
    decreases stmts, stmts.len() - i,
{
    lemma_start(n, m, true, g);
    if i < stmts.len() {
        let h = codegen::built(types, g, stmts[i as int]);
        lemma_built(n, m, types, g, stmts[i as int]);
        lemma_built_all(n, m, types, h, stmts, i + 1);
        lemma_trans(n, m, true, true, g, h, codegen::built_all(types, h, stmts, i + 1));
    }
}

/// Whether a block with the given label is among some blocks.
pub open spec fn has_label(blocks: Seq<BlockV>, l: Label) -> bool {
    exists|i: int| 0 <= i < blocks.len() && (#[trigger] blocks[i]).label == l
}

/// Whether a register is an argument or has a size.
pub open spec fn is_register(f: FunctionV, v: VirtualReg) -> bool {
    v.0 < f.args.len() || f.sizes.contains_key(v)
}

pub open spec fn block_registers(f: FunctionV, b: BlockV) -> bool {
    &&& forall|i: int, v: VirtualReg|
        0 <= i < b.ops.len() && #[trigger] mentions(b.ops[i], v) ==> is_register(f, v)
    &&& b.terminator.used() matches Some(v) ==> is_register(f, v)
}

/// Whether every way out of a block leads to a block of the function, or to its end.
pub open spec fn block_leads(f: FunctionV, b: BlockV) -> bool {
    forall|k: int|
        0 <= k < ir::successors_of(b.terminator).len() ==> {
            let l = #[trigger] ir::successors_of(b.terminator)[k];
            l == Label::End || has_label(f.body, l)
        }
}

/// A function that hangs together.
pub open spec fn function_ok(f: FunctionV) -> bool {
    &&& stack_ok(f.stack, f.stack_size)
    &&& forall|i: int| 0 <= i < f.body.len() ==> block_registers(f, #[trigger] f.body[i])
    &&& forall|i: int| 0 <= i < f.body.len() ==> block_apart(#[trigger] f.body[i])
    &&& forall|i: int| 0 <= i < f.body.len() ==> block_leads(f, #[trigger] f.body[i])
    &&& forall|i: int, j: int|
        0 <= i < j < f.body.len() ==> (#[trigger] f.body[i]).label != (#[trigger] f.body[j]).label
    &&& f.body.len() > 0 && f.body[0].label == Label::Entry
}

proof fn lemma_arg_vars(args: Seq<(Seq<char>, VirtualReg)>, count: nat, n: u32)
    requires
        count <= args.len(),
        forall|i: int| 0 <= i < args.len() ==> (#[trigger] args[i]).1.0 < n,
    ensures
        forall|name: Seq<char>| #[trigger]
            codegen::arg_vars(args, count).contains_key(name) ==> codegen::arg_vars(
                args,
                count,
            )[name].0 < n,
    decreases count,
{
    if count > 0 {
        lemma_arg_vars(args, (count - 1) as nat, n);
        assert(args[count - 1].1.0 < n);
        let before = codegen::arg_vars(args, (count - 1) as nat);
        let all = codegen::arg_vars(args, count);
        assert forall|name: Seq<char>| #[trigger] all.contains_key(name) implies all[name].0 < n by {
            if name != args[count - 1].0 {
                assert(before.contains_key(name));
            }
        }
    }
}

/// Nothing is wrong with a function of which nothing is built yet.
proof fn lemma_unbuilt(def: FnDefV<TypeId>, strings: Seq<Seq<char>>, mem: ir::MemoryV)
    requires
        def.args.len() <= u32::MAX,
    ensures
        whole(
            def.args.len() as u32,
            Marks::none(),
            codegen::unbuilt(codegen::numbered(def.args), strings, mem),
        ),
{
    reveal(whole);
    let args = codegen::numbered(def.args);
    let g = codegen::unbuilt(args, strings, mem);
    lemma_arg_vars(args, args.len(), def.args.len() as u32);
    assert(label_at(g, 0) == Label::Entry);
}

/// The last block of a function leads to its end, and nothing is left to be placed.
pub(crate) proof fn lemma_function_ok(
    types: TypesV,
    program: IrV,
    def: FnDefV<TypeId>,
    name: Seq<char>,
)
    ensures
        codegen::with_function(types, program, def, name) matches Some(p) ==> p.items.len()
            == program.items.len() + 1 && p.items.drop_last() == program.items && function_ok(
            p.items.last(),
        ),
{
    if let Some(p) = codegen::with_function(types, program, def, name) {
        let n = def.args.len() as u32;
        let none = Marks::none();
        let start = codegen::unbuilt(
            codegen::numbered(def.args),
            program.strings,
            program.mem,
        );
        lemma_unbuilt(def, program.strings, program.mem);
        let g = codegen::built_all(types, start, def.body, 0);
        lemma_built_all(n, none, types, start, def.body, 0);
        let t = Terminator::Branch { label: Label::End };
        lemma_commit_same(g, t, Label::End);
        let h = g.committed(t, Label::End);
        let f = p.items.last();
        assert(p.items.drop_last() =~= program.items);
        reveal(keeps);
        reveal(whole);
        reveal(Gen::committed);
        assert(whole(n, none, g));
        let last = g.blocks.len() as int;
        assert(f.body.len() == last + 1);
        assert forall|i: int| 0 <= i <= last implies (#[trigger] f.body[i]).label == label_at(
            g,
            i,
        ) by {}
        assert forall|i: int| 0 <= i < f.body.len() implies block_registers(
            f,
            #[trigger] f.body[i],
        ) by {
            let b = f.body[i];
            assert(b.ops == h.blocks[i].ops && b.terminator == h.blocks[i].terminator);
            if i < last {
                assert(block_below(g.blocks[i], g.vregs));
            }
            assert forall|k: int, v: VirtualReg|
                0 <= k < b.ops.len() && #[trigger] mentions(b.ops[k], v) implies is_register(
                f,
                v,
            ) by {
                assert(op_below(b.ops[k], g.vregs));
                assert(g.sizes.contains_key(v) <==> n <= v.0 < g.vregs);
            }
            if let Some(v) = b.terminator.used() {
                assert(g.sizes.contains_key(v) <==> n <= v.0 < g.vregs);
            }
        }
        assert forall|i: int| 0 <= i < f.body.len() implies block_apart(#[trigger] f.body[i]) by {
            assert(f.body[i] == codegen::settled(h.blocks)[i]);
            if i < last {
                assert(block_apart(g.blocks[i]));
            }
            assert forall|v: VirtualReg| #[trigger] f.body[i].args.contains(v) implies !f.body[i].decls.contains(
                v,
            ) by {
                law_settled(h.blocks, i, i, v);
                if i == last && g.decls.contains(v) {
                    assert(g.decls.to_set().contains(v));
                }
            }
        }
        assert forall|i: int| 0 <= i < f.body.len() implies block_leads(f, #[trigger] f.body[i]) by {
            let b = f.body[i];
            if i < last {
                assert(targets_ok(none, g, g.blocks[i].terminator));
            }
            assert forall|k: int| 0 <= k < ir::successors_of(b.terminator).len() implies ({
                let l = #[trigger] ir::successors_of(b.terminator)[k];
                l == Label::End || has_label(f.body, l)
            }) by {
                let l = ir::successors_of(b.terminator)[k];
                if i < last {
                    assert(is_target(none, g, l));
                    if is_placed(g, l) {
                        let j = choose|j: int|
                            0 <= j <= g.blocks.len() && #[trigger] label_at(g, j) == l;
                        assert(f.body[j].label == l);
                    }
                }
            }
        }
    }
}

pub open spec fn all_ok(items: Seq<FunctionV>) -> bool {
    forall|i: int| 0 <= i < items.len() ==> function_ok(#[trigger] items[i])
}

proof fn lemma_with_function(
    types: TypesV,
    program: IrV,
    def: FnDefV<TypeId>,
    name: Seq<char>,
)
    requires
        all_ok(program.items),
    ensures
        codegen::with_function(types, program, def, name) matches Some(p) ==> all_ok(p.items),
{
    lemma_function_ok(types, program, def, name);
    if let Some(p) = codegen::with_function(types, program, def, name) {
        assert forall|i: int| 0 <= i < p.items.len() implies function_ok(#[trigger] p.items[i]) by {
            if i < program.items.len() {
                assert(p.items.drop_last()[i] == program.items[i]);
            } else {
                assert(p.items[i] == p.items.last());
            }
        }
    }
}

proof fn lemma_with_methods(
    types: TypesV,
    program: IrV,
    struct_name: Seq<char>,
    defs: Seq<FnDefV<TypeId>>,
    i: nat,
)
    requires
        all_ok(program.items),
    ensures
        codegen::with_methods(types, program, struct_name, defs, i) matches Some(p) ==> all_ok(
            p.items,
        ),
    decreases defs.len() - i,
{
    if i < defs.len() {
        let def = defs[i as int];
        let name = text::path_of(struct_name, def.name);
        lemma_with_function(types, program, def, name);
        if let Some(p) = codegen::with_function(types, program, def, name) {
            lemma_with_methods(types, p, struct_name, defs, i + 1);
        }
    }
}

proof fn lemma_with_items(types: TypesV, program: IrV, items: Seq<ItemV<TypeId>>, i: nat)
    requires
        all_ok(program.items),
    ensures
        codegen::with_items(types, program, items, i) matches Some(p) ==> all_ok(p.items),
    decreases items.len() - i,
{
    if i < items.len() {
        match items[i as int] {
            ItemV::Function(def) => lemma_with_function(types, program, def, def.name),
            ItemV::Impl { struct_name, functions } => lemma_with_methods(
                types,
                program,
                struct_name,
                functions,
                0,
            ),
            _ => {},
        }
        if let Some(p) = codegen::with_item(types, program, items[i as int]) {
            lemma_with_items(types, p, items, i + 1);
        }
    }
}

/// Every function of a generated program hangs together. It begins with its entry block; no two of its
/// blocks share a label; every branch leads to one of its blocks or to its end; each register that it
/// uses is an argument or has a size; no block asks for a register that it declares; and its stack holds
/// the places of its variables, no two of which share one.
pub proof fn law_generated(tree: AstV<TypeId>, types: TypesV)
    ensures
        codegen::generated(tree, types) matches Some(program) ==> all_ok(program.items),
{
    lemma_with_items(
        types,
        IrV { items: Seq::empty(), strings: Seq::empty(), mem: ir::MemoryV::empty() },
        tree.items,
        0,
    );
}

/// A block asks its predecessors for each register that it uses and does not declare, and for each that
/// a block behind it asks for and it does not declare itself. It does not come to ask for one that it
/// declares.
pub proof fn law_settled(blocks: Seq<BlockV>, i: int, j: int, v: VirtualReg)
    requires
        0 <= i < blocks.len(),
        0 <= j < blocks.len(),
    ensures
        blocks[i].args.contains(v) ==> codegen::settled(blocks)[i].args.contains(v),
        codegen::follows(blocks, i, j) && codegen::settled(blocks)[j].args.contains(v)
            && !blocks[i].decls.contains(v) ==> codegen::settled(blocks)[i].args.contains(v),
        codegen::settled(blocks)[i].args.contains(v) && blocks[i].decls.contains(v)
            ==> blocks[i].args.contains(v),
{
    if codegen::settled(blocks)[i].args.contains(v) && blocks[i].decls.contains(v) {
        let way = choose|way: Seq<int>| #[trigger]
            codegen::is_way(blocks, v, way) && way[0] == i;
        if way.len() > 1 {
            assert(!blocks[way[0]].decls.contains(v));
        }
    }
    if blocks[i].args.contains(v) {
        assert(codegen::is_way(blocks, v, seq![i]));
        assert(seq![i][0] == i);
    }
    if codegen::follows(blocks, i, j) && codegen::settled(blocks)[j].args.contains(v)
        && !blocks[i].decls.contains(v) {
        let way = choose|way: Seq<int>| #[trigger]
            codegen::is_way(blocks, v, way) && way[0] == j;
        let longer = seq![i] + way;
        assert(longer.last() == way.last());
        assert forall|k: int| 0 <= k < longer.len() implies 0 <= #[trigger] longer[k]
            < blocks.len() by {
            if k > 0 {
                assert(longer[k] == way[k - 1]);
            }
        }
        assert forall|k: int| 0 <= k < longer.len() - 1 implies codegen::follows(
            blocks,
            #[trigger] longer[k],
            longer[k + 1],
        ) && !blocks[longer[k]].decls.contains(v) by {
            if k > 0 {
                assert(longer[k] == way[k - 1]);
                assert(longer[k + 1] == way[k]);
            } else {
                assert(longer[1] == way[0]);
            }
        }
        assert(codegen::is_way(blocks, v, longer));
        assert(longer[0] == i);
    }
}

} // verus!
