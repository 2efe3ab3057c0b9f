//! That the instructions of a block do what its operations mean, one after the other, and lead where its end
//! says.

use vstd::prelude::*;

use crate::ir::meaning;
use crate::ir::meaning::{Ground, Machine, Memory, World};
use crate::ir::{BlockV, Label, OpV, Terminator, VirtualReg};
use crate::synthesize::arch::arm;
use crate::synthesize::arch::arm::calls;
use crate::synthesize::arch::arm::instr::InstV;
use crate::synthesize::arch::arm::laws;
use crate::synthesize::arch::arm::laws::{Board, Cpu, Loc};
use crate::synthesize::arch::arm::reg::{MarkedV, Register};
use crate::synthesize::arch::arm::Surroundings;

verus! {

/// Functions that are called with their arguments below the stack pointer do what the machine says.
pub open spec fn calls_stand(b: Board, k: Machine, sp: u64) -> bool {
    forall|mem: Memory, function: Seq<char>, values: Seq<u64>|
        {
            let low = meaning::wrapped(sp - arm::arg_stack(values.len()));
            #[trigger] (k.call)(mem, function, values) == (b.call)(
                function,
                calls::with_args(b, mem, low, values, values.len()),
                low,
            )
        }
}

/// An operation that can be run in instructions.
pub open spec fn is_regular(op: OpV, c: Ground) -> bool {
    op matches OpV::Plain(op) ==> laws::is_regular(op, c)
}

/// What is left of the machine behind an operation: it holds registers and memory, and the stack and frame
/// pointers are where they were.
pub open spec fn went_on(cpu: Cpu, end: Cpu, w: World) -> bool {
    &&& laws::holds_world(end, w)
    &&& end.regs[Loc::Phys(Register::SP)] == cpu.regs[Loc::Phys(Register::SP)]
    &&& end.regs[Loc::Phys(Register::FP)] == cpu.regs[Loc::Phys(Register::FP)]
}

proof fn lemma_op(
    b: Board,
    k: Machine,
    c: Ground,
    around: Surroundings,
    op: OpV,
    cpu: Cpu,
    w: World,
)
    requires
        laws::stands_for(b, cpu, k, c, around),
        calls_stand(b, k, cpu.regs[Loc::Phys(Register::SP)]),
        laws::holds_world(cpu, w),
        is_regular(op, c),
    ensures
        arm::op_code(op, around) matches Some(code) ==> went_on(
            cpu,
            laws::run(b, laws::virt(), code, 0, cpu),
            meaning::done(k, c, op, w),
        ),
{
    match op {
        OpV::Plain(op) => laws::law_operation(b, k, c, around, op, cpu, w),
        OpV::Call { function, args, dest } => {
            let values = args.map_values(|v: VirtualReg| w.regs[v]);
            assert forall|i: int| 0 <= i < args.len() implies cpu.regs[Loc::Virt(
                #[trigger] args[i],
            )] == values[i] by {}
            calls::law_call(b, function, args, dest, values, cpu);
            if let Some(code) = arm::op_code(op, around) {
                let end = laws::run(b, laws::virt(), code, 0, cpu);
                let (value, mem) = (k.call)(w.mem, function, values);
                let after = meaning::done(k, c, op, w);
                assert forall|v: VirtualReg| #[trigger] end.regs[Loc::Virt(v)] == after.regs[v] by {
                    if dest != Some(v) {
                        assert(end.regs[Loc::Virt(v)] == cpu.regs[Loc::Virt(v)]);
                    }
                }
            }
        },
    }
}

/// What the operations from `i` on do, one after the other.
pub open spec fn all_done(k: Machine, c: Ground, ops: Seq<OpV>, i: nat, w: World) -> World
    decreases ops.len() - i,
{
    if i >= ops.len() {
        w
    } else {
        all_done(k, c, ops, i + 1, meaning::done(k, c, ops[i as int], w))
    }
}

/// Instructions without what is known of their places.
pub open spec fn bare(code: Seq<MarkedV<VirtualReg>>) -> Seq<InstV<VirtualReg>> {
    code.map_values(|m: MarkedV<VirtualReg>| m.0)
}

/// The instructions that were added behind others.
pub open spec fn added(
    code: Seq<MarkedV<VirtualReg>>,
    before: Seq<MarkedV<VirtualReg>>,
) -> Seq<InstV<VirtualReg>> {
    bare(code).skip(before.len() as int)
}

proof fn lemma_ops(
    b: Board,
    k: Machine,
    c: Ground,
    around: Surroundings,
    ops: Seq<OpV>,
    i: nat,
    done: Seq<MarkedV<VirtualReg>>,
    cpu: Cpu,
    w: World,
)
    requires
        i <= ops.len(),
        laws::stands_for(b, cpu, k, c, around),
        calls_stand(b, k, cpu.regs[Loc::Phys(Register::SP)]),
        laws::holds_world(cpu, w),
        forall|j: int| 0 <= j < ops.len() ==> is_regular(#[trigger] ops[j], c),
    ensures
        arm::ops_code(ops, i as int, around, done) matches Some(code) ==> {
            &&& done.len() <= code.len() && code.take(done.len() as int) == done
            &&& went_on(
                cpu,
                laws::run(b, laws::virt(), added(code, done), 0, cpu),
                all_done(k, c, ops, i, w),
            )
        },
    decreases ops.len() - i,
{
    if i < ops.len() {
        let op = ops[i as int];
        if let Some(one) = arm::op_code(op, around) {
            let done1 = done + arm::unmarked(one);
            lemma_op(b, k, c, around, op, cpu, w);
            let next = laws::run(b, laws::virt(), one, 0, cpu);
            let v = meaning::done(k, c, op, w);
            lemma_ops(b, k, c, around, ops, i + 1, done1, next, v);
            if let Some(code) = arm::ops_code(ops, i as int + 1, around, done1) {
                let rest = added(code, done1);
                assert(code.take(done.len() as int) =~= code.take(done1.len() as int).take(
                    done.len() as int,
                ));
                assert(done1.take(done.len() as int) =~= done);
                assert(added(code, done) =~= one + rest) by {
                    assert forall|j: int| 0 <= j < one.len() implies added(code, done)[j] == one[j] by {
                        assert(code[done.len() + j] == code.take(done1.len() as int)[done.len() + j]);
                        assert(done1[done.len() + j] == arm::unmarked(one)[j]);
                    }
                }
                calls::law_run_in_parts(b, laws::virt(), one, rest, cpu);
            }
        }
    } else {
        assert(done.take(done.len() as int) =~= done);
        assert(added(done, done) =~= Seq::<InstV<VirtualReg>>::empty());
    }
}

/// Running the instructions of a block does what its operations mean and then leads to the label that the
/// end of the block asks for; the instruction with which the block begins is marked with its label.
pub proof fn law_block(
    b: Board,
    k: Machine,
    c: Ground,
    around: Surroundings,
    block: BlockV,
    done: Seq<MarkedV<VirtualReg>>,
    cpu: Cpu,
    w: World,
)
    requires
        laws::stands_for(b, cpu, k, c, around),
        calls_stand(b, k, cpu.regs[Loc::Phys(Register::SP)]),
        laws::holds_world(cpu, w),
        forall|j: int| 0 <= j < block.ops.len() ==> is_regular(#[trigger] block.ops[j], c),
    ensures
        arm::block_code(block, around, done) matches Some(code) ==> {
            let end = laws::run(b, laws::virt(), added(code, done), 0, cpu);
            let v = all_done(k, c, block.ops, 0, w);
            &&& done.len() < code.len() && code.take(done.len() as int) == done
            &&& code[done.len() as int].1 == arm::InstMarker::FirstInBB(block.label)
            &&& end.mem == v.mem
            &&& forall|r: VirtualReg| #[trigger] end.regs[Loc::Virt(r)] == v.regs[r]
            &&& match block.terminator {
                Terminator::Branch { label } => end.branch == Some(label),
                Terminator::BranchCond { cond, if_true, if_false } => end.branch == Some(
                    if v.regs[cond] != 0 {
                        if_true
                    } else {
                        if_false
                    },
                ),
                Terminator::Return { value } => end.branch == Some(Label::End)
                    && end.regs[Loc::Phys(Register::X0)] == v.regs[value],
            }
        },
{
    lemma_ops(b, k, c, around, block.ops, 0, done, cpu, w);
    if let Some(body) = arm::ops_code(block.ops, 0, around, done) {
        let at = laws::virt();
        let last = arm::plain_insts(arm::terminator_code(block.terminator));
        let code = arm::block_code(block, around, done)->0;
        let first = added(body, done);
        let mid = laws::run(b, at, first, 0, cpu);
        let v = all_done(k, c, block.ops, 0, w);
        assert(last.len() > 0);
        assert(added(code, done) =~= first + last);
        assert(code.take(done.len() as int) =~= body.take(done.len() as int));
        calls::law_run_in_parts(b, at, first, last, cpu);
        laws::law_terminator(b, block.terminator, mid);
        let end = laws::run(b, at, last, 0, mid);
        assert forall|r: VirtualReg| #[trigger] end.regs[Loc::Virt(r)] == v.regs[r] by {
            assert(mid.regs[Loc::Virt(r)] == v.regs[r]);
        }
        match block.terminator {
            Terminator::BranchCond { cond, .. } => {
                assert(mid.regs[Loc::Virt(cond)] == v.regs[cond]);
            },
            Terminator::Return { value } => {
                assert(mid.regs[Loc::Virt(value)] == v.regs[value]);
            },
            _ => {},
        }
    }
}

} // verus!
