//! That instructions do the same with registers of the machine as with virtual ones, as long as each register
//! holds what the virtual one does.

use vstd::prelude::*;

use crate::ir::{ValSize, VirtualReg};
use crate::synthesize::arch::arm::instr;
use crate::synthesize::arch::arm::instr::{
    EitherOffset, EitherReg, Inst, InstV, PhysicalRegs,
};
use crate::synthesize::arch::arm::laws;
use crate::synthesize::arch::arm::laws::{Board, Cpu, Loc};
use crate::synthesize::arch::arm::reg;
use crate::synthesize::arch::arm::reg::{AllocV, MarkedV, Register};

verus! {

/// A register of the machine holds what a virtual one does, where there is one.
pub open spec fn holds(r: Option<Register>, v: Option<VirtualReg>, virt: Cpu, phys: Cpu) -> bool {
    match (r, v) {
        (Some(r), Some(v)) => phys.regs[Loc::Phys(r)] == virt.regs[Loc::Virt(v)],
        (None, None) => true,
        _ => false,
    }
}

/// Whether an instruction names a register of the machine outright.
pub open spec fn names(inst: Inst<VirtualReg>, r: Register) -> bool {
    match inst {
        Inst::AddImm { a, dest, .. } => a == EitherReg::Phys(r) || dest == EitherReg::Phys(r),
        Inst::SubImm { a, dest, .. } => a == EitherReg::Phys(r) || dest == EitherReg::Phys(r),
        Inst::Mov { src, dest } => src == EitherReg::Phys(r) || dest == EitherReg::Phys(r),
        Inst::Load { base, offset, .. } => base == EitherReg::Phys(r) || offset == EitherOffset::Reg(
            EitherReg::Phys(r),
        ),
        Inst::Store { base, offset, .. } => base == EitherReg::Phys(r) || offset
            == EitherOffset::Reg(EitherReg::Phys(r)),
        _ => false,
    }
}

/// Whether an instruction is one of those that operations become, calls apart.
pub open spec fn is_common(inst: Inst<VirtualReg>) -> bool {
    match inst {
        Inst::StorePair { .. }
        | Inst::LoadPair { .. }
        | Inst::BeginFnCall { .. }
        | Inst::EndFnCall
        | Inst::Ret { .. } => false,
        _ => true,
    }
}

/// The two machines stand alike: they have one memory, the same flags, and the same in every register that
/// the instruction names outright.
pub open spec fn alike(inst: Inst<VirtualReg>, virt: Cpu, phys: Cpu) -> bool {
    &&& virt.mem == phys.mem
    &&& virt.flags == phys.flags
    &&& virt.branch == phys.branch
    &&& forall|r: Register| #[trigger]
        names(inst, r) ==> phys.regs[Loc::Phys(r)] == virt.regs[Loc::Phys(r)]
}

/// What the instruction does with registers of the machine is what it does with virtual ones: memory, flags and
/// branch are the same, the register that is set gets the same value, and no other register changes.
pub open spec fn does_alike(
    inst: Inst<VirtualReg>,
    dest: Option<Register>,
    virt: Cpu,
    phys: Cpu,
    v: Cpu,
    p: Cpu,
) -> bool {
    &&& v.mem == p.mem
    &&& v.flags == p.flags
    &&& v.branch == p.branch
    &&& match instr::operands(InstV::Plain(inst)).3 {
        Some(d) => p.regs == phys.regs.insert(
            Loc::Phys(dest->0),
            v.regs[Loc::Virt(d)],
        ) && v.regs == virt.regs.insert(Loc::Virt(d), v.regs[Loc::Virt(d)]),
        None => {
            &&& forall|r: Register| #[trigger]
                names(inst, r) ==> p.regs[Loc::Phys(r)] == v.regs[Loc::Phys(r)]
            &&& forall|r: Register|
                !names(inst, r) ==> #[trigger] p.regs[Loc::Phys(r)] == phys.regs[Loc::Phys(r)]
            &&& forall|u: VirtualReg| #[trigger] v.regs[Loc::Virt(u)] == virt.regs[Loc::Virt(u)]
        },
    }
}

proof fn lemma_placed_numeric(
    b: Board,
    inst: Inst<VirtualReg>,
    regs: PhysicalRegs,
    virt: Cpu,
    phys: Cpu,
)
    requires
        match inst {
            Inst::Add { .. }
            | Inst::Sub { .. }
            | Inst::Mul { .. }
            | Inst::Div { .. }
            | Inst::Neg { .. }
            | Inst::Adrp { .. }
            | Inst::Movz { .. }
            | Inst::Movk { .. }
            | Inst::Cset { .. } => true,
            _ => false,
        },
        alike(inst, virt, phys),
        holds(regs.0, instr::operands(InstV::Plain(inst)).0, virt, phys),
        holds(regs.1, instr::operands(InstV::Plain(inst)).1, virt, phys),
        holds(regs.2, instr::operands(InstV::Plain(inst)).2, virt, phys),
        instr::operands(InstV::Plain(inst)).3 is Some == regs.3 is Some,
        inst matches Inst::Movk { dest, .. } ==> holds(regs.3, Some(dest), virt, phys),
    ensures
        does_alike(
            inst,
            regs.3,
            virt,
            phys,
            laws::effect_of(b, laws::virt(), InstV::Plain(inst), virt),
            laws::effect_of(b, laws::phys(), instr::placed(InstV::Plain(inst), regs), phys),
        ),
{
}

proof fn lemma_placed_other(
    b: Board,
    inst: Inst<VirtualReg>,
    regs: PhysicalRegs,
    virt: Cpu,
    phys: Cpu,
)
    requires
        match inst {
            Inst::Add { .. }
            | Inst::Sub { .. }
            | Inst::Mul { .. }
            | Inst::Div { .. }
            | Inst::Neg { .. }
            | Inst::Adrp { .. }
            | Inst::Movz { .. }
            | Inst::Movk { .. }
            | Inst::Cset { .. }
            | Inst::AddImm { .. }
            | Inst::SubImm { .. }
            | Inst::Mov { .. }
            | Inst::Load { .. }
            | Inst::Store { .. } => false,
            _ => is_common(inst),
        },
        alike(inst, virt, phys),
        holds(regs.0, instr::operands(InstV::Plain(inst)).0, virt, phys),
        holds(regs.1, instr::operands(InstV::Plain(inst)).1, virt, phys),
        holds(regs.2, instr::operands(InstV::Plain(inst)).2, virt, phys),
        instr::operands(InstV::Plain(inst)).3 is Some == regs.3 is Some,
    ensures
        does_alike(
            inst,
            regs.3,
            virt,
            phys,
            laws::effect_of(b, laws::virt(), InstV::Plain(inst), virt),
            laws::effect_of(b, laws::phys(), instr::placed(InstV::Plain(inst), regs), phys),
        ),
{
}

proof fn lemma_placed_either(
    b: Board,
    inst: Inst<VirtualReg>,
    regs: PhysicalRegs,
    virt: Cpu,
    phys: Cpu,
)
    requires
        inst is AddImm || inst is SubImm || inst is Mov,
        alike(inst, virt, phys),
        holds(regs.0, instr::operands(InstV::Plain(inst)).0, virt, phys),
        holds(regs.1, instr::operands(InstV::Plain(inst)).1, virt, phys),
        holds(regs.2, instr::operands(InstV::Plain(inst)).2, virt, phys),
        instr::operands(InstV::Plain(inst)).3 is Some == regs.3 is Some,
    ensures
        does_alike(
            inst,
            regs.3,
            virt,
            phys,
            laws::effect_of(b, laws::virt(), InstV::Plain(inst), virt),
            laws::effect_of(b, laws::phys(), instr::placed(InstV::Plain(inst), regs), phys),
        ),
{
    let a = match inst {
        Inst::AddImm { a, .. } => a,
        Inst::SubImm { a, .. } => a,
        Inst::Mov { src, .. } => src,
        _ => EitherReg::Phys(Register::SP),
    };
    if let EitherReg::Phys(r) = a {
        assert(names(inst, r));
    }
    let d = match inst {
        Inst::AddImm { dest, .. } => dest,
        Inst::SubImm { dest, .. } => dest,
        Inst::Mov { dest, .. } => dest,
        _ => EitherReg::Phys(Register::SP),
    };
    if let EitherReg::Phys(r) = d {
        assert(names(inst, r));
    }
}

proof fn lemma_placed_memory(
    b: Board,
    inst: Inst<VirtualReg>,
    regs: PhysicalRegs,
    virt: Cpu,
    phys: Cpu,
)
    requires
        inst is Load || inst is Store,
        alike(inst, virt, phys),
        holds(regs.0, instr::operands(InstV::Plain(inst)).0, virt, phys),
        holds(regs.1, instr::operands(InstV::Plain(inst)).1, virt, phys),
        holds(regs.2, instr::operands(InstV::Plain(inst)).2, virt, phys),
        instr::operands(InstV::Plain(inst)).3 is Some == regs.3 is Some,
    ensures
        does_alike(
            inst,
            regs.3,
            virt,
            phys,
            laws::effect_of(b, laws::virt(), InstV::Plain(inst), virt),
            laws::effect_of(b, laws::phys(), instr::placed(InstV::Plain(inst), regs), phys),
        ),
{
    match inst {
        Inst::Load { base, offset, .. } | Inst::Store { base, offset, .. } => {
            if let EitherReg::Phys(r) = base {
                assert(names(inst, r));
            }
            if let EitherOffset::Reg(EitherReg::Phys(r)) = offset {
                assert(names(inst, r));
            }
        },
        _ => {},
    }
}

/// An instruction does with registers of the machine what it does with virtual ones, if they hold the same.
pub proof fn law_placed(
    b: Board,
    inst: Inst<VirtualReg>,
    regs: PhysicalRegs,
    virt: Cpu,
    phys: Cpu,
)
    requires
        is_common(inst),
        alike(inst, virt, phys),
        holds(regs.0, instr::operands(InstV::Plain(inst)).0, virt, phys),
        holds(regs.1, instr::operands(InstV::Plain(inst)).1, virt, phys),
        holds(regs.2, instr::operands(InstV::Plain(inst)).2, virt, phys),
        instr::operands(InstV::Plain(inst)).3 is Some == regs.3 is Some,
        inst matches Inst::Movk { dest, .. } ==> holds(regs.3, Some(dest), virt, phys),
    ensures
        does_alike(
            inst,
            regs.3,
            virt,
            phys,
            laws::effect_of(b, laws::virt(), InstV::Plain(inst), virt),
            laws::effect_of(b, laws::phys(), instr::placed(InstV::Plain(inst), regs), phys),
        ),
{
    match inst {
        Inst::Add { .. }
        | Inst::Sub { .. }
        | Inst::Mul { .. }
        | Inst::Div { .. }
        | Inst::Neg { .. }
        | Inst::Adrp { .. }
        | Inst::Movz { .. }
        | Inst::Movk { .. }
        | Inst::Cset { .. } => lemma_placed_numeric(b, inst, regs, virt, phys),
        Inst::AddImm { .. } | Inst::SubImm { .. } | Inst::Mov { .. } => lemma_placed_either(
            b,
            inst,
            regs,
            virt,
            phys,
        ),
        Inst::Load { .. } | Inst::Store { .. } => lemma_placed_memory(b, inst, regs, virt, phys),
        _ => lemma_placed_other(b, inst, regs, virt, phys),
    }
}

/// Every register that holds a virtual one holds its value.
pub open spec fn carries(regs: Seq<(VirtualReg, Register)>, virt: Cpu, phys: Cpu) -> bool {
    forall|v: VirtualReg| #[trigger]
        reg::holder(regs, v) matches Some(r) ==> phys.regs[Loc::Phys(r)] == virt.regs[Loc::Virt(v)]
}

/// Whether no two virtual registers are held by one register.
pub open spec fn apart(regs: Seq<(VirtualReg, Register)>) -> bool {
    forall|u: VirtualReg, v: VirtualReg|
        #![trigger reg::holder(regs, u), reg::holder(regs, v)]
        u != v && reg::holder(regs, u) is Some ==> reg::holder(regs, u) != reg::holder(regs, v)
}

proof fn lemma_apart(st: AllocV)
    requires
        st.sound(),
    ensures
        apart(st.regs),
{
    assert forall|u: VirtualReg, v: VirtualReg|
        #![trigger reg::holder(st.regs, u), reg::holder(st.regs, v)]
        u != v && reg::holder(st.regs, u) is Some implies reg::holder(st.regs, u) != reg::holder(
        st.regs,
        v,
    ) by {
        reg::lemma_holder(st.regs, u);
        reg::lemma_holder(st.regs, v);
        if reg::holder(st.regs, u) == reg::holder(st.regs, v) {
            let r = reg::holder(st.regs, u)->0;
            let i = choose|i: int| 0 <= i < st.regs.len() && #[trigger] st.regs[i] == (u, r);
            let j = choose|j: int| 0 <= j < st.regs.len() && #[trigger] st.regs[j] == (v, r);
            assert(i != j);
            if i < j {
                assert(st.regs[i].1 != st.regs[j].1);
            } else {
                assert(st.regs[j].1 != st.regs[i].1);
            }
        }
    }
}

/// Every register that holds a virtual one in `b` held it in `a`.
pub open spec fn fewer(a: Seq<(VirtualReg, Register)>, b: Seq<(VirtualReg, Register)>) -> bool {
    forall|v: VirtualReg| #[trigger]
        reg::holder(b, v) is Some ==> reg::holder(b, v) == reg::holder(a, v)
}

/// What is read is in the register that holds it, and reading takes no register.
proof fn lemma_read(
    st: AllocV,
    vreg: Option<VirtualReg>,
    insts: Seq<MarkedV<VirtualReg>>,
    i: int,
    sizes: Map<VirtualReg, ValSize>,
)
    requires
        st.sound(),
        st.stack.map.dom() == Set::<u32>::empty(),
    ensures
        st.read(vreg, insts, i, sizes) matches Some((next, r)) ==> {
            &&& r == match vreg {
                Some(v) => reg::holder(st.regs, v),
                None => None,
            }
            &&& next.out == st.out
            &&& next.stack == st.stack
            &&& next.sound()
            &&& fewer(st.regs, next.regs)
            &&& r is Some == vreg is Some
        },
{
    reg::lemma_read_sound(st, vreg, insts, i, sizes);
    if let Some(v) = vreg {
        assert(!st.stack.map.contains_key(v.0)) by {
            assert(!st.stack.map.dom().contains(v.0));
        }
        if let Some(r) = reg::holder(st.regs, v) {
            assert forall|u: VirtualReg| #[trigger]
                reg::holder(reg::without_holder(st.regs, v), u) is Some implies reg::holder(
                reg::without_holder(st.regs, v),
                u,
            ) == reg::holder(st.regs, u) by {
                reg::law_holders(st.regs, v, r, u);
            }
        }
    }
}

/// While nothing lies on the stack, an instruction gets the registers that hold what it reads, and behind it
/// every register that holds a virtual one holds its value.
pub proof fn law_step_carries(
    b: Board,
    st: AllocV,
    insts: Seq<MarkedV<VirtualReg>>,
    i: int,
    sizes: Map<VirtualReg, ValSize>,
    virt: Cpu,
    phys: Cpu,
)
    requires
        0 <= i < insts.len(),
        st.sound(),
        st.stack.map.dom() == Set::<u32>::empty(),
        st.stack.tmp_offset.0 == 0,
        insts[i].0 matches InstV::Plain(inst) && is_common(inst) && alike(inst, virt, phys)
            && is_settled(st, inst) && st.step(insts, i, sizes) is Some,
        carries(st.regs, virt, phys),
    ensures
        ({
            let inst = insts[i].0->Plain_0;
            let next = st.step(insts, i, sizes)->0;
            let placed = next.out.last().0;
            let v = laws::effect_of(b, laws::virt(), insts[i].0, virt);
            let p = laws::effect_of(b, laws::phys(), placed, phys);
            &&& next.out.drop_last() == st.out
            &&& next.out.last().1 == insts[i].1
            &&& next.sound()
            &&& next.stack.map.dom() == Set::<u32>::empty()
            &&& v.mem == p.mem && v.flags == p.flags && v.branch == p.branch
            &&& carries(next.regs, v, p)
        }),
{
    let inst = insts[i].0->Plain_0;
    let w = insts[i].0;
    let next = st.step(insts, i, sizes)->0;
    lemma_grown(st, inst);
    let ops = instr::operands(w);
    let (s0, dest) = st.set(ops.3)->0;
    reg::lemma_step_sound(st, insts, i, sizes);
    lemma_set(st, ops.3);
    let (s1, first) = s0.read(ops.0, insts, i, sizes)->0;
    let (s2, second) = s1.read(ops.1, insts, i, sizes)->0;
    let (s3, third) = s2.read(ops.2, insts, i, sizes)->0;
    lemma_read(s0, ops.0, insts, i, sizes);
    lemma_read(s1, ops.1, insts, i, sizes);
    lemma_read(s2, ops.2, insts, i, sizes);
    let regs = (first, second, third, dest);
    assert(next.out == st.out.push((instr::placed(w, regs), insts[i].1)));
    assert(next.regs == s3.regs);
    assert(holds(first, ops.0, virt, phys)) by {
        lemma_held(st, s0, s0, inst, ops.0, virt, phys);
    }
    assert(holds(second, ops.1, virt, phys)) by {
        lemma_held(st, s0, s1, inst, ops.1, virt, phys);
    }
    assert(holds(third, ops.2, virt, phys)) by {
        lemma_held(st, s0, s2, inst, ops.2, virt, phys);
    }
    law_placed(b, inst, regs, virt, phys);
    let v = laws::effect_of(b, laws::virt(), w, virt);
    let p = laws::effect_of(b, laws::phys(), instr::placed(w, regs), phys);
    lemma_apart(s0);
    assert(next.out.drop_last() =~= st.out);
    assert forall|u: VirtualReg| #[trigger] reg::holder(next.regs, u) is Some implies p.regs[Loc::Phys(
        reg::holder(next.regs, u)->0,
    )] == v.regs[Loc::Virt(u)] by {
        assert(reg::holder(s2.regs, u) == reg::holder(next.regs, u));
        assert(reg::holder(s1.regs, u) == reg::holder(s2.regs, u));
        assert(reg::holder(s0.regs, u) == reg::holder(s1.regs, u));
        let r = reg::holder(s0.regs, u)->0;
        if let Some(d) = ops.3 {
            assert(reg::holder(s0.regs, d) == dest);
            if u != d {
                assert(reg::holder(s0.regs, u) != reg::holder(s0.regs, d));
                assert(reg::holder(st.regs, u) == Some(r));
            }
        } else {
            assert(reg::holder(st.regs, u) == Some(r));
            assert(!names(inst, r));
        }
    }
}

/// What an instruction reads is held by registers already, and it sets no register outright that holds
/// something.
pub open spec fn is_settled(st: AllocV, inst: Inst<VirtualReg>) -> bool {
    let ops = instr::operands(InstV::Plain(inst));
    &&& ops.0 matches Some(v) ==> reg::holder(st.regs, v) is Some
    &&& ops.1 matches Some(v) ==> reg::holder(st.regs, v) is Some
    &&& ops.2 matches Some(v) ==> reg::holder(st.regs, v) is Some
    &&& inst matches Inst::Movk { dest, .. } ==> reg::holder(st.regs, dest) is Some
    &&& ops.3 is None ==> forall|v: VirtualReg| #[trigger]
        reg::holder(st.regs, v) matches Some(r) ==> !names(inst, r)
}

/// Outside of a call the places of an instruction are what they are.
proof fn lemma_grown(st: AllocV, inst: Inst<VirtualReg>)
    requires
        st.stack.tmp_offset.0 == 0,
    ensures
        st.grown(InstV::Plain(inst)) matches Some(v) ==> v == InstV::Plain(inst),
{
}

/// What is set gets the register that holds it, or one that holds nothing.
proof fn lemma_set(st: AllocV, vreg: Option<VirtualReg>)
    requires
        st.sound(),
    ensures
        st.set(vreg) matches Some((next, r)) ==> {
            &&& next.sound()
            &&& next.out == st.out
            &&& next.stack == st.stack
            &&& r is Some == vreg is Some
            &&& vreg matches Some(d) ==> r == reg::holder(next.regs, d)
            &&& forall|u: VirtualReg|
                vreg != Some(u) ==> #[trigger] reg::holder(next.regs, u) == reg::holder(st.regs, u)
            &&& forall|u: VirtualReg| #[trigger]
                reg::holder(st.regs, u) is Some ==> reg::holder(next.regs, u) == reg::holder(
                    st.regs,
                    u,
                )
        },
{
    if let Some(d) = vreg {
        if reg::holder(st.regs, d) is None {
            reg::lemma_take_sound(st, d);
            if let Some((next, r)) = st.take(d) {
                assert forall|u: VirtualReg| true implies #[trigger] reg::holder(next.regs, u) == if u
                    == d {
                    Some(r)
                } else {
                    reg::holder(st.regs, u)
                } by {
                    reg::law_holders(st.regs, d, r, u);
                }
            }
        }
    }
}

/// What an instruction reads is in the register that was chosen for it.
proof fn lemma_held(
    st: AllocV,
    s0: AllocV,
    s: AllocV,
    inst: Inst<VirtualReg>,
    vreg: Option<VirtualReg>,
    virt: Cpu,
    phys: Cpu,
)
    requires
        carries(st.regs, virt, phys),
        vreg matches Some(v) ==> reg::holder(st.regs, v) is Some && reg::holder(s.regs, v) is Some,
        forall|u: VirtualReg| #[trigger]
            reg::holder(st.regs, u) is Some ==> reg::holder(s0.regs, u) == reg::holder(st.regs, u),
        fewer(s0.regs, s.regs),
    ensures
        holds(
            match vreg {
                Some(v) => reg::holder(s.regs, v),
                None => None,
            },
            vreg,
            virt,
            phys,
        ),
{
    if let Some(v) = vreg {
        assert(reg::holder(s.regs, v) == reg::holder(s0.regs, v));
        assert(reg::holder(s0.regs, v) == reg::holder(st.regs, v));
    }
}

} // verus!
