//! What instructions do to a machine, and that the instructions of an operation do what it means.

use vstd::prelude::*;

use crate::ir;
use crate::ir::meaning;
use crate::ir::meaning::{Ground, Machine, Memory, World};
use crate::ir::{Condition, Label, Operation, SourceVal, Terminator, ValSize, VirtualReg};
use crate::synthesize::arch::arm;
use crate::synthesize::arch::arm::instr;
use crate::synthesize::arch::arm::instr::{
    AddImmVal, BranchOffset, EitherOffset, EitherReg, ImmShift16, Inst, InstV, PageAddr,
};
use crate::synthesize::arch::arm::reg::Register;
use crate::synthesize::arch::arm::Surroundings;

verus! {

/// A register of either sort.
pub enum Loc {
    Virt(VirtualReg),
    Phys(Register),
}

pub open spec fn either(r: EitherReg) -> Loc {
    match r {
        EitherReg::Virt(v) => Loc::Virt(v),
        EitherReg::Phys(r) => Loc::Phys(r),
    }
}

/// What a comparison leaves: whether the difference is negative, whether it is zero, whether nothing was
/// borrowed, and whether the difference of the numbers with signs does not fit.
pub struct Flags {
    pub negative: bool,
    pub zero: bool,
    pub carry: bool,
    pub overflow: bool,
}

pub open spec fn flags_of(a: u64, b: u64) -> Flags {
    let d = meaning::difference(a, b);
    Flags {
        negative: meaning::signed(d) < 0,
        zero: d == 0,
        carry: a >= b,
        overflow: meaning::signed(a) - meaning::signed(b) != meaning::signed(d),
    }
}

/// Whether a condition holds, by the four bits that encode it. The lowest bit asks for the opposite.
pub open spec fn flags_hold(bits: int, f: Flags) -> bool {
    let plain = if bits / 2 == 0 {
        f.zero
    } else if bits / 2 == 1 {
        f.carry
    } else if bits / 2 == 2 {
        f.negative
    } else if bits / 2 == 3 {
        f.overflow
    } else if bits / 2 == 4 {
        f.carry && !f.zero
    } else if bits / 2 == 5 {
        f.negative == f.overflow
    } else if bits / 2 == 6 {
        f.negative == f.overflow && !f.zero
    } else {
        true
    };
    if bits % 2 == 1 && bits != 15 {
        !plain
    } else {
        plain
    }
}

/// What the flags say of a condition behind a comparison is whether it holds between the two numbers.
pub proof fn law_flags(c: Condition, a: u64, b: u64)
    requires
        c != Condition::Never,
    ensures
        flags_hold(instr::cond_bits(c) as int, flags_of(a, b)) == meaning::holds(c, a, b),
{
    reveal(meaning::wrapped);
    reveal(meaning::signed);
}

/// The machine while it runs the code of a function. A branch ends a run, at a label.
pub struct Cpu {
    pub regs: Map<Loc, u64>,
    pub flags: Flags,
    pub mem: Memory,
    pub branch: Option<Label>,
}

/// Where code is loaded: what is at an address, where string literals and static memory lie, and what a
/// function that is called gives back and leaves, by its name, memory and the stack.
pub struct Board {
    pub load: spec_fn(Memory, u64, ValSize) -> u64,
    pub store: spec_fn(Memory, u64, ValSize, u64) -> Memory,
    pub literal: spec_fn(usize) -> u64,
    pub fixed: spec_fn(u64) -> u64,
    pub call: spec_fn(Seq<char>, Memory, u64) -> (u64, Memory),
}

pub open spec fn shift_of(s: ImmShift16) -> int {
    match s {
        ImmShift16::L0 => 1,
        ImmShift16::L16 => 0x1_0000,
        ImmShift16::L32 => 0x1_0000_0000,
        ImmShift16::L48 => 0x1_0000_0000_0000,
    }
}

/// A number with its 16 bits at a place replaced.
pub open spec fn with_piece(n: u64, shift: int, piece: u16) -> u64 {
    (n - n as int / shift % 0x1_0000 * shift + piece * shift) as u64
}

impl Cpu {
    pub open spec fn set(self, dest: Loc, n: u64) -> Cpu {
        Cpu { regs: self.regs.insert(dest, n), ..self }
    }

    pub open spec fn goes(self, offset: BranchOffset) -> Cpu {
        match offset {
            BranchOffset::Dynamic(label) => Cpu { branch: Some(label), ..self },
            BranchOffset::Fixed(_) => self,
        }
    }

    /// The address that a load or a store names: immediate offsets count in units of the size.
    pub open spec fn address(self, base: EitherReg, offset: EitherOffset, size: ValSize) -> u64 {
        let at = self.regs[either(base)];
        match offset {
            EitherOffset::Imm(n) => meaning::wrapped(at + n.0 * ir::val_bytes(size)),
            EitherOffset::Reg(r) => meaning::sum(at, self.regs[either(r)]),
        }
    }
}

/// The address that a page and a place in it are parts of.
pub open spec fn imm_value(b: Board, imm: AddImmVal) -> int {
    match imm {
        AddImmVal::Fixed(n) => n.0 as int,
        AddImmVal::String(offset) => (b.literal)(offset) as int % 4096,
        AddImmVal::Bss(offset) => (b.fixed)(offset) as int % 4096,
    }
}

pub open spec fn page_value(b: Board, page: PageAddr) -> int {
    match page {
        PageAddr::Fixed(n) => n.0 * 4096,
        PageAddr::String(offset) => (b.literal)(offset) as int / 4096 * 4096,
        PageAddr::Bss(offset) => (b.fixed)(offset) as int / 4096 * 4096,
    }
}

/// What an instruction does.
pub open spec fn effect<R>(b: Board, at: spec_fn(R) -> Loc, inst: Inst<R>, cpu: Cpu) -> Cpu {
    let regs = cpu.regs;
    match inst {
        Inst::Add { a, b: c, dest } => cpu.set(at(dest), meaning::sum(regs[at(a)], regs[at(c)])),
        Inst::Sub { a, b: c, dest } => cpu.set(
            at(dest),
            meaning::difference(regs[at(a)], regs[at(c)]),
        ),
        Inst::Mul { a, b: c, dest } => cpu.set(at(dest), meaning::product(regs[at(a)], regs[at(c)])),
        Inst::Div { a, b: c, dest, .. } => cpu.set(
            at(dest),
            meaning::division(regs[at(a)], regs[at(c)]),
        ),
        Inst::Neg { val, dest } => cpu.set(at(dest), meaning::difference(0, regs[at(val)])),
        Inst::AddImm { a, imm, dest } => cpu.set(
            either(dest),
            meaning::wrapped(regs[either(a)] + imm_value(b, imm)),
        ),
        Inst::SubImm { a, imm, dest } => cpu.set(
            either(dest),
            meaning::wrapped(regs[either(a)] - imm.0),
        ),
        Inst::Adrp { page_addr, dest } => cpu.set(
            at(dest),
            meaning::wrapped(page_value(b, page_addr)),
        ),
        Inst::Mov { src, dest } => cpu.set(either(dest), regs[either(src)]),
        Inst::Movz { shift, value, dest } => cpu.set(
            at(dest),
            meaning::wrapped(value * shift_of(shift)),
        ),
        Inst::Movk { shift, value, dest } => cpu.set(
            at(dest),
            with_piece(regs[at(dest)], shift_of(shift), value),
        ),
        Inst::Cmp { a, b: c } => Cpu { flags: flags_of(regs[at(a)], regs[at(c)]), ..cpu },
        Inst::CmpImm { val, imm } => Cpu {
            flags: flags_of(regs[at(val)], meaning::wrapped(imm.0 as int)),
            ..cpu
        },
        Inst::Cset { inv_cond, dest } => cpu.set(
            at(dest),
            if flags_hold(instr::cond_bits(inv_cond) as int, cpu.flags) {
                0
            } else {
                1
            },
        ),
        Inst::Load { base, offset, dest, size } => cpu.set(
            at(dest),
            (b.load)(cpu.mem, cpu.address(base, offset, size), size),
        ),
        Inst::Store { source, base, offset, size } => Cpu {
            mem: (b.store)(cpu.mem, cpu.address(base, offset, size), size, regs[at(source)]),
            ..cpu
        },
        Inst::StorePair { base, first, second, offset } => {
            let address = meaning::wrapped(regs[Loc::Phys(base)] + 8 * offset.0);
            let mem = (b.store)(cpu.mem, address, ValSize::Doubleword, regs[at(first)]);
            Cpu {
                regs: regs.insert(Loc::Phys(base), address),
                mem: (b.store)(
                    mem,
                    meaning::sum(address, 8),
                    ValSize::Doubleword,
                    regs[at(second)],
                ),
                ..cpu
            }
        },
        Inst::LoadPair { base, first, second, offset } => {
            let address = regs[Loc::Phys(base)];
            cpu.set(at(first), (b.load)(cpu.mem, address, ValSize::Doubleword)).set(
                at(second),
                (b.load)(cpu.mem, meaning::sum(address, 8), ValSize::Doubleword),
            ).set(Loc::Phys(base), meaning::wrapped(address + 8 * offset.0))
        },
        Inst::Branch { offset } => cpu.goes(offset),
        Inst::BranchCond { offset, cond } => if flags_hold(
            instr::cond_bits(cond) as int,
            cpu.flags,
        ) {
            cpu.goes(offset)
        } else {
            cpu
        },
        Inst::BranchZero { offset, reg } => if regs[at(reg)] == 0 {
            cpu.goes(offset)
        } else {
            cpu
        },
        Inst::BranchNotZero { offset, reg } => if regs[at(reg)] != 0 {
            cpu.goes(offset)
        } else {
            cpu
        },
        _ => cpu,
    }
}

pub open spec fn effect_of<R>(b: Board, at: spec_fn(R) -> Loc, inst: InstV<R>, cpu: Cpu) -> Cpu {
    match inst {
        InstV::Plain(inst) => effect(b, at, inst, cpu),
        InstV::CallTo(function) => {
            let (value, mem) = (b.call)(function, cpu.mem, cpu.regs[Loc::Phys(Register::SP)]);
            Cpu { regs: cpu.regs.insert(Loc::Phys(Register::X0), value), mem, ..cpu }
        },
    }
}

/// The machine behind the instructions from `i` on, or behind the first branch among them.
pub open spec fn run<R>(
    b: Board,
    at: spec_fn(R) -> Loc,
    code: Seq<InstV<R>>,
    i: int,
    cpu: Cpu,
) -> Cpu
    decreases code.len() - i,
{
    if i >= code.len() || cpu.branch is Some {
        cpu
    } else {
        run(b, at, code, i + 1, effect_of(b, at, code[i], cpu))
    }
}

pub open spec fn virt() -> spec_fn(VirtualReg) -> Loc {
    |v: VirtualReg| Loc::Virt(v)
}

pub open spec fn phys() -> spec_fn(Register) -> Loc {
    |r: Register| Loc::Phys(r)
}

/// The machine holds what is in registers and memory, and nothing but the registers of the machine
/// differs from `start`.
pub open spec fn holds_world(cpu: Cpu, w: World) -> bool {
    &&& forall|v: VirtualReg| #[trigger] cpu.regs[Loc::Virt(v)] == w.regs[v]
    &&& cpu.mem == w.mem
    &&& cpu.branch is None
}

pub open spec fn same_phys(a: Cpu, b: Cpu) -> bool {
    forall|r: Register| #[trigger] a.regs[Loc::Phys(r)] == b.regs[Loc::Phys(r)]
}

/// The board stands for a machine: they have one memory, variables lie at the stack pointer, and
/// arguments behind the two registers that the frame pointer leads to.
pub open spec fn stands_for(b: Board, cpu: Cpu, k: Machine, c: Ground, around: Surroundings) -> bool {
    &&& b.load == k.load
    &&& b.store == k.store
    &&& b.fixed == k.fixed
    &&& around.sizes == c.sizes
    &&& around.stack == c.stack
    &&& cpu.regs[Loc::Phys(Register::SP)] == k.frame
    &&& k.args == meaning::sum(cpu.regs[Loc::Phys(Register::FP)], 16)
    &&& forall|id: int|
        0 <= id < around.strings.len() ==> (b.literal)(#[trigger] around.strings[id]) == (k.text)(
            c.strings[id],
        )
}

/// An offset that an instruction can name: it has no more than 16 bits, and counts whole values.
pub open spec fn is_even(offset: u32, size: ValSize) -> bool {
    offset < 0x1_0000 && offset as int % (ir::val_bytes(size) as int) == 0
}

/// An operation whose instructions do what it means: offsets count whole values, arguments that are
/// loaded have eight bytes, the address that is taken is that of the first argument, the rest of a
/// division does not replace what is divided, and a comparison can come out both ways.
pub open spec fn is_regular(op: Operation, c: Ground) -> bool {
    match op {
        Operation::Store { src, stack_offset } => src matches SourceVal::VReg(v) && is_even(
            stack_offset,
            c.sizes[v],
        ),
        Operation::Load { stack_offset, dest } => is_even(stack_offset, c.sizes[dest]),
        Operation::LoadOffset { offset, dest, .. } => is_even(offset, c.sizes[dest]),
        Operation::LoadArg { offset, dest } => offset < 0x1_0000 && c.sizes[dest]
            == ValSize::Doubleword,
        Operation::AddressOf { val, .. } => c.stack[val.0] < 0x1_0000,
        Operation::AddressOfArg { offset, .. } => offset == 0,
        Operation::StorePointer { size, offset, .. } => is_even(offset, size),
        Operation::Modulo { a, b, dest } => dest != a && dest != b,
        Operation::Compare { cond, .. } => cond != Condition::Always && cond != Condition::Never,
        Operation::Select { .. } | Operation::Call { .. } => false,
        _ => true,
    }
}

pub(crate) proof fn lemma_run1<R>(b: Board, at: spec_fn(R) -> Loc, code: Seq<InstV<R>>, cpu: Cpu)
    requires
        cpu.branch is None,
        code.len() == 1,
    ensures
        run(b, at, code, 0, cpu) == effect_of(b, at, code[0], cpu),
{
    reveal_with_fuel(run, 2);
}

pub(crate) proof fn lemma_run2<R>(b: Board, at: spec_fn(R) -> Loc, code: Seq<InstV<R>>, cpu: Cpu)
    requires
        cpu.branch is None,
        code.len() == 2,
    ensures
        ({
            let first = effect_of(b, at, code[0], cpu);
            run(b, at, code, 0, cpu) == if first.branch is Some {
                first
            } else {
                effect_of(b, at, code[1], first)
            }
        }),
{
    reveal_with_fuel(run, 3);
}

proof fn lemma_run3<R>(b: Board, at: spec_fn(R) -> Loc, code: Seq<InstV<R>>, cpu: Cpu)
    requires
        code.len() == 3,
        cpu.branch is None,
        effect_of(b, at, code[0], cpu).branch is None,
        effect_of(b, at, code[1], effect_of(b, at, code[0], cpu)).branch is None,
    ensures
        run(b, at, code, 0, cpu) == effect_of(
            b,
            at,
            code[2],
            effect_of(b, at, code[1], effect_of(b, at, code[0], cpu)),
        ),
{
    reveal_with_fuel(run, 4);
}

proof fn lemma_run4<R>(b: Board, at: spec_fn(R) -> Loc, code: Seq<InstV<R>>, cpu: Cpu)
    requires
        code.len() == 4,
        cpu.branch is None,
        effect_of(b, at, code[0], cpu).branch is None,
        effect_of(b, at, code[1], effect_of(b, at, code[0], cpu)).branch is None,
        effect_of(
            b,
            at,
            code[2],
            effect_of(b, at, code[1], effect_of(b, at, code[0], cpu)),
        ).branch is None,
    ensures
        run(b, at, code, 0, cpu) == effect_of(
            b,
            at,
            code[3],
            effect_of(b, at, code[2], effect_of(b, at, code[1], effect_of(b, at, code[0], cpu))),
        ),
{
    reveal_with_fuel(run, 5);
}

proof fn lemma_insts(code: Seq<Inst<VirtualReg>>)
    ensures
        arm::plain_insts(code).len() == code.len(),
        forall|i: int|
            0 <= i < code.len() ==> #[trigger] arm::plain_insts(code)[i] == InstV::Plain(code[i]),
{
}

proof fn lemma_piece(n: int, low: int, shift: int, piece: u16)
    requires
        shift == 0x1_0000 || shift == 0x1_0000_0000 || shift == 0x1_0000_0000_0000,
        0 <= low < shift,
    ensures
        with_piece(low as u64, shift, piece) == low + piece * shift,
{
    assert(low / shift == 0) by {
        vstd::arithmetic::div_mod::lemma_basic_div(low, shift);
    }
    if shift == 0x1_0000 {
        assert(low + piece * shift < 0x1_0000_0000);
    } else if shift == 0x1_0000_0000 {
        assert(low + piece * shift < 0x1_0000_0000_0000);
    } else {
        assert(low + piece * shift < 0x1_0000_0000_0000_0000);
    }
}

proof fn lemma_immediate(b: Board, imm: u64, dest: VirtualReg, cpu: Cpu)
    requires
        cpu.branch is None,
    ensures
        ({
            let end = run(b, virt(), arm::plain_insts(arm::immediate_code(imm, dest)), 0, cpu);
            &&& end.regs =~= cpu.regs.insert(Loc::Virt(dest), imm)
            &&& end.mem == cpu.mem
            &&& end.branch == cpu.branch
        }),
{
    let code = arm::immediate_code(imm, dest);
    lemma_insts(code);
    arm::law_chunks(imm);
    let c0 = arm::chunk(imm, 0);
    let c1 = arm::chunk(imm, 1);
    let c2 = arm::chunk(imm, 2);
    let c3 = arm::chunk(imm, 3);
    let n1 = c0 + c1 * 0x1_0000;
    let n2 = n1 + c2 * 0x1_0000_0000;
    assert(n1 < 0x1_0000_0000);
    assert(n2 < 0x1_0000_0000_0000);
    meaning::law_wrapped(c0 * 1, 0);
    lemma_piece(0, c0 as int, 0x1_0000, c1);
    lemma_piece(0, n1, 0x1_0000_0000, c2);
    lemma_piece(0, n2, 0x1_0000_0000_0000, c3);
    let first = Inst::<VirtualReg>::Movz { shift: ImmShift16::L0, value: c0, dest };
    let second = Inst::<VirtualReg>::Movk { shift: ImmShift16::L16, value: c1, dest };
    let third = Inst::<VirtualReg>::Movk { shift: ImmShift16::L32, value: c2, dest };
    let fourth = Inst::<VirtualReg>::Movk { shift: ImmShift16::L48, value: c3, dest };
    let whole = arm::plain_insts(code);
    if imm > 0xffff_ffff_ffff {
        assert(code =~= seq![first, second, third, fourth]);
        lemma_run4(b, virt(), whole, cpu);
    } else if imm > 0xffff_ffff {
        assert(code =~= seq![first, second, third]);
        lemma_run3(b, virt(), whole, cpu);
    } else if imm > 0xffff {
        assert(code =~= seq![first, second]);
        lemma_run2(b, virt(), whole, cpu);
    } else {
        assert(code =~= seq![first]);
        lemma_run1(b, virt(), whole, cpu);
    }
}

proof fn lemma_address(n: u64)
    ensures
        meaning::wrapped(meaning::wrapped(n as int / 4096 * 4096) + n % 4096) == n,
        meaning::wrapped(n as int) == n,
{
    reveal(meaning::wrapped);
}

proof fn lemma_scaled(offset: u32, size: ValSize)
    requires
        is_even(offset, size),
    ensures
        arm::scaled(offset, size) matches Some(o) ==> o.0 * ir::val_bytes(size) == offset,
{
    match size {
        ValSize::Byte => {},
        ValSize::Halfword => {
            assert(offset as int / 2 * 2 == offset);
        },
        ValSize::Word => {
            assert(offset as int / 4 * 4 == offset);
        },
        ValSize::Doubleword => {
            assert(offset as int / 8 * 8 == offset);
        },
    }
}

proof fn lemma_assign(
    b: Board,
    k: Machine,
    c: Ground,
    around: Surroundings,
    op: Operation,
    cpu: Cpu,
    w: World,
)
    requires
        stands_for(b, cpu, k, c, around),
        holds_world(cpu, w),
        is_regular(op, c),
        op is Assign,
    ensures
        arm::plain_code(op, around) matches Some(code) ==> {
            let end = run(b, virt(), arm::plain_insts(code), 0, cpu);
            holds_world(end, meaning::performed(k, c, op, w)) && same_phys(end, cpu)
        },
{
    if let Some(code) = arm::plain_code(op, around) {
        lemma_insts(code);
        let whole = arm::plain_insts(code);
        match op->Assign_src {
            SourceVal::Immediate(imm) => lemma_immediate(b, imm, op->Assign_dest, cpu),
            SourceVal::String(id) => {
                lemma_address((b.literal)(around.strings[id as int]));
                lemma_run2(b, virt(), whole, cpu);
            },
            SourceVal::StaticMem(offset) => {
                lemma_address((b.fixed)(offset));
                lemma_run2(b, virt(), whole, cpu);
            },
            SourceVal::VReg(_) => lemma_run1(b, virt(), whole, cpu),
        }
    }
}

#[verifier::spinoff_prover]
proof fn lemma_store(
    b: Board,
    k: Machine,
    c: Ground,
    around: Surroundings,
    op: Operation,
    cpu: Cpu,
    w: World,
)
    requires
        stands_for(b, cpu, k, c, around),
        holds_world(cpu, w),
        is_regular(op, c),
        op is Store,
    ensures
        arm::plain_code(op, around) matches Some(code) ==> {
            let end = run(b, virt(), arm::plain_insts(code), 0, cpu);
            holds_world(end, meaning::performed(k, c, op, w)) && same_phys(end, cpu)
        },
{
    if let Some(code) = arm::plain_code(op, around) {
        lemma_insts(code);
        let whole = arm::plain_insts(code);
        if let Operation::Store { src, stack_offset } = op {
            let v = src->VReg_0;
            lemma_scaled(stack_offset, c.sizes[v]);
            assert(cpu.regs[Loc::Virt(v)] == w.regs[v]);
        }
        assert(code.len() == 1);
        lemma_run1(b, virt(), whole, cpu);
    }
}

#[verifier::spinoff_prover]
proof fn lemma_load(
    b: Board,
    k: Machine,
    c: Ground,
    around: Surroundings,
    op: Operation,
    cpu: Cpu,
    w: World,
)
    requires
        stands_for(b, cpu, k, c, around),
        holds_world(cpu, w),
        is_regular(op, c),
        op is Load || op is LoadOffset,
    ensures
        arm::plain_code(op, around) matches Some(code) ==> {
            let end = run(b, virt(), arm::plain_insts(code), 0, cpu);
            holds_world(end, meaning::performed(k, c, op, w)) && same_phys(end, cpu)
        },
{
    if let Some(code) = arm::plain_code(op, around) {
        lemma_insts(code);
        let whole = arm::plain_insts(code);
        match op {
            Operation::Load { stack_offset, dest } => lemma_scaled(stack_offset, c.sizes[dest]),
            Operation::LoadOffset { base, offset, dest } => {
                lemma_scaled(offset, c.sizes[dest]);
                assert(cpu.regs[Loc::Virt(base)] == w.regs[base]);
            },
            _ => {},
        }
        assert(code.len() == 1);
        lemma_run1(b, virt(), whole, cpu);
    }
}

#[verifier::spinoff_prover]
proof fn lemma_load_arg(
    b: Board,
    k: Machine,
    c: Ground,
    around: Surroundings,
    op: Operation,
    cpu: Cpu,
    w: World,
)
    requires
        stands_for(b, cpu, k, c, around),
        holds_world(cpu, w),
        is_regular(op, c),
        op is LoadArg,
    ensures
        arm::plain_code(op, around) matches Some(code) ==> {
            let end = run(b, virt(), arm::plain_insts(code), 0, cpu);
            holds_world(end, meaning::performed(k, c, op, w)) && same_phys(end, cpu)
        },
{
    if let Some(code) = arm::plain_code(op, around) {
        lemma_insts(code);
        let whole = arm::plain_insts(code);
        if let Operation::LoadArg { offset, .. } = op {
            let fp = cpu.regs[Loc::Phys(Register::FP)];
            meaning::law_wrapped(fp + 16, 8 * offset);
            assert(fp + (2 + offset) * 8 == fp + 16 + 8 * offset);
        }
        assert(code.len() == 1);
        lemma_run1(b, virt(), whole, cpu);
    }
}

#[verifier::spinoff_prover]
proof fn lemma_load_pointer(
    b: Board,
    k: Machine,
    c: Ground,
    around: Surroundings,
    op: Operation,
    cpu: Cpu,
    w: World,
)
    requires
        stands_for(b, cpu, k, c, around),
        holds_world(cpu, w),
        is_regular(op, c),
        op is LoadPointer,
    ensures
        arm::plain_code(op, around) matches Some(code) ==> {
            let end = run(b, virt(), arm::plain_insts(code), 0, cpu);
            holds_world(end, meaning::performed(k, c, op, w)) && same_phys(end, cpu)
        },
{
    if let Some(code) = arm::plain_code(op, around) {
        lemma_insts(code);
        let whole = arm::plain_insts(code);
        if let Operation::LoadPointer { ptr, size, .. } = op {
            assert(0 * ir::val_bytes(size) == 0);
            meaning::law_wrapped(w.regs[ptr] as int, 0);
            assert(cpu.regs[Loc::Virt(ptr)] == w.regs[ptr]);
        }
        assert(code.len() == 1);
        lemma_run1(b, virt(), whole, cpu);
    }
}

#[verifier::spinoff_prover]
proof fn lemma_store_pointer(
    b: Board,
    k: Machine,
    c: Ground,
    around: Surroundings,
    op: Operation,
    cpu: Cpu,
    w: World,
)
    requires
        stands_for(b, cpu, k, c, around),
        holds_world(cpu, w),
        is_regular(op, c),
        op is StorePointer,
    ensures
        arm::plain_code(op, around) matches Some(code) ==> {
            let end = run(b, virt(), arm::plain_insts(code), 0, cpu);
            holds_world(end, meaning::performed(k, c, op, w)) && same_phys(end, cpu)
        },
{
    if let Some(code) = arm::plain_code(op, around) {
        lemma_insts(code);
        let whole = arm::plain_insts(code);
        if let Operation::StorePointer { src, ptr, size, offset } = op {
            lemma_scaled(offset, size);
            assert(cpu.regs[Loc::Virt(ptr)] == w.regs[ptr]);
            assert(cpu.regs[Loc::Virt(src)] == w.regs[src]);
        }
        assert(code.len() == 1);
        lemma_run1(b, virt(), whole, cpu);
    }
}

proof fn lemma_numeric(
    b: Board,
    k: Machine,
    c: Ground,
    around: Surroundings,
    op: Operation,
    cpu: Cpu,
    w: World,
)
    requires
        stands_for(b, cpu, k, c, around),
        holds_world(cpu, w),
        is_regular(op, c),
        !(op is Assign || op is Store || op is Load || op is LoadOffset || op is LoadArg
            || op is LoadPointer || op is StorePointer),
    ensures
        arm::plain_code(op, around) matches Some(code) ==> {
            let end = run(b, virt(), arm::plain_insts(code), 0, cpu);
            holds_world(end, meaning::performed(k, c, op, w)) && same_phys(end, cpu)
        },
{
    if let Some(code) = arm::plain_code(op, around) {
        lemma_insts(code);
        let whole = arm::plain_insts(code);
        match op {
            Operation::Compare { a, b: d, cond, dest } => {
                law_flags(ir::opposite(cond), w.regs[a], w.regs[d]);
                meaning::law_opposite_holds(cond, w.regs[a], w.regs[d]);
                lemma_run2(b, virt(), whole, cpu);
            },
            Operation::Not { val, dest } => {
                law_flags(Condition::NotEqual, w.regs[val], 0);
                meaning::law_wrapped(0, 0);
                lemma_run2(b, virt(), whole, cpu);
            },
            Operation::Modulo { a, b: d, dest } => {
                lemma_run3(b, virt(), whole, cpu);
                lemma_remainder(w.regs[a], w.regs[d]);
            },
            Operation::AddressOfArg { offset, dest } => {
                meaning::law_wrapped(cpu.regs[Loc::Phys(Register::FP)] + 16, 0);
                lemma_run1(b, virt(), whole, cpu);
            },
            _ => {
                assert(code.len() == 1);
                lemma_run1(b, virt(), whole, cpu);
            },
        }
    }
}

/// Running the instructions of an operation does what the operation means.
pub proof fn law_operation(
    b: Board,
    k: Machine,
    c: Ground,
    around: Surroundings,
    op: Operation,
    cpu: Cpu,
    w: World,
)
    requires
        stands_for(b, cpu, k, c, around),
        holds_world(cpu, w),
        is_regular(op, c),
    ensures
        arm::plain_code(op, around) matches Some(code) ==> {
            let end = run(b, virt(), arm::plain_insts(code), 0, cpu);
            holds_world(end, meaning::performed(k, c, op, w)) && same_phys(end, cpu)
        },
{
    if op is Assign {
        lemma_assign(b, k, c, around, op, cpu, w);
    } else if op is Store {
        lemma_store(b, k, c, around, op, cpu, w);
    } else if op is Load || op is LoadOffset {
        lemma_load(b, k, c, around, op, cpu, w);
    } else if op is LoadArg {
        lemma_load_arg(b, k, c, around, op, cpu, w);
    } else if op is LoadPointer {
        lemma_load_pointer(b, k, c, around, op, cpu, w);
    } else if op is StorePointer {
        lemma_store_pointer(b, k, c, around, op, cpu, w);
    } else {
        lemma_numeric(b, k, c, around, op, cpu, w);
    }
}

proof fn lemma_remainder(a: u64, b: u64)
    ensures
        meaning::difference(a, meaning::product(meaning::division(a, b), b)) == meaning::remainder(
            a,
            b,
        ),
{
    let q = meaning::division(a, b);
    let p = q * b;
    reveal(meaning::wrapped);
    vstd::arithmetic::div_mod::lemma_sub_mod_noop_right(a as int, p, meaning::range());
}

/// Where the instructions at the end of a block lead: to the label that the value of the condition asks
/// for, or to the end of the function, with the value that is returned in the first register.
pub proof fn law_terminator(b: Board, t: Terminator, cpu: Cpu)
    requires
        cpu.branch is None,
    ensures
        ({
            let end = run(b, virt(), arm::plain_insts(arm::terminator_code(t)), 0, cpu);
            &&& end.mem == cpu.mem
            &&& forall|v: VirtualReg| #[trigger]
                end.regs[Loc::Virt(v)] == cpu.regs[Loc::Virt(v)]
            &&& match t {
                Terminator::Branch { label } => end.branch == Some(label),
                Terminator::BranchCond { cond, if_true, if_false } => end.branch == Some(
                    if cpu.regs[Loc::Virt(cond)] != 0 {
                        if_true
                    } else {
                        if_false
                    },
                ),
                Terminator::Return { value } => end.branch == Some(Label::End)
                    && end.regs[Loc::Phys(Register::X0)] == cpu.regs[Loc::Virt(value)],
            }
        }),
{
    let code = arm::plain_insts(arm::terminator_code(t));
    lemma_insts(arm::terminator_code(t));
    if t is Branch {
        lemma_run1(b, virt(), code, cpu);
    } else {
        lemma_run2(b, virt(), code, cpu);
    }
}

} // verus!
