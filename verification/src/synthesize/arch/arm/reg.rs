//! Registers, and the allocation of physical registers.

use std::collections::HashMap;

use vstd::prelude::*;

use crate::ir::{SizeMap, ValSize, VirtualReg};
use crate::synthesize::arch::arm::instr;
use crate::synthesize::arch::arm::instr::{
    AddImmVal, EitherOffset, EitherReg, Inst, InstV, PageAddr, PhysicalRegs, U12,
};
use crate::synthesize::arch::arm::{ArmAssembler, InstMarker};

verus! {

pub type Reg = Register;

/// All general-purpose registers + stack pointer on the ARM architecture.
///
/// The first eight hold arguments, `X0` the return value too. `X8` holds an indirect result, `X9`
/// to `X15` are saved by the caller, `X16` and `X17` are for calls between procedures, `X18` is
/// the platform register, and `X19` to `X28` are saved by the callee. The last three are the
/// frame pointer, the link register and the stack pointer, which is not for general use.
#[derive(Debug, Clone, Copy, PartialEq, Eq, Structural)]
pub enum Register {
    X0,
    X1,
    X2,
    X3,
    X4,
    X5,
    X6,
    X7,
    X8,
    X9,
    X10,
    X11,
    X12,
    X13,
    X14,
    X15,
    X16,
    X17,
    X18,
    X19,
    X20,
    X21,
    X22,
    X23,
    X24,
    X25,
    X26,
    X27,
    X28,
    FP,
    LR,
    SP,
}

/// The number of a register in an instruction.
#[verifier::opaque]
pub open spec fn number(r: Register) -> u32 {
    match r {
        Register::X0 => 0,
        Register::X1 => 1,
        Register::X2 => 2,
        Register::X3 => 3,
        Register::X4 => 4,
        Register::X5 => 5,
        Register::X6 => 6,
        Register::X7 => 7,
        Register::X8 => 8,
        Register::X9 => 9,
        Register::X10 => 10,
        Register::X11 => 11,
        Register::X12 => 12,
        Register::X13 => 13,
        Register::X14 => 14,
        Register::X15 => 15,
        Register::X16 => 16,
        Register::X17 => 17,
        Register::X18 => 18,
        Register::X19 => 19,
        Register::X20 => 20,
        Register::X21 => 21,
        Register::X22 => 22,
        Register::X23 => 23,
        Register::X24 => 24,
        Register::X25 => 25,
        Register::X26 => 26,
        Register::X27 => 27,
        Register::X28 => 28,
        Register::FP => 29,
        Register::LR => 30,
        Register::SP => 31,
    }
}

/// The register with a given number.
pub open spec fn register(n: int) -> Register {
    if n == 0 {
        Register::X0
    } else if n == 1 {
        Register::X1
    } else if n == 2 {
        Register::X2
    } else if n == 3 {
        Register::X3
    } else if n == 4 {
        Register::X4
    } else if n == 5 {
        Register::X5
    } else if n == 6 {
        Register::X6
    } else if n == 7 {
        Register::X7
    } else if n == 8 {
        Register::X8
    } else if n == 9 {
        Register::X9
    } else if n == 10 {
        Register::X10
    } else if n == 11 {
        Register::X11
    } else if n == 12 {
        Register::X12
    } else if n == 13 {
        Register::X13
    } else if n == 14 {
        Register::X14
    } else if n == 15 {
        Register::X15
    } else if n == 16 {
        Register::X16
    } else if n == 17 {
        Register::X17
    } else if n == 18 {
        Register::X18
    } else if n == 19 {
        Register::X19
    } else if n == 20 {
        Register::X20
    } else if n == 21 {
        Register::X21
    } else if n == 22 {
        Register::X22
    } else if n == 23 {
        Register::X23
    } else if n == 24 {
        Register::X24
    } else if n == 25 {
        Register::X25
    } else if n == 26 {
        Register::X26
    } else if n == 27 {
        Register::X27
    } else if n == 28 {
        Register::X28
    } else if n == 29 {
        Register::FP
    } else if n == 30 {
        Register::LR
    } else {
        Register::SP
    }
}

/// Registers and the numbers below 32 correspond to each other.
pub proof fn law_register_numbers(r: Register, n: int)
    ensures
        number(r) < 32,
        register(number(r) as int) == r,
        0 <= n < 32 ==> number(register(n)) == n,
{
    reveal(number);
}

pub(crate) proof fn lemma_numbers()
    ensures
        forall|r: Register| #[trigger] number(r) < 32,
        number(Register::SP) == 31,
{
    reveal(number);
}

impl Register {
    pub fn number(&self) -> (r: u32)
        ensures
            r == number(*self),
            r < 32,
    {
        proof {
            reveal(number);
        }
        match self {
            Register::X0 => 0,
            Register::X1 => 1,
            Register::X2 => 2,
            Register::X3 => 3,
            Register::X4 => 4,
            Register::X5 => 5,
            Register::X6 => 6,
            Register::X7 => 7,
            Register::X8 => 8,
            Register::X9 => 9,
            Register::X10 => 10,
            Register::X11 => 11,
            Register::X12 => 12,
            Register::X13 => 13,
            Register::X14 => 14,
            Register::X15 => 15,
            Register::X16 => 16,
            Register::X17 => 17,
            Register::X18 => 18,
            Register::X19 => 19,
            Register::X20 => 20,
            Register::X21 => 21,
            Register::X22 => 22,
            Register::X23 => 23,
            Register::X24 => 24,
            Register::X25 => 25,
            Register::X26 => 26,
            Register::X27 => 27,
            Register::X28 => 28,
            Register::FP => 29,
            Register::LR => 30,
            Register::SP => 31,
        }
    }

    /// The register with a given number.
    pub fn with_number(n: u32) -> (r: Register)
        requires
            n < 32,
        ensures
            r == register(n as int),
    {
        match n {
            0 => Register::X0,
            1 => Register::X1,
            2 => Register::X2,
            3 => Register::X3,
            4 => Register::X4,
            5 => Register::X5,
            6 => Register::X6,
            7 => Register::X7,
            8 => Register::X8,
            9 => Register::X9,
            10 => Register::X10,
            11 => Register::X11,
            12 => Register::X12,
            13 => Register::X13,
            14 => Register::X14,
            15 => Register::X15,
            16 => Register::X16,
            17 => Register::X17,
            18 => Register::X18,
            19 => Register::X19,
            20 => Register::X20,
            21 => Register::X21,
            22 => Register::X22,
            23 => Register::X23,
            24 => Register::X24,
            25 => Register::X25,
            26 => Register::X26,
            27 => Register::X27,
            28 => Register::X28,
            29 => Register::FP,
            30 => Register::LR,
            _ => Register::SP,
        }
    }
}

/// Used in register allocation when mapping a virtual register to a physical register. This
/// protects a register if using the register for a value requires loading that value from stack,
/// saving the existing register value to the stack, or both.
///
/// To use this register in an operation, call the [`RegisterGuard::unwrap`] method.
#[derive(Debug, Clone, Copy)]
pub enum RegisterGuard {
    Ready(Register),
    Load { load: U12, reg: Register },
    Save { save: U12, reg: Register },
    SaveAndLoad { save: U12, load: U12, reg: Register },
}

/// A register goes onto the stack.
pub open spec fn save_code(save: U12, reg: Register) -> InstV<Register> {
    InstV::Plain(
        Inst::Store {
            source: reg,
            base: EitherReg::Phys(Register::SP),
            offset: EitherOffset::Imm(save),
            size: ValSize::Doubleword,
        },
    )
}

/// A register comes from the stack.
pub open spec fn restore_code(load: U12, reg: Register) -> InstV<Register> {
    InstV::Plain(
        Inst::Load {
            base: EitherReg::Phys(Register::SP),
            offset: EitherOffset::Imm(load),
            dest: reg,
            size: ValSize::Doubleword,
        },
    )
}

impl RegisterGuard {
    pub open spec fn reg(self) -> Register {
        match self {
            RegisterGuard::Ready(reg) => reg,
            RegisterGuard::Load { reg, .. } => reg,
            RegisterGuard::Save { reg, .. } => reg,
            RegisterGuard::SaveAndLoad { reg, .. } => reg,
        }
    }

    /// The instructions that make the register ready: what it holds is saved before its new value
    /// is loaded.
    pub open spec fn ready_code(self) -> Seq<InstV<Register>> {
        match self {
            RegisterGuard::Ready(_) => Seq::empty(),
            RegisterGuard::Load { load, reg } => seq![restore_code(load, reg)],
            RegisterGuard::Save { save, reg } => seq![save_code(save, reg)],
            RegisterGuard::SaveAndLoad { save, load, reg } => seq![
                save_code(save, reg),
                restore_code(load, reg),
            ],
        }
    }

    /// Returns the register that this guard protects.
    ///
    /// Do not use this register if you are not sure it doesn't overwrite a value and where the
    /// virtual register is located.
    pub fn inner_reg(&self) -> (r: Register)
        ensures
            r == self.reg(),
    {
        match self {
            RegisterGuard::Ready(reg) => *reg,
            RegisterGuard::Load { load: _, reg } => *reg,
            RegisterGuard::Save { save: _, reg } => *reg,
            RegisterGuard::SaveAndLoad { save: _, load: _, reg } => *reg,
        }
    }

    /// Unwraps the inner register by potentially emitting a load and/or store instruction. Calling
    /// this function will ensure the value ends up in the returned register, and that the old
    /// value in the register is saved to the stack if necessary.
    pub fn unwrap(&self, assembler: &mut ArmAssembler) -> (r: Register)
        ensures
            r == self.reg(),
            final(assembler)@ == old(assembler)@.emit_all(self.ready_code()),
            final(assembler).unlinked() == old(assembler).unlinked(),
    {
        let ghost before = assembler@;
        match self {
            RegisterGuard::Ready(_) => {},
            RegisterGuard::Load { load, reg } => emit_restore(assembler, *load, *reg),
            RegisterGuard::Save { save, reg } => emit_save(assembler, *save, *reg),
            RegisterGuard::SaveAndLoad { save, load, reg } => {
                emit_save(assembler, *save, *reg);
                emit_restore(assembler, *load, *reg);
            },
        }
        proof {
            assert(assembler@ =~= before.emit_all(self.ready_code()));
        }
        self.inner_reg()
    }
}

fn emit_save(assembler: &mut ArmAssembler, save: U12, reg: Register)
    ensures
        final(assembler)@ == old(assembler)@.emit_all(seq![save_code(save, reg)]),
        final(assembler).unlinked() == old(assembler).unlinked(),
{
    assembler.emit(
        Inst::Store {
            source: reg,
            base: EitherReg::Phys(Register::SP),
            offset: EitherOffset::Imm(save),
            size: ValSize::Doubleword,
        },
    );
}

fn emit_restore(assembler: &mut ArmAssembler, load: U12, reg: Register)
    ensures
        final(assembler)@ == old(assembler)@.emit_all(seq![restore_code(load, reg)]),
        final(assembler).unlinked() == old(assembler).unlinked(),
{
    assembler.emit(
        Inst::Load {
            base: EitherReg::Phys(Register::SP),
            offset: EitherOffset::Imm(load),
            dest: reg,
            size: ValSize::Doubleword,
        },
    );
}

/// Location of a virtual register at any given time.
#[derive(Debug, Clone, Copy)]
pub enum Location {
    Register(Register),
    Stack(U12),
}

/// The places on the stack that virtual registers have, in units of eight bytes.
struct Stack {
    size: u16,
    map: HashMap<u32, U12>,
    free_slots: Vec<U12>,
    tmp_offset: U12,
}

/// What a [`Stack`] says.
#[verifier::ext_equal]
pub struct StackV {
    /// The number of places in use.
    pub size: u16,
    /// The place of each virtual register that has one, by the number of the register.
    pub map: Map<u32, U12>,
    /// The places that can be used again.
    pub free_slots: Seq<U12>,
    /// By how much the stack has grown for the arguments of a call.
    pub tmp_offset: U12,
}

/// A place on the stack, seen while the stack has grown. `None` if it is too far away.
pub open spec fn shifted(place: U12, by: U12) -> Option<U12> {
    instr::u12_of(place.0 + by.0)
}

fn shift(place: U12, by: U12) -> (r: Option<U12>)
    ensures
        r == shifted(place, by),
{
    U12::try_new(place.0 as u64 + by.0 as u64)
}

impl StackV {
    /// An empty stack of the given size.
    pub open spec fn sized(size: u16) -> StackV {
        StackV { size, map: Map::empty(), free_slots: Seq::empty(), tmp_offset: U12(0) }
    }

    /// The stack with a place for a register: the last one that can be used again, or else a new
    /// one behind all others. `None` if there is no such place.
    pub open spec fn with_place(self, vreg: VirtualReg) -> Option<StackV> {
        if self.free_slots.len() > 0 {
            Some(
                StackV {
                    map: self.map.insert(vreg.0, self.free_slots.last()),
                    free_slots: self.free_slots.drop_last(),
                    ..self
                },
            )
        } else if self.size < 4096 {
            Some(
                StackV {
                    size: (self.size + 1) as u16,
                    map: self.map.insert(vreg.0, U12(self.size)),
                    ..self
                },
            )
        } else {
            None
        }
    }

    /// Where a register lies.
    pub open spec fn place_of(self, vreg: VirtualReg) -> Option<U12> {
        if self.map.contains_key(vreg.0) {
            shifted(self.map[vreg.0], self.tmp_offset)
        } else {
            None
        }
    }

    /// The stack without the place of a register.
    pub open spec fn without(self, vreg: VirtualReg) -> StackV {
        StackV {
            map: self.map.remove(vreg.0),
            free_slots: self.free_slots.filter(|o: U12| o != self.map[vreg.0]),
            ..self
        }
    }
}

impl View for Stack {
    type V = StackV;

    closed spec fn view(&self) -> StackV {
        StackV {
            size: self.size,
            map: self.map@,
            free_slots: self.free_slots@,
            tmp_offset: self.tmp_offset,
        }
    }
}

impl Stack {
    fn new(size: u16) -> (r: Stack)
        ensures
            r@ == StackV::sized(size),
    {
        broadcast use vstd::std_specs::hash::group_hash_axioms;

        let r = Stack { size, map: HashMap::new(), free_slots: Vec::new(), tmp_offset: U12(0) };
        proof {
            assert(r@ =~= StackV::sized(size));
        }
        r
    }

    /// Gives a register a place, and says where it lies.
    fn alloc_slot(&mut self, vreg: VirtualReg) -> (r: Option<U12>)
        ensures
            match old(self)@.with_place(vreg) {
                None => r is None,
                Some(s) => r == s.place_of(vreg) && (r is Some ==> final(self)@ == s),
            },
    {
        broadcast use vstd::std_specs::hash::group_hash_axioms;

        let ghost before = self@;
        let index = match self.free_slots.pop() {
            Some(index) => index,
            None => {
                if self.size >= 4096 {
                    return None;
                }
                self.size = self.size + 1;
                U12(self.size - 1)
            },
        };
        self.map.insert(vreg.0, index);
        proof {
            assert(self@ =~= before.with_place(vreg)->0);
        }
        shift(index, self.tmp_offset)
    }

    fn offset_of(&self, vreg: VirtualReg) -> (r: Option<U12>)
        ensures
            r == self@.place_of(vreg),
    {
        broadcast use vstd::std_specs::hash::group_hash_axioms;

        match self.map.get(&vreg.0) {
            Some(index) => shift(*index, self.tmp_offset),
            None => None,
        }
    }

    /// Takes the place of a register away.
    fn free(&mut self, vreg: VirtualReg)
        requires
            old(self)@.map.contains_key(vreg.0),
        ensures
            final(self)@ == old(self)@.without(vreg),
    {
        broadcast use vstd::std_specs::hash::group_hash_axioms;

        let ghost before = self@;
        if let Some(offset) = self.map.remove(&vreg.0) {
            let ghost keep = |o: U12| o != before.map[vreg.0];
            let mut kept: Vec<U12> = Vec::new();
            let mut i: usize = 0;
            proof {
                assert(self.free_slots@.take(0) =~= Seq::empty());
            }
            while i < self.free_slots.len()
                invariant
                    i <= self.free_slots.len(),
                    keep == (|o: U12| o != before.map[vreg.0]),
                    offset == before.map[vreg.0],
                    kept@ == self.free_slots@.take(i as int).filter(keep),
                decreases self.free_slots.len() - i,
            {
                proof {
                    let slots = self.free_slots@;
                    assert(slots.take(i + 1) =~= slots.take(i as int).push(slots[i as int]));
                    slots.take(i as int).lemma_filter_push(slots[i as int], keep);
                }
                if self.free_slots[i].0 != offset.0 {
                    kept.push(self.free_slots[i]);
                }
                i = i + 1;
            }
            proof {
                assert(self.free_slots@.take(i as int) =~= self.free_slots@);
            }
            self.free_slots = kept;
            proof {
                assert(self@ =~= before.without(vreg));
            }
        }
    }
}

/// A set of registers.
struct RegPool {
    /// Whether each register is in the set, by its number.
    has: Vec<bool>,
}

impl View for RegPool {
    type V = Set<Register>;

    closed spec fn view(&self) -> Set<Register> {
        Set::new(|r: Register| self.has@[number(r) as int])
    }
}

/// The register of a set with the lowest number from `n` on.
pub open spec fn lowest_from(free: Set<Register>, n: int) -> Option<Register>
    decreases 32 - n,
{
    if n >= 32 {
        None
    } else if free.contains(register(n)) {
        Some(register(n))
    } else {
        lowest_from(free, n + 1)
    }
}

/// The register of a set with the lowest number.
pub open spec fn lowest(free: Set<Register>) -> Option<Register> {
    lowest_from(free, 0)
}

proof fn lemma_lowest_from(free: Set<Register>, n: int)
    requires
        0 <= n,
    ensures
        match lowest_from(free, n) {
            Some(r) => free.contains(r) && number(r) >= n && forall|s: Register|
                free.contains(s) && n <= #[trigger] number(s) ==> number(r) <= number(s),
            None => forall|s: Register| n <= #[trigger] number(s) ==> !free.contains(s),
        },
    decreases 32 - n,
{
    lemma_numbers();
    if n < 32 {
        lemma_lowest_from(free, n + 1);
        law_register_numbers(register(n), n);
        assert forall|s: Register| #[trigger] number(s) == n implies s == register(n) by {
            law_register_numbers(s, n);
        }
    }
}

/// A set of registers has a lowest one unless it is empty, and that is one of its registers and has
/// the lowest number of them.
pub proof fn law_lowest(free: Set<Register>)
    ensures
        match lowest(free) {
            Some(r) => free.contains(r) && forall|s: Register|
                free.contains(s) ==> number(r) <= #[trigger] number(s),
            None => free == Set::<Register>::empty(),
        },
{
    lemma_lowest_from(free, 0);
    if lowest(free) is None {
        assert forall|s: Register| !free.contains(s) by {
            assert(0 <= number(s));
        }
        assert(free =~= Set::<Register>::empty());
    }
}

impl RegPool {
    spec fn wf(self) -> bool {
        self.has@.len() == 32
    }

    /// The registers that a called function may overwrite.
    fn caller_saved() -> (r: RegPool)
        ensures
            r.wf(),
            r@ == caller_saved(),
    {
        let mut has: Vec<bool> = Vec::new();
        let mut i: usize = 0;
        while i < 32
            invariant
                i <= 32,
                has@.len() == i,
                forall|j: int| 0 <= j < i ==> has@[j] == (j < 16),
            decreases 32 - i,
        {
            has.push(i < 16);
            i = i + 1;
        }
        let r = RegPool { has };
        proof {
            lemma_numbers();
            assert(r@ =~= caller_saved());
        }
        r
    }

    /// The register with the lowest number.
    fn first(&self) -> (r: Option<Register>)
        requires
            self.wf(),
        ensures
            r == lowest(self@),
    {
        let mut n: u32 = 0;
        while n < 32
            invariant
                n <= 32,
                self.wf(),
                lowest(self@) == lowest_from(self@, n as int),
            decreases 32 - n,
        {
            proof {
                law_register_numbers(Register::X0, n as int);
            }
            if self.has[n as usize] {
                return Some(Register::with_number(n));
            }
            n = n + 1;
        }
        None
    }

    fn insert(&mut self, reg: Register)
        requires
            old(self).wf(),
        ensures
            final(self).wf(),
            final(self)@ == old(self)@.insert(reg),
    {
        let n = reg.number() as usize;
        self.has.set(n, true);
        proof {
            lemma_numbers();
            lemma_distinct_numbers();
            assert(self@ =~= old(self)@.insert(reg));
        }
    }

    fn remove(&mut self, reg: Register)
        requires
            old(self).wf(),
        ensures
            final(self).wf(),
            final(self)@ == old(self)@.remove(reg),
    {
        let n = reg.number() as usize;
        self.has.set(n, false);
        proof {
            lemma_numbers();
            lemma_distinct_numbers();
            assert(self@ =~= old(self)@.remove(reg));
        }
    }
}

proof fn lemma_distinct_numbers()
    ensures
        forall|r: Register, s: Register| #[trigger] number(r) == #[trigger] number(s) ==> r == s,
{
    assert forall|r: Register, s: Register| #[trigger] number(r) == #[trigger] number(s) implies r
        == s by {
        law_register_numbers(r, 0);
        law_register_numbers(s, 0);
    }
}

/// The registers that a called function may overwrite: `X0` to `X15`.
pub open spec fn caller_saved() -> Set<Register> {
    Set::new(|r: Register| number(r) < 16)
}

/// The place of a virtual register among others in order, from `i` on: that of the first whose
/// number is no lower.
pub open spec fn place_in(regs: Seq<(VirtualReg, Register)>, vreg: VirtualReg, i: int) -> int
    decreases regs.len() - i,
{
    if i >= regs.len() {
        regs.len() as int
    } else if regs[i].0.0 >= vreg.0 {
        i
    } else {
        place_in(regs, vreg, i + 1)
    }
}

/// The register that holds a virtual one.
pub open spec fn holder(regs: Seq<(VirtualReg, Register)>, vreg: VirtualReg) -> Option<Register> {
    let k = place_in(regs, vreg, 0);
    if k < regs.len() && regs[k].0 == vreg {
        Some(regs[k].1)
    } else {
        None
    }
}

/// The holders, in the order of the virtual registers, when a register comes to hold another one.
pub open spec fn with_holder(
    regs: Seq<(VirtualReg, Register)>,
    vreg: VirtualReg,
    reg: Register,
) -> Seq<(VirtualReg, Register)> {
    let k = place_in(regs, vreg, 0);
    if k < regs.len() && regs[k].0 == vreg {
        regs.update(k, (vreg, reg))
    } else {
        regs.insert(k, (vreg, reg))
    }
}

/// The holders when none holds a given virtual register any more.
pub open spec fn without_holder(regs: Seq<(VirtualReg, Register)>, vreg: VirtualReg) -> Seq<
    (VirtualReg, Register),
> {
    let k = place_in(regs, vreg, 0);
    if k < regs.len() && regs[k].0 == vreg {
        regs.remove(k)
    } else {
        regs
    }
}

/// Whether the virtual registers stand in the order of their numbers, each once.
pub open spec fn in_order(regs: Seq<(VirtualReg, Register)>) -> bool {
    forall|i: int, j: int| 0 <= i < j < regs.len() ==> regs[i].0.0 < regs[j].0.0
}

proof fn lemma_place_in(regs: Seq<(VirtualReg, Register)>, vreg: VirtualReg, i: int)
    requires
        0 <= i <= regs.len(),
    ensures
        i <= place_in(regs, vreg, i) <= regs.len(),
        forall|j: int| i <= j < place_in(regs, vreg, i) ==> regs[j].0.0 < vreg.0,
        place_in(regs, vreg, i) < regs.len() ==> regs[place_in(regs, vreg, i)].0.0 >= vreg.0,
    decreases regs.len() - i,
{
    if i < regs.len() && regs[i].0.0 < vreg.0 {
        lemma_place_in(regs, vreg, i + 1);
    }
}

proof fn lemma_with_holder(regs: Seq<(VirtualReg, Register)>, vreg: VirtualReg, reg: Register)
    requires
        in_order(regs),
    ensures
        in_order(with_holder(regs, vreg, reg)),
        holder(with_holder(regs, vreg, reg), vreg) == Some(reg),
{
    let more = with_holder(regs, vreg, reg);
    lemma_place_in(regs, vreg, 0);
    let k = place_in(regs, vreg, 0);
    assert(more[k] == (vreg, reg));
    if k < regs.len() && regs[k].0 == vreg {
    } else {
        assert forall|i: int, j: int| 0 <= i < j < more.len() implies more[i].0.0
            < more[j].0.0 by {
            assert(i < k ==> more[i] == regs[i]);
            assert(k < i ==> more[i] == regs[i - 1]);
            assert(j < k ==> more[j] == regs[j]);
            assert(k < j ==> more[j] == regs[j - 1]);
            if i == k {
                assert(k < regs.len() && regs[k].0.0 > vreg.0);
                assert(k < j - 1 ==> regs[k].0.0 < regs[j - 1].0.0);
            }
        }
    }
    lemma_holder(more, vreg);
}

proof fn lemma_without_holder(regs: Seq<(VirtualReg, Register)>, vreg: VirtualReg)
    requires
        in_order(regs),
    ensures
        in_order(without_holder(regs, vreg)),
        holder(without_holder(regs, vreg), vreg) is None,
{
    let less = without_holder(regs, vreg);
    lemma_place_in(regs, vreg, 0);
    let k = place_in(regs, vreg, 0);
    lemma_holder(less, vreg);
    lemma_holder(regs, vreg);
    if k < regs.len() && regs[k].0 == vreg {
        assert forall|j: int| 0 <= j < less.len() implies (#[trigger] less[j]).0 != vreg by {
            if j < k {
                assert(less[j] == regs[j]);
            } else {
                assert(less[j] == regs[j + 1]);
                assert(regs[k].0.0 < regs[j + 1].0.0);
            }
        }
    }
}

proof fn lemma_other_holder(
    regs: Seq<(VirtualReg, Register)>,
    changed: Seq<(VirtualReg, Register)>,
    other: VirtualReg,
)
    requires
        in_order(regs),
        in_order(changed),
        forall|r: Register| #[trigger] regs.contains((other, r)) == changed.contains((other, r)),
    ensures
        holder(changed, other) == holder(regs, other),
{
    lemma_holder(regs, other);
    lemma_holder(changed, other);
    if let Some(r) = holder(regs, other) {
        assert(regs.contains((other, r)));
        let j = choose|j: int| 0 <= j < changed.len() && changed[j] == (other, r);
    }
    if let Some(r) = holder(changed, other) {
        assert(changed.contains((other, r)));
        assert(regs.contains((other, r)));
        let j = choose|j: int| 0 <= j < regs.len() && regs[j] == (other, r);
    }
}

/// Holders in order stay in order. A register that comes to hold a virtual one holds it, and one that
/// is taken away holds it no more; the holders of the other virtual registers stay.
pub proof fn law_holders(
    regs: Seq<(VirtualReg, Register)>,
    vreg: VirtualReg,
    reg: Register,
    other: VirtualReg,
)
    requires
        in_order(regs),
    ensures
        in_order(with_holder(regs, vreg, reg)),
        in_order(without_holder(regs, vreg)),
        holder(with_holder(regs, vreg, reg), vreg) == Some(reg),
        holder(without_holder(regs, vreg), vreg) is None,
        other != vreg ==> holder(with_holder(regs, vreg, reg), other) == holder(regs, other),
        other != vreg ==> holder(without_holder(regs, vreg), other) == holder(regs, other),
{
    lemma_with_holder(regs, vreg, reg);
    lemma_without_holder(regs, vreg);
    if other != vreg {
        let more = with_holder(regs, vreg, reg);
        let less = without_holder(regs, vreg);
        lemma_place_in(regs, vreg, 0);
        let k = place_in(regs, vreg, 0);
        assert forall|r: Register| #[trigger] regs.contains((other, r)) == more.contains(
            (other, r),
        ) by {
            if regs.contains((other, r)) {
                let j = choose|j: int| 0 <= j < regs.len() && regs[j] == (other, r);
                assert(more[j] == (other, r) || more[j + 1] == (other, r));
            }
            if more.contains((other, r)) {
                let j = choose|j: int| 0 <= j < more.len() && more[j] == (other, r);
                assert(j != k);
                assert(j < k || more.len() == regs.len() ==> regs[j] == (other, r));
                assert(j > k && more.len() > regs.len() ==> regs[j - 1] == (other, r));
            }
        }
        lemma_other_holder(regs, more, other);
        assert forall|r: Register| #[trigger] regs.contains((other, r)) == less.contains(
            (other, r),
        ) by {
            if regs.contains((other, r)) && less.len() < regs.len() {
                let j = choose|j: int| 0 <= j < regs.len() && regs[j] == (other, r);
                assert(j != k);
                assert(j < k ==> less[j] == (other, r));
                assert(j > k ==> less[j - 1] == (other, r));
            }
            if less.contains((other, r)) && less.len() < regs.len() {
                let j = choose|j: int| 0 <= j < less.len() && less[j] == (other, r);
                assert(j < k ==> regs[j] == (other, r));
                assert(j >= k ==> regs[j + 1] == (other, r));
            }
        }
        lemma_other_holder(regs, less, other);
    }
}

/// Where the virtual registers stand in order, a register holds a virtual one if it stands beside it.
pub(crate) proof fn lemma_holder(regs: Seq<(VirtualReg, Register)>, vreg: VirtualReg)
    ensures
        in_order(regs) ==> forall|j: int|
            0 <= j < regs.len() && (#[trigger] regs[j]).0 == vreg ==> holder(regs, vreg) == Some(
                regs[j].1,
            ),
        holder(regs, vreg) matches Some(r) ==> exists|j: int|
            0 <= j < regs.len() && #[trigger] regs[j] == (vreg, r),
{
    lemma_place_in(regs, vreg, 0);
    let k = place_in(regs, vreg, 0);
    if in_order(regs) {
        assert forall|j: int| 0 <= j < regs.len() && (#[trigger] regs[j]).0 == vreg implies holder(
            regs,
            vreg,
        ) == Some(regs[j].1) by {
            if j < k {
                assert(regs[j].0.0 < vreg.0);
            } else if k < j {
                assert(regs[k].0.0 < regs[j].0.0);
            }
        }
    }
    if holder(regs, vreg) is Some {
        assert(regs[k] == (vreg, holder(regs, vreg)->0));
    }
}

/// The instructions, with what is known of their places.
pub type MarkedV<R> = (InstV<R>, InstMarker);

pub open spec fn marked_views<R>(v: Seq<(Inst<R>, InstMarker)>) -> Seq<MarkedV<R>> {
    v.map_values(|p: (Inst<R>, InstMarker)| (p.0@, p.1))
}

/// Whether an instruction reads a virtual register.
pub open spec fn reads(v: InstV<VirtualReg>, vreg: VirtualReg) -> bool {
    let uses = instr::operands(v);
    uses.0 == Some(vreg) || uses.1 == Some(vreg) || uses.2 == Some(vreg)
}

/// Whether no instruction behind the one at `i` reads a virtual register.
pub open spec fn read_no_more(insts: Seq<MarkedV<VirtualReg>>, i: int, vreg: VirtualReg) -> bool {
    forall|j: int| i < j < insts.len() ==> !reads((#[trigger] insts[j]).0, vreg)
}

/// Where the allocation of registers stands.
#[verifier::ext_equal]
pub struct AllocV {
    /// The instructions so far.
    pub out: Seq<MarkedV<Register>>,
    pub stack: StackV,
    /// The registers that hold nothing.
    pub free: Set<Register>,
    /// The registers that hold virtual ones, in the order of the virtual registers.
    pub regs: Seq<(VirtualReg, Register)>,
    /// The registers that come free at the end of a call.
    pub pending: Seq<Register>,
}

impl AllocV {
    pub open spec fn emit(self, inst: Inst<Register>) -> AllocV {
        AllocV { out: self.out.push((InstV::Plain(inst), InstMarker::Unmarked)), ..self }
    }

    /// Takes the lowest free register for a virtual one. `None` if there is none.
    pub open spec fn take(self, vreg: VirtualReg) -> Option<(AllocV, Register)> {
        match lowest(self.free) {
            Some(reg) => Some(
                (
                    AllocV {
                        free: self.free.remove(reg),
                        regs: with_holder(self.regs, vreg, reg),
                        ..self
                    },
                    reg,
                ),
            ),
            None => None,
        }
    }

    /// The register for a virtual one that is set.
    pub open spec fn set(self, vreg: Option<VirtualReg>) -> Option<(AllocV, Option<Register>)> {
        match vreg {
            None => Some((self, None)),
            Some(vreg) => match holder(self.regs, vreg) {
                Some(reg) => Some((self, Some(reg))),
                None => match self.take(vreg) {
                    Some((st, reg)) => Some((st, Some(reg))),
                    None => None,
                },
            },
        }
    }

    /// The register that holds a virtual one. One that no register holds is loaded from the stack.
    /// `None` if it does not lie there, or no register is free.
    pub open spec fn load(self, vreg: VirtualReg, sizes: Map<VirtualReg, ValSize>) -> Option<
        (AllocV, Register),
    > {
        match holder(self.regs, vreg) {
            Some(reg) => Some((self, reg)),
            None => match self.stack.place_of(vreg) {
                Some(offset) if sizes.contains_key(vreg) => match self.take(vreg) {
                    Some((st, reg)) => Some(
                        (
                            st.emit(
                                Inst::Load {
                                    base: EitherReg::Phys(Register::SP),
                                    offset: EitherOffset::Imm(offset),
                                    dest: reg,
                                    size: sizes[vreg],
                                },
                            ),
                            reg,
                        ),
                    ),
                    None => None,
                },
                _ => None,
            },
        }
    }

    /// The register comes free behind the last instruction that reads what it holds.
    pub open spec fn release(self, vreg: VirtualReg, reg: Register, last: bool) -> AllocV {
        if last {
            AllocV {
                free: self.free.insert(reg),
                regs: without_holder(self.regs, vreg),
                ..self
            }
        } else {
            self
        }
    }

    /// The register for a virtual one that the instruction at `i` reads.
    pub open spec fn read(
        self,
        vreg: Option<VirtualReg>,
        insts: Seq<MarkedV<VirtualReg>>,
        i: int,
        sizes: Map<VirtualReg, ValSize>,
    ) -> Option<(AllocV, Option<Register>)> {
        match vreg {
            None => Some((self, None)),
            Some(vreg) => match self.load(vreg, sizes) {
                Some((st, reg)) => Some(
                    (st.release(vreg, reg, read_no_more(insts, i, vreg)), Some(reg)),
                ),
                None => None,
            },
        }
    }

    /// Saves what the registers hold on the stack, in the order of the virtual registers, from the
    /// one at `k` on.
    pub open spec fn spill(self, k: int, sizes: Map<VirtualReg, ValSize>) -> Option<AllocV>
        decreases self.regs.len() - k,
    {
        if k >= self.regs.len() {
            Some(self)
        } else {
            let (vreg, reg) = self.regs[k];
            match self.stack.with_place(vreg) {
                None => None,
                Some(stack) => match stack.place_of(vreg) {
                    Some(offset) if sizes.contains_key(vreg) => {
                        let st = AllocV { stack, pending: self.pending.push(reg), ..self };
                        st.emit(
                            Inst::Store {
                                source: reg,
                                base: EitherReg::Phys(Register::SP),
                                offset: EitherOffset::Imm(offset),
                                size: sizes[vreg],
                            },
                        ).spill(k + 1, sizes)
                    },
                    _ => None,
                },
            }
        }
    }

    /// A call begins: all that the registers hold is saved, and the stack grows.
    pub open spec fn begin_call(self, reserved: u32, sizes: Map<VirtualReg, ValSize>) -> Option<
        AllocV,
    > {
        match self.spill(0, sizes) {
            None => None,
            Some(st) => match instr::u12_of((reserved % 0x1_0000) as int / 8) {
                None => None,
                Some(grown) => Some(
                    AllocV { stack: StackV { tmp_offset: grown, ..st.stack }, ..st },
                ),
            },
        }
    }

    /// A call ends: no register holds anything any more.
    pub open spec fn end_call(self) -> AllocV {
        AllocV {
            stack: StackV { tmp_offset: U12(0), ..self.stack },
            regs: Seq::empty(),
            free: self.free.union(self.pending.to_set()),
            pending: Seq::empty(),
            ..self
        }
    }

    /// An instruction as it stands while the stack has grown. `None` if it reads from the stack at
    /// a place that cannot be told, or is too far away.
    pub open spec fn grown(self, v: InstV<VirtualReg>) -> Option<InstV<VirtualReg>> {
        match v {
            InstV::Plain(
                Inst::Load { base: EitherReg::Phys(Register::SP), offset, dest, size },
            ) => match offset {
                EitherOffset::Reg(_) => None,
                EitherOffset::Imm(o) => match shifted(o, self.stack.tmp_offset) {
                    None => None,
                    Some(o) => Some(
                        InstV::Plain(
                            Inst::Load {
                                base: EitherReg::Phys(Register::SP),
                                offset: EitherOffset::Imm(o),
                                dest,
                                size,
                            },
                        ),
                    ),
                },
            },
            _ => Some(v),
        }
    }

    /// The registers for the instruction at `i`: first that for what it sets, and then those for
    /// what it reads.
    pub open spec fn choose_regs(
        self,
        v: InstV<VirtualReg>,
        insts: Seq<MarkedV<VirtualReg>>,
        i: int,
        sizes: Map<VirtualReg, ValSize>,
    ) -> Option<(AllocV, PhysicalRegs)> {
        let ops = instr::operands(v);
        match self.set(ops.3) {
            None => None,
            Some((s0, dest)) => match s0.read(ops.0, insts, i, sizes) {
                None => None,
                Some((s1, first)) => match s1.read(ops.1, insts, i, sizes) {
                    None => None,
                    Some((s2, second)) => match s2.read(ops.2, insts, i, sizes) {
                        None => None,
                        Some((s3, third)) => Some((s3, (first, second, third, dest))),
                    },
                },
            },
        }
    }

    /// The instruction at `i` in turn.
    pub open spec fn step(
        self,
        insts: Seq<MarkedV<VirtualReg>>,
        i: int,
        sizes: Map<VirtualReg, ValSize>,
    ) -> Option<AllocV> {
        match insts[i].0 {
            InstV::Plain(Inst::BeginFnCall { reserved_stack_size }) => self.begin_call(
                reserved_stack_size,
                sizes,
            ),
            InstV::Plain(Inst::EndFnCall) => Some(self.end_call()),
            v => match self.grown(v) {
                None => None,
                Some(v) => match self.choose_regs(v, insts, i, sizes) {
                    None => None,
                    Some((st, regs)) => Some(
                        AllocV { out: st.out.push((instr::placed(v, regs), insts[i].1)), ..st },
                    ),
                },
            },
        }
    }

    /// The instructions from `i` on.
    pub open spec fn steps(
        self,
        insts: Seq<MarkedV<VirtualReg>>,
        i: int,
        sizes: Map<VirtualReg, ValSize>,
    ) -> Option<AllocV>
        decreases insts.len() - i,
    {
        if i >= insts.len() {
            Some(self)
        } else {
            match self.step(insts, i, sizes) {
                Some(st) => st.steps(insts, i + 1, sizes),
                None => None,
            }
        }
    }

    /// Before the first instruction.
    pub open spec fn start(stack_size: u16) -> AllocV {
        AllocV {
            out: Seq::empty(),
            stack: StackV::sized(stack_size),
            free: caller_saved(),
            regs: Seq::empty(),
            pending: Seq::empty(),
        }
    }
}

/// The instructions with registers of the machine in place of the virtual ones, and eight times the
/// number of places of the stack. `None` if they cannot do with the registers and the stack that
/// there are.
pub open spec fn allocation(
    insts: Seq<MarkedV<VirtualReg>>,
    stack_size: u16,
    sizes: Map<VirtualReg, ValSize>,
) -> Option<(Seq<MarkedV<Register>>, u16)> {
    match AllocV::start(stack_size).steps(insts, 0, sizes) {
        Some(st) if st.stack.size * 8 <= u16::MAX => Some(
            (st.out, (st.stack.size * 8) as u16),
        ),
        _ => None,
    }
}

/// Where the allocation of registers stands.
struct Allocator {
    out: Vec<(Inst<Register>, InstMarker)>,
    stack: Stack,
    free: RegPool,
    regs: Vec<(VirtualReg, Register)>,
    pending: Vec<Register>,
}

impl View for Allocator {
    type V = AllocV;

    closed spec fn view(&self) -> AllocV {
        AllocV {
            out: marked_views(self.out@),
            stack: self.stack@,
            free: self.free@,
            regs: self.regs@,
            pending: self.pending@,
        }
    }
}

/// The last instruction that reads each virtual register, by the number of the register.
spec fn are_last_reads(
    last: Map<u32, usize>,
    insts: Seq<MarkedV<VirtualReg>>,
    n: int,
) -> bool {
    &&& forall|v: u32, j: int|
        0 <= j < n && #[trigger] reads(insts[j].0, VirtualReg(v)) ==> last.contains_key(v) && j
            <= last[v]
    &&& forall|v: u32| #[trigger]
        last.contains_key(v) ==> last[v] < n && reads(insts[last[v] as int].0, VirtualReg(v))
}

impl Allocator {
    spec fn wf(self) -> bool {
        self.free.wf()
    }

    fn new(stack_size: u16) -> (r: Allocator)
        ensures
            r.wf(),
            r@ == AllocV::start(stack_size),
    {
        let r = Allocator {
            out: Vec::new(),
            stack: Stack::new(stack_size),
            free: RegPool::caller_saved(),
            regs: Vec::new(),
            pending: Vec::new(),
        };
        proof {
            assert(r@ =~= AllocV::start(stack_size));
        }
        r
    }

    fn push(&mut self, inst: Inst<Register>, marker: InstMarker)
        requires
            old(self).wf(),
        ensures
            final(self).wf(),
            final(self)@ == (AllocV { out: old(self)@.out.push((inst@, marker)), ..old(self)@ }),
    {
        let ghost before = self@;
        self.out.push((inst, marker));
        proof {
            assert(self@.out =~= before.out.push((inst@, marker)));
        }
    }

    /// The place of a virtual register among those that registers hold.
    fn find(&self, vreg: VirtualReg) -> (k: usize)
        ensures
            k == place_in(self@.regs, vreg, 0),
            k <= self@.regs.len(),
            self@.regs == self.regs@,
    {
        let mut k: usize = 0;
        while k < self.regs.len()
            invariant
                k <= self.regs.len(),
                place_in(self.regs@, vreg, 0) == place_in(self.regs@, vreg, k as int),
            decreases self.regs.len() - k,
        {
            if self.regs[k].0.0 >= vreg.0 {
                return k;
            }
            k = k + 1;
        }
        k
    }

    fn held_by(&self, vreg: VirtualReg) -> (r: Option<Register>)
        ensures
            r == holder(self@.regs, vreg),
    {
        let k = self.find(vreg);
        if k < self.regs.len() && self.regs[k].0 == vreg {
            Some(self.regs[k].1)
        } else {
            None
        }
    }

    fn take(&mut self, vreg: VirtualReg) -> (r: Option<Register>)
        requires
            old(self).wf(),
        ensures
            match old(self)@.take(vreg) {
                Some((st, reg)) => final(self).wf() && final(self)@ == st && r == Some(reg),
                None => r is None,
            },
    {
        let ghost before = self@;
        match self.free.first() {
            None => None,
            Some(reg) => {
                let k = self.find(vreg);
                self.free.remove(reg);
                if k < self.regs.len() && self.regs[k].0 == vreg {
                    self.regs.set(k, (vreg, reg));
                } else {
                    self.regs.insert(k, (vreg, reg));
                }
                proof {
                    assert(self@ =~= (before.take(vreg)->0).0);
                }
                Some(reg)
            },
        }
    }

    fn set(&mut self, vreg: Option<VirtualReg>) -> (r: Option<Option<Register>>)
        requires
            old(self).wf(),
        ensures
            match old(self)@.set(vreg) {
                Some((st, reg)) => final(self).wf() && final(self)@ == st && r == Some(reg),
                None => r is None,
            },
    {
        match vreg {
            None => Some(None),
            Some(vreg) => match self.held_by(vreg) {
                Some(reg) => Some(Some(reg)),
                None => match self.take(vreg) {
                    Some(reg) => Some(Some(reg)),
                    None => None,
                },
            },
        }
    }

    fn load(&mut self, vreg: VirtualReg, sizes: &SizeMap) -> (r: Option<Register>)
        requires
            old(self).wf(),
        ensures
            match old(self)@.load(vreg, sizes@) {
                Some((st, reg)) => final(self).wf() && final(self)@ == st && r == Some(reg),
                None => r is None,
            },
    {
        if let Some(reg) = self.held_by(vreg) {
            return Some(reg);
        }
        match self.stack.offset_of(vreg) {
            None => None,
            Some(offset) => match sizes.get(vreg) {
                None => None,
                Some(size) => match self.take(vreg) {
                    None => None,
                    Some(reg) => {
                        self.push(
                            Inst::Load {
                                base: EitherReg::Phys(Register::SP),
                                offset: EitherOffset::Imm(offset),
                                dest: reg,
                                size,
                            },
                            InstMarker::Unmarked,
                        );
                        Some(reg)
                    },
                },
            },
        }
    }

    fn release(&mut self, vreg: VirtualReg, reg: Register, last: bool)
        requires
            old(self).wf(),
        ensures
            final(self).wf(),
            final(self)@ == old(self)@.release(vreg, reg, last),
    {
        let ghost before = self@;
        if last {
            let k = self.find(vreg);
            self.free.insert(reg);
            if k < self.regs.len() && self.regs[k].0 == vreg {
                self.regs.remove(k);
            }
        }
        proof {
            assert(self@ =~= before.release(vreg, reg, last));
        }
    }

    fn read(
        &mut self,
        vreg: Option<VirtualReg>,
        last: &HashMap<u32, usize>,
        i: usize,
        sizes: &SizeMap,
        Ghost(insts): Ghost<Seq<MarkedV<VirtualReg>>>,
    ) -> (r: Option<Option<Register>>)
        requires
            old(self).wf(),
            are_last_reads(last@, insts, insts.len() as int),
            0 <= i < insts.len(),
            vreg matches Some(v) ==> reads(insts[i as int].0, v),
        ensures
            match old(self)@.read(vreg, insts, i as int, sizes@) {
                Some((st, reg)) => final(self).wf() && final(self)@ == st && r == Some(reg),
                None => r is None,
            },
    {
        broadcast use vstd::std_specs::hash::group_hash_axioms;

        match vreg {
            None => Some(None),
            Some(vreg) => match self.load(vreg, sizes) {
                None => None,
                Some(reg) => {
                    let is_last = match last.get(&vreg.0) {
                        Some(n) => i >= *n,
                        None => true,
                    };
                    proof {
                        assert(vreg == VirtualReg(vreg.0));
                        assert(last@.contains_key(vreg.0));
                        assert(is_last == read_no_more(insts, i as int, vreg)) by {
                            if !is_last {
                                assert(insts[last@[vreg.0] as int] == insts[last@[vreg.0] as int]);
                            }
                        }
                    }
                    self.release(vreg, reg, is_last);
                    Some(Some(reg))
                },
            },
        }
    }

    fn spill(&mut self, sizes: &SizeMap) -> (ok: bool)
        requires
            old(self).wf(),
        ensures
            ok == old(self)@.spill(0, sizes@) is Some,
            ok ==> final(self).wf() && Some(final(self)@) == old(self)@.spill(0, sizes@),
    {
        let ghost before = self@;
        let mut k: usize = 0;
        while k < self.regs.len()
            invariant
                self.wf(),
                before == old(self)@,
                before.spill(0, sizes@) == self@.spill(k as int, sizes@),
                self@.regs == self.regs@,
            decreases self.regs.len() - k,
        {
            let ghost now = self@;
            let (vreg, reg) = self.regs[k];
            self.pending.push(reg);
            let offset = match self.stack.alloc_slot(vreg) {
                None => {
                    return false;
                },
                Some(offset) => offset,
            };
            let size = match sizes.get(vreg) {
                None => {
                    return false;
                },
                Some(size) => size,
            };
            proof {
                let stack = now.stack.with_place(vreg)->0;
                assert(self@ =~= (AllocV { stack, pending: now.pending.push(reg), ..now }));
            }
            self.push(
                Inst::Store {
                    source: reg,
                    base: EitherReg::Phys(Register::SP),
                    offset: EitherOffset::Imm(offset),
                    size,
                },
                InstMarker::Unmarked,
            );
            k = k + 1;
        }
        true
    }

    fn begin_call(&mut self, reserved: u32, sizes: &SizeMap) -> (ok: bool)
        requires
            old(self).wf(),
        ensures
            ok == old(self)@.begin_call(reserved, sizes@) is Some,
            ok ==> final(self).wf() && Some(final(self)@) == old(self)@.begin_call(
                reserved,
                sizes@,
            ),
    {
        if !self.spill(sizes) {
            return false;
        }
        let ghost spilled = self@;
        match U12::try_new((reserved % 0x1_0000) as u64 / 8) {
            None => false,
            Some(grown) => {
                self.stack.tmp_offset = grown;
                proof {
                    let stack = StackV { tmp_offset: grown, ..spilled.stack };
                    assert(self@ =~= (AllocV { stack, ..spilled }));
                }
                true
            },
        }
    }

    fn end_call(&mut self)
        requires
            old(self).wf(),
        ensures
            final(self).wf(),
            final(self)@ == old(self)@.end_call(),
    {
        let ghost before = self@;
        self.stack.tmp_offset = U12(0);
        self.regs = Vec::new();
        let mut i: usize = 0;
        proof {
            assert(self.pending@.take(0).to_set() =~= Set::empty());
            assert(before.free =~= before.free.union(self.pending@.take(0).to_set()));
        }
        while i < self.pending.len()
            invariant
                i <= self.pending.len(),
                self.pending@ == before.pending,
                self.wf(),
                self.free@ == before.free.union(self.pending@.take(i as int).to_set()),
                self.out@ == old(self).out@,
                self.regs@ == Seq::<(VirtualReg, Register)>::empty(),
                self.stack@ == (StackV { tmp_offset: U12(0), ..before.stack }),
            decreases self.pending.len() - i,
        {
            proof {
                let done = self.pending@.take(i as int);
                let reg = self.pending@[i as int];
                assert(self.pending@.take(i + 1) =~= done.push(reg));
                crate::ir::lemma_push_to_set(done, reg);
                assert(before.free.union(done.push(reg).to_set()) =~= before.free.union(
                    done.to_set(),
                ).insert(reg));
            }
            let reg = self.pending[i];
            self.free.insert(reg);
            i = i + 1;
        }
        proof {
            assert(self.pending@.take(i as int) =~= self.pending@);
        }
        self.pending = Vec::new();
        proof {
            assert(self@ =~= before.end_call());
        }
    }

    /// The instruction as it stands while the stack has grown.
    fn grow(&self, inst: Inst<VirtualReg>) -> (r: Option<Inst<VirtualReg>>)
        ensures
            match self@.grown(inst@) {
                Some(v) => r is Some && (r->0)@ == v,
                None => r is None,
            },
    {
        match inst {
            Inst::Load { base: EitherReg::Phys(Register::SP), offset, dest, size } => match offset {
                EitherOffset::Reg(_) => None,
                EitherOffset::Imm(o) => match shift(o, self.stack.tmp_offset) {
                    None => None,
                    Some(o) => Some(
                        Inst::Load {
                            base: EitherReg::Phys(Register::SP),
                            offset: EitherOffset::Imm(o),
                            dest,
                            size,
                        },
                    ),
                },
            },
            inst => Some(inst),
        }
    }

    fn choose_regs(
        &mut self,
        inst: &Inst<VirtualReg>,
        last: &HashMap<u32, usize>,
        i: usize,
        sizes: &SizeMap,
        Ghost(insts): Ghost<Seq<MarkedV<VirtualReg>>>,
    ) -> (r: Option<PhysicalRegs>)
        requires
            old(self).wf(),
            are_last_reads(last@, insts, insts.len() as int),
            0 <= i < insts.len(),
            old(self)@.grown(insts[i as int].0) == Some(inst@),
        ensures
            match old(self)@.choose_regs(inst@, insts, i as int, sizes@) {
                Some((st, regs)) => final(self).wf() && final(self)@ == st && r == Some(regs)
                    && instr::can_place(inst@, regs),
                None => r is None,
            },
    {
        let (use1, use2, use3, dest) = inst.regs_to_alloc();
        let dest = match self.set(dest) {
            Some(dest) => dest,
            None => {
                return None;
            },
        };
        let first = match self.read(use1, last, i, sizes, Ghost(insts)) {
            Some(reg) => reg,
            None => {
                return None;
            },
        };
        let second = match self.read(use2, last, i, sizes, Ghost(insts)) {
            Some(reg) => reg,
            None => {
                return None;
            },
        };
        let third = match self.read(use3, last, i, sizes, Ghost(insts)) {
            Some(reg) => reg,
            None => {
                return None;
            },
        };
        proof {
            instr::law_operands_suffice(inst@, (first, second, third, dest));
        }
        Some((first, second, third, dest))
    }

    fn step(
        &mut self,
        inst: Inst<VirtualReg>,
        marker: InstMarker,
        last: &HashMap<u32, usize>,
        i: usize,
        sizes: &SizeMap,
        Ghost(insts): Ghost<Seq<MarkedV<VirtualReg>>>,
    ) -> (ok: bool)
        requires
            old(self).wf(),
            are_last_reads(last@, insts, insts.len() as int),
            0 <= i < insts.len(),
            insts[i as int] == (inst@, marker),
        ensures
            ok == old(self)@.step(insts, i as int, sizes@) is Some,
            ok ==> final(self).wf() && Some(final(self)@) == old(self)@.step(
                insts,
                i as int,
                sizes@,
            ),
    {
        match inst {
            Inst::BeginFnCall { reserved_stack_size } => self.begin_call(
                reserved_stack_size,
                sizes,
            ),
            Inst::EndFnCall => {
                self.end_call();
                true
            },
            inst => match self.grow(inst) {
                None => false,
                Some(inst) => match self.choose_regs(&inst, last, i, sizes, Ghost(insts)) {
                    None => false,
                    Some(regs) => {
                        let inst = inst.alloc_regs(regs);
                        self.push(inst, marker);
                        true
                    },
                },
            },
        }
    }
}

/// The last instruction that reads each virtual register.
fn last_reads(instructions: &Vec<(Inst<VirtualReg>, InstMarker)>) -> (r: HashMap<u32, usize>)
    ensures
        are_last_reads(r@, marked_views(instructions@), instructions@.len() as int),
{
    broadcast use vstd::std_specs::hash::group_hash_axioms;

    let ghost insts = marked_views(instructions@);
    let mut last: HashMap<u32, usize> = HashMap::new();
    let mut i: usize = 0;
    while i < instructions.len()
        invariant
            i <= instructions.len(),
            insts == marked_views(instructions@),
            are_last_reads(last@, insts, i as int),
        decreases instructions.len() - i,
    {
        let ghost before = last@;
        let (use1, use2, use3, _) = instructions[i].0.regs_to_alloc();
        if let Some(v) = use1 {
            last.insert(v.0, i);
        }
        if let Some(v) = use2 {
            last.insert(v.0, i);
        }
        if let Some(v) = use3 {
            last.insert(v.0, i);
        }
        proof {
            let v = insts[i as int].0;
            assert(v == instructions@[i as int].0@);
            assert forall|r: u32| #[trigger] reads(v, VirtualReg(r)) implies last@.contains_key(r)
                && last@[r] == i by {}
            assert forall|r: u32| !reads(v, VirtualReg(r)) implies #[trigger] last@.contains_key(r)
                == before.contains_key(r) && (last@.contains_key(r) ==> last@[r] == before[r]) by {
                assert(use1 matches Some(u) ==> u == VirtualReg(u.0));
                assert(use2 matches Some(u) ==> u == VirtualReg(u.0));
                assert(use3 matches Some(u) ==> u == VirtualReg(u.0));
            }
            assert forall|r: u32, j: int|
                0 <= j < i + 1 && #[trigger] reads(
                    insts[j].0,
                    VirtualReg(r),
                ) implies last@.contains_key(r) && j <= last@[r] by {
                if !reads(v, VirtualReg(r)) {
                    assert(j < i);
                    assert(before.contains_key(r));
                }
            }
            assert forall|r: u32| #[trigger] last@.contains_key(r) implies last@[r] < i + 1
                && reads(insts[last@[r] as int].0, VirtualReg(r)) by {
                if !reads(v, VirtualReg(r)) {
                    assert(before.contains_key(r));
                }
            }
            assert(are_last_reads(last@, insts, i + 1));
        }
        i = i + 1;
    }
    last
}

/// Puts registers of the machine in the places of the virtual ones, and gives eight times the number
/// of places that the stack then has.
///
/// Virtual registers that no register can hold during a call are saved on the stack before it, and
/// loaded when they are read again.
pub fn allocate(
    instructions: Vec<(Inst<VirtualReg>, InstMarker)>,
    stack_size: u16,
    size_map: &SizeMap,
) -> (r: (Vec<(Inst<Register>, InstMarker)>, u16))
    requires
        allocation(marked_views(instructions@), stack_size, size_map@) is Some,
    ensures
        allocation(marked_views(instructions@), stack_size, size_map@) == Some(
            (marked_views(r.0@), r.1),
        ),
{
    match try_allocate(instructions, stack_size, size_map) {
        Some(r) => r,
        None => (Vec::new(), 0),
    }
}

/// As [`allocate`], with `None` if the instructions cannot do with the registers and the stack that
/// there are.
pub fn try_allocate(
    instructions: Vec<(Inst<VirtualReg>, InstMarker)>,
    stack_size: u16,
    size_map: &SizeMap,
) -> (r: Option<(Vec<(Inst<Register>, InstMarker)>, u16)>)
    ensures
        match allocation(marked_views(instructions@), stack_size, size_map@) {
            Some(a) => r is Some && a == (marked_views((r->0).0@), (r->0).1),
            None => r is None,
        },
{
    let ghost insts = marked_views(instructions@);
    let count: usize = instructions.len();
    let last = last_reads(&instructions);
    let mut st = Allocator::new(stack_size);
    let ghost start = st@;
    let mut i: usize = 0;
    for p in it: instructions.into_iter()
        invariant
            st.wf(),
            i == it.index(),
            insts == marked_views(it.seq()),
            insts.len() == count,
            are_last_reads(last@, insts, insts.len() as int),
            start.steps(insts, 0, size_map@) == st@.steps(insts, i as int, size_map@),
            start == AllocV::start(stack_size),
    {
        proof {
            assert(insts[i as int] == (p.0@, p.1));
        }
        let (inst, marker) = p;
        if !st.step(inst, marker, &last, i, size_map, Ghost(insts)) {
            return None;
        }
        i = i + 1;
    }
    match st.stack.size.checked_mul(8) {
        None => None,
        Some(extra) => Some((st.out, extra)),
    }
}

/// Whether all registers of an instruction are registers of the machine, and it is no marker of a
/// call.
pub open spec fn is_physical(v: InstV<Register>) -> bool {
    match v {
        InstV::CallTo(_) => true,
        InstV::Plain(inst) => match inst {
            Inst::AddImm { a, dest, .. } => a is Phys && dest is Phys,
            Inst::SubImm { a, dest, .. } => a is Phys && dest is Phys,
            Inst::Mov { src, dest } => src is Phys && dest is Phys,
            Inst::Load { base, offset, .. } => base is Phys && (offset matches EitherOffset::Reg(r)
                ==> r is Phys),
            Inst::Store { base, offset, .. } => base is Phys && (offset matches EitherOffset::Reg(r)
                ==> r is Phys),
            Inst::BeginFnCall { .. } => false,
            Inst::EndFnCall => false,
            _ => true,
        },
    }
}

/// Whether all numbers of an instruction have no more bits than their fields, and there is an
/// encoding of its form.
pub open spec fn in_range<R>(v: InstV<R>) -> bool {
    match v {
        InstV::CallTo(_) => true,
        InstV::Plain(inst) => match inst {
            Inst::AddImm { imm, .. } => imm matches AddImmVal::Fixed(i) ==> i.wf(),
            Inst::SubImm { imm, .. } => imm.wf(),
            Inst::Adrp { page_addr, .. } => page_addr matches PageAddr::Fixed(p) ==> p.wf(),
            Inst::CmpImm { imm, .. } => imm.wf(),
            Inst::Div { signed, .. } => signed,
            Inst::Load { offset, .. } => offset matches EitherOffset::Imm(o) && o.wf(),
            Inst::Store { offset, .. } => offset matches EitherOffset::Imm(o) && o.wf(),
            Inst::LoadPair { offset, .. } => offset.wf(),
            Inst::StorePair { offset, .. } => offset.wf(),
            Inst::BranchLink { offset } => offset is Fixed,
            Inst::Placeholder(_) => false,
            _ => true,
        },
    }
}

impl AllocV {
    /// No register holds two virtual ones, none that holds one is free, and all instructions so far
    /// have registers of the machine.
    pub open spec fn sound(self) -> bool {
        &&& in_order(self.regs)
        &&& forall|i: int, j: int|
            0 <= i < j < self.regs.len() ==> (#[trigger] self.regs[i]).1 != (
            #[trigger] self.regs[j]).1
        &&& forall|i: int|
            0 <= i < self.regs.len() ==> !self.free.contains((#[trigger] self.regs[i]).1)
        &&& forall|i: int| 0 <= i < self.out.len() ==> is_physical((#[trigger] self.out[i]).0)
    }

    /// All instructions so far are in range.
    pub open spec fn ranged(self) -> bool {
        forall|i: int| 0 <= i < self.out.len() ==> in_range((#[trigger] self.out[i]).0)
    }
}

pub(crate) proof fn lemma_take_sound(st: AllocV, vreg: VirtualReg)
    requires
        st.sound(),
        holder(st.regs, vreg) is None,
    ensures
        st.take(vreg) matches Some(r) ==> r.0.sound(),
{
    if let Some((next, reg)) = st.take(vreg) {
        law_lowest(st.free);
        law_holders(st.regs, vreg, reg, vreg);
        lemma_place_in(st.regs, vreg, 0);
        let k = place_in(st.regs, vreg, 0);
        assert forall|i: int| 0 <= i < next.regs.len() && i != k implies (#[trigger] next.regs[i]).1
            != reg && !next.free.contains(next.regs[i].1) by {
            if i < k {
                assert(next.regs[i] == st.regs[i]);
            } else {
                assert(next.regs[i] == st.regs[i - 1]);
            }
        }
        assert forall|i: int, j: int| 0 <= i < j < next.regs.len() implies (
        #[trigger] next.regs[i]).1 != (#[trigger] next.regs[j]).1 by {
            let old_i = if i < k {
                i
            } else {
                i - 1
            };
            let old_j = if j < k {
                j
            } else {
                j - 1
            };
            if i != k && j != k {
                assert(next.regs[i] == st.regs[old_i]);
                assert(next.regs[j] == st.regs[old_j]);
            }
        }
    }
}

proof fn lemma_release_sound(st: AllocV, vreg: VirtualReg, reg: Register, last: bool)
    requires
        st.sound(),
        holder(st.regs, vreg) == Some(reg),
    ensures
        st.release(vreg, reg, last).sound(),
{
    if last {
        let next = st.release(vreg, reg, last);
        law_holders(st.regs, vreg, reg, vreg);
        lemma_place_in(st.regs, vreg, 0);
        let k = place_in(st.regs, vreg, 0);
        assert forall|i: int| 0 <= i < next.regs.len() implies !next.free.contains(
            (#[trigger] next.regs[i]).1,
        ) by {
            if i < k {
                assert(next.regs[i] == st.regs[i]);
                assert(st.regs[i].1 != st.regs[k].1);
            } else {
                assert(next.regs[i] == st.regs[i + 1]);
                assert(st.regs[k].1 != st.regs[i + 1].1);
            }
        }
        assert forall|i: int, j: int| 0 <= i < j < next.regs.len() implies (
        #[trigger] next.regs[i]).1 != (#[trigger] next.regs[j]).1 by {
            let old_i = if i < k {
                i
            } else {
                i + 1
            };
            let old_j = if j < k {
                j
            } else {
                j + 1
            };
            assert(next.regs[i] == st.regs[old_i]);
            assert(next.regs[j] == st.regs[old_j]);
        }
    }
}

pub(crate) proof fn lemma_read_sound(
    st: AllocV,
    vreg: Option<VirtualReg>,
    insts: Seq<MarkedV<VirtualReg>>,
    i: int,
    sizes: Map<VirtualReg, ValSize>,
)
    requires
        st.sound(),
    ensures
        st.read(vreg, insts, i, sizes) matches Some(r) ==> r.0.sound() && (r.1 is Some
            == vreg is Some),
{
    if let Some(v) = vreg {
        if let Some((next, reg)) = st.load(v, sizes) {
            if holder(st.regs, v) is None {
                lemma_take_sound(st, v);
                law_holders(st.regs, v, reg, v);
            }
            lemma_release_sound(next, v, reg, read_no_more(insts, i, v));
        }
    }
}

proof fn lemma_spill_sound(st: AllocV, k: int, sizes: Map<VirtualReg, ValSize>)
    requires
        st.sound(),
        0 <= k,
    ensures
        st.spill(k, sizes) matches Some(r) ==> r.sound(),
    decreases st.regs.len() - k,
{
    if k < st.regs.len() && st.spill(k, sizes) is Some {
        let (vreg, reg) = st.regs[k];
        let stack = st.stack.with_place(vreg)->0;
        let offset = stack.place_of(vreg)->0;
        let next = (AllocV { stack, pending: st.pending.push(reg), ..st }).emit(
            Inst::Store {
                source: reg,
                base: EitherReg::Phys(Register::SP),
                offset: EitherOffset::Imm(offset),
                size: sizes[vreg],
            },
        );
        assert(next.sound());
        lemma_spill_sound(next, k + 1, sizes);
    }
}

proof fn lemma_placed_physical(v: InstV<VirtualReg>, regs: PhysicalRegs)
    requires
        instr::operands(v).0 is Some == regs.0 is Some,
        instr::operands(v).1 is Some == regs.1 is Some,
        instr::operands(v).2 is Some == regs.2 is Some,
        instr::operands(v).3 is Some == regs.3 is Some,
        !(v matches InstV::Plain(Inst::BeginFnCall { .. })),
        !(v matches InstV::Plain(Inst::EndFnCall)),
    ensures
        is_physical(instr::placed(v, regs)),
{
}

pub(crate) proof fn lemma_step_sound(
    st: AllocV,
    insts: Seq<MarkedV<VirtualReg>>,
    i: int,
    sizes: Map<VirtualReg, ValSize>,
)
    requires
        st.sound(),
    ensures
        st.step(insts, i, sizes) matches Some(r) ==> r.sound(),
{
    if let Some(next) = st.step(insts, i, sizes) {
        match insts[i].0 {
            InstV::Plain(Inst::BeginFnCall { reserved_stack_size }) => {
                lemma_spill_sound(st, 0, sizes);
            },
            InstV::Plain(Inst::EndFnCall) => {},
            w => {
                let v = st.grown(w)->0;
                let ops = instr::operands(v);
                let (s0, dest) = st.set(ops.3)->0;
                if let Some(d) = ops.3 {
                    if holder(st.regs, d) is None {
                        lemma_take_sound(st, d);
                    }
                }
                lemma_read_sound(s0, ops.0, insts, i, sizes);
                let (s1, first) = s0.read(ops.0, insts, i, sizes)->0;
                lemma_read_sound(s1, ops.1, insts, i, sizes);
                let (s2, second) = s1.read(ops.1, insts, i, sizes)->0;
                lemma_read_sound(s2, ops.2, insts, i, sizes);
                let (s3, third) = s2.read(ops.2, insts, i, sizes)->0;
                lemma_placed_physical(v, (first, second, third, dest));
            },
        }
    }
}

/// At no time during the allocation does one register hold two virtual ones, and no register that
/// holds one is free to be taken.
pub proof fn law_no_sharing(
    st: AllocV,
    insts: Seq<MarkedV<VirtualReg>>,
    i: int,
    sizes: Map<VirtualReg, ValSize>,
)
    requires
        st.sound(),
    ensures
        st.step(insts, i, sizes) matches Some(r) ==> r.sound(),
        st.steps(insts, i, sizes) matches Some(r) ==> r.sound(),
    decreases insts.len() - i,
{
    lemma_step_sound(st, insts, i, sizes);
    if i < insts.len() {
        if let Some(next) = st.step(insts, i, sizes) {
            law_no_sharing(next, insts, i + 1, sizes);
        }
    }
}

/// The allocation starts with no register holding anything, and all instructions that it gives have
/// registers of the machine in all places; the markers of calls are gone.
pub proof fn law_allocation_is_physical(
    insts: Seq<MarkedV<VirtualReg>>,
    stack_size: u16,
    sizes: Map<VirtualReg, ValSize>,
)
    ensures
        AllocV::start(stack_size).sound(),
        allocation(insts, stack_size, sizes) matches Some(r) ==> forall|i: int|
            0 <= i < r.0.len() ==> is_physical((#[trigger] (r.0)[i]).0),
{
    law_no_sharing(AllocV::start(stack_size), insts, 0, sizes);
}

proof fn lemma_read_ranged(
    st: AllocV,
    vreg: Option<VirtualReg>,
    insts: Seq<MarkedV<VirtualReg>>,
    i: int,
    sizes: Map<VirtualReg, ValSize>,
)
    requires
        st.ranged(),
    ensures
        st.read(vreg, insts, i, sizes) matches Some(r) ==> r.0.ranged() && (r.1 is Some
            == vreg is Some),
{
}

proof fn lemma_spill_ranged(st: AllocV, k: int, sizes: Map<VirtualReg, ValSize>)
    requires
        st.ranged(),
        0 <= k,
    ensures
        st.spill(k, sizes) matches Some(r) ==> r.ranged(),
    decreases st.regs.len() - k,
{
    if k < st.regs.len() && st.spill(k, sizes) is Some {
        let (vreg, reg) = st.regs[k];
        let stack = st.stack.with_place(vreg)->0;
        let offset = stack.place_of(vreg)->0;
        let next = (AllocV { stack, pending: st.pending.push(reg), ..st }).emit(
            Inst::Store {
                source: reg,
                base: EitherReg::Phys(Register::SP),
                offset: EitherOffset::Imm(offset),
                size: sizes[vreg],
            },
        );
        assert(next.ranged());
        lemma_spill_ranged(next, k + 1, sizes);
    }
}

proof fn lemma_step_ranged(
    st: AllocV,
    insts: Seq<MarkedV<VirtualReg>>,
    i: int,
    sizes: Map<VirtualReg, ValSize>,
)
    requires
        st.ranged(),
        in_range(insts[i].0),
    ensures
        st.step(insts, i, sizes) matches Some(r) ==> r.ranged(),
{
    if let Some(next) = st.step(insts, i, sizes) {
        match insts[i].0 {
            InstV::Plain(Inst::BeginFnCall { reserved_stack_size }) => {
                lemma_spill_ranged(st, 0, sizes);
            },
            InstV::Plain(Inst::EndFnCall) => {},
            w => {
                let v = st.grown(w)->0;
                assert(in_range(v));
                let ops = instr::operands(v);
                let (s0, dest) = st.set(ops.3)->0;
                lemma_read_ranged(s0, ops.0, insts, i, sizes);
                let (s1, first) = s0.read(ops.0, insts, i, sizes)->0;
                lemma_read_ranged(s1, ops.1, insts, i, sizes);
                let (s2, second) = s1.read(ops.1, insts, i, sizes)->0;
                lemma_read_ranged(s2, ops.2, insts, i, sizes);
                let (s3, third) = s2.read(ops.2, insts, i, sizes)->0;
                lemma_placed_ranged(v, (first, second, third, dest));
            },
        }
    }
}

proof fn lemma_placed_ranged(v: InstV<VirtualReg>, regs: PhysicalRegs)
    requires
        in_range(v),
        instr::operands(v).1 is Some == regs.1 is Some,
        instr::operands(v).2 is Some == regs.2 is Some,
    ensures
        in_range(instr::placed(v, regs)),
{
}

proof fn lemma_steps_ranged(
    st: AllocV,
    insts: Seq<MarkedV<VirtualReg>>,
    i: int,
    sizes: Map<VirtualReg, ValSize>,
)
    requires
        st.ranged(),
        0 <= i,
        forall|k: int| 0 <= k < insts.len() ==> in_range((#[trigger] insts[k]).0),
    ensures
        st.steps(insts, i, sizes) matches Some(r) ==> r.ranged(),
    decreases insts.len() - i,
{
    if i < insts.len() {
        lemma_step_ranged(st, insts, i, sizes);
        if let Some(next) = st.step(insts, i, sizes) {
            lemma_steps_ranged(next, insts, i + 1, sizes);
        }
    }
}

/// Instructions that are in range stay in range when they get registers of the machine, and so are
/// those that are added.
pub proof fn law_allocation_in_range(
    insts: Seq<MarkedV<VirtualReg>>,
    stack_size: u16,
    sizes: Map<VirtualReg, ValSize>,
)
    requires
        forall|k: int| 0 <= k < insts.len() ==> in_range((#[trigger] insts[k]).0),
    ensures
        allocation(insts, stack_size, sizes) matches Some(r) ==> forall|i: int|
            0 <= i < r.0.len() ==> in_range((#[trigger] (r.0)[i]).0),
{
    lemma_steps_ranged(AllocV::start(stack_size), insts, 0, sizes);
}

} // verus!
