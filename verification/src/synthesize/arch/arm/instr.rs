//! Instructions, and the words that encode them.

use vstd::arithmetic::power2::pow2;
use vstd::hash_map::StringHashMap;
use vstd::prelude::*;

use crate::ir;
use crate::ir::{Condition, Label, Terminator, ValSize, VirtualReg};
use crate::synthesize::arch::arm::reg;
use crate::synthesize::arch::arm::reg::Register;

verus! {

/// An unsigned number of 12 bits.
#[derive(Debug, Clone, Copy, PartialEq, Eq, Structural)]
pub struct U12(pub u16);

/// A signed number of 7 bits.
#[derive(Debug, Clone, Copy, PartialEq, Eq, Structural)]
pub struct I7(pub i8);

/// A signed number of 12 bits.
#[derive(Debug, Clone, Copy, PartialEq, Eq, Structural)]
pub struct I12(pub i16);

/// A signed number of 21 bits.
#[derive(Debug, Clone, Copy, PartialEq, Eq, Structural)]
pub struct I21(pub i32);

impl U12 {
    pub open spec fn wf(self) -> bool {
        self.0 < 4096
    }

    pub fn new(value: u16) -> (r: U12)
        requires
            value < 4096,
        ensures
            r == U12(value),
            r.wf(),
    {
        U12(value)
    }

    /// The number, if it has no more than 12 bits.
    pub fn try_new(value: u64) -> (r: Option<U12>)
        ensures
            r == u12_of(value as int),
    {
        if value < 4096 {
            Some(U12(value as u16))
        } else {
            None
        }
    }
}

/// The 12-bit number with a given value, if there is one.
pub open spec fn u12_of(n: int) -> Option<U12> {
    if 0 <= n < 4096 {
        Some(U12(n as u16))
    } else {
        None
    }
}

impl I7 {
    pub open spec fn wf(self) -> bool {
        -64 <= self.0 < 64
    }

    pub fn new(value: i8) -> (r: I7)
        requires
            -64 <= value < 64,
        ensures
            r == I7(value),
            r.wf(),
    {
        I7(value)
    }
}

impl I12 {
    pub open spec fn wf(self) -> bool {
        -2048 <= self.0 < 2048
    }

    pub fn new(value: i16) -> (r: I12)
        requires
            -2048 <= value < 2048,
        ensures
            r == I12(value),
            r.wf(),
    {
        I12(value)
    }
}

impl I21 {
    pub open spec fn wf(self) -> bool {
        -0x10_0000 <= self.0 < 0x10_0000
    }

    pub fn new(value: i32) -> (r: I21)
        requires
            -0x10_0000 <= value < 0x10_0000,
        ensures
            r == I21(value),
            r.wf(),
    {
        I21(value)
    }
}

/// An Armv8 instruction.
///
/// All Armv8 instructions are 32 bits long.
pub trait Instruction {
    spec fn word(&self) -> u32;

    fn encode(&self) -> (r: u32)
        ensures
            r == self.word(),
    ;
}

impl Instruction for u32 {
    open spec fn word(&self) -> u32 {
        *self
    }

    fn encode(&self) -> (r: u32) {
        *self
    }
}

/// An immediate shift specifier with a 16-bit step size.
#[derive(Debug, Clone, Copy, PartialEq, Eq, Structural)]
pub enum ImmShift16 {
    L0,
    L16,
    L32,
    L48,
}

pub open spec fn shift_bits(s: ImmShift16) -> u32 {
    match s {
        ImmShift16::L0 => 0,
        ImmShift16::L16 => 1,
        ImmShift16::L32 => 2,
        ImmShift16::L48 => 3,
    }
}

fn shift_to_u32(s: ImmShift16) -> (r: u32)
    ensures
        r == shift_bits(s),
{
    match s {
        ImmShift16::L0 => 0,
        ImmShift16::L16 => 1,
        ImmShift16::L32 => 2,
        ImmShift16::L48 => 3,
    }
}

pub open spec fn size_bits(s: ValSize) -> u32 {
    match s {
        ValSize::Byte => 0,
        ValSize::Halfword => 1,
        ValSize::Word => 2,
        ValSize::Doubleword => 3,
    }
}

fn size_to_u32(s: ValSize) -> (r: u32)
    ensures
        r == size_bits(s),
{
    match s {
        ValSize::Byte => 0,
        ValSize::Halfword => 1,
        ValSize::Word => 2,
        ValSize::Doubleword => 3,
    }
}

/// A value of a given size takes as many bytes as the bits for its size count doublings.
pub proof fn law_size_bits(s: ValSize)
    ensures
        ir::val_bytes(s) == pow2(size_bits(s) as nat),
{
    vstd::arithmetic::power2::lemma2_to64();
}

/// Input to an instruction that has variants for both immediate values and registers.
#[derive(Debug)]
pub enum Input<I> {
    Reg(Register),
    Imm(I),
}

/// The bits of a condition.
pub open spec fn cond_bits(cond: Condition) -> u32 {
    match cond {
        Condition::Equal => 0,
        Condition::NotEqual => 1,
        Condition::UnsignedGreaterOrEqual => 2,
        Condition::UnsignedLess => 3,
        Condition::Negative => 4,
        Condition::PositiveOrZero => 5,
        Condition::Overflow => 6,
        Condition::NoOverflow => 7,
        Condition::UnsignedGreater => 8,
        Condition::UnsignedLessOrEqual => 9,
        Condition::SignedGreaterOrEqual => 10,
        Condition::SignedLess => 11,
        Condition::SignedGreater => 12,
        Condition::SignedLessOrEqual => 13,
        Condition::Always => 14,
        Condition::Never => 15,
    }
}

/// Opposite conditions differ in their lowest bit alone.
pub proof fn law_cond_bits(c: Condition)
    ensures
        cond_bits(c) < 16,
        cond_bits(ir::opposite(c)) / 2 == cond_bits(c) / 2,
        cond_bits(ir::opposite(c)) % 2 == 1 - cond_bits(c) % 2,
{
}

fn cond_to_u32(cond: Condition) -> (r: u32)
    ensures
        r == cond_bits(cond),
        r < 16,
{
    match cond {
        Condition::Equal => 0,
        Condition::NotEqual => 1,
        Condition::UnsignedGreaterOrEqual => 2,
        Condition::UnsignedLess => 3,
        Condition::Negative => 4,
        Condition::PositiveOrZero => 5,
        Condition::Overflow => 6,
        Condition::NoOverflow => 7,
        Condition::UnsignedGreater => 8,
        Condition::UnsignedLessOrEqual => 9,
        Condition::SignedGreaterOrEqual => 10,
        Condition::SignedLess => 11,
        Condition::SignedGreater => 12,
        Condition::SignedLessOrEqual => 13,
        Condition::Always => 14,
        Condition::Never => 15,
    }
}

/// The lowest bits of the two's complement of a number.
#[verifier::opaque]
pub open spec fn low_bits(n: int, bits: nat) -> int {
    n % (pow2(bits) as int)
}

/// A signed number can be read back from its lowest bits, if there are enough of them: the half of
/// the values from the middle on stands for the negative numbers.
pub proof fn law_low_bits(n: int, bits: nat)
    requires
        0 < bits,
        -(pow2((bits - 1) as nat) as int) <= n < pow2((bits - 1) as nat),
    ensures
        0 <= low_bits(n, bits) < pow2(bits),
        n >= 0 ==> low_bits(n, bits) == n && low_bits(n, bits) < pow2((bits - 1) as nat),
        n < 0 ==> low_bits(n, bits) == n + pow2(bits) && low_bits(n, bits) >= pow2(
            (bits - 1) as nat,
        ),
{
    reveal(low_bits);
    vstd::arithmetic::power2::lemma_pow2_unfold(bits);
    vstd::arithmetic::power2::lemma_pow2_pos((bits - 1) as nat);
    let m = pow2(bits) as int;
    if n >= 0 {
        vstd::arithmetic::div_mod::lemma_small_mod(n as nat, m as nat);
    } else {
        vstd::arithmetic::div_mod::lemma_mod_add_multiples_vanish(n, m);
        vstd::arithmetic::div_mod::lemma_small_mod((n + m) as nat, m as nat);
    }
}

fn i32_to_u32(n: i32, bits: i32) -> (r: u32)
    requires
        0 <= bits <= 31,
    ensures
        r == low_bits(n as int, bits as nat),
{
    let m: u64 = 1u64 << (bits as u64);
    proof {
        reveal(low_bits);
            vstd::arithmetic::power2::lemma2_to64();
        vstd::arithmetic::power2::lemma_pow2_pos(bits as nat);
        if bits < 31 {
            vstd::arithmetic::power2::lemma_pow2_strictly_increases(bits as nat, 31);
        }
        vstd::bits::lemma_u64_shl_is_mul(1u64, bits as u64);
        vstd::arithmetic::power2::lemma_pow2_adds(bits as nat, (32 - bits) as nat);
    }
    let shifted: u64 = (n as i64 + 0x1_0000_0000) as u64;
    let r = (shifted % m) as u32;
    proof {
        let p = pow2(bits as nat) as int;
        let q = pow2((32 - bits) as nat) as int;
        assert(p * q == 0x1_0000_0000);
        vstd::arithmetic::div_mod::lemma_mod_multiples_vanish(q, n as int, p);
        assert((p * q + n) % p == n as int % p);
    }
    r
}

#[derive(Debug, Clone, Copy, PartialEq, Eq, Structural)]
pub enum BranchOffset {
    Fixed(i32),
    Dynamic(Label),
}

/// Where labels stand. Of two places for one label the later counts.
pub struct LabelMap {
    pub entries: Vec<(Label, i32)>,
}

pub open spec fn label_map(s: Seq<(Label, i32)>) -> Map<Label, i32>
    decreases s.len(),
{
    if s.len() == 0 {
        Map::empty()
    } else {
        label_map(s.drop_last()).insert(s.last().0, s.last().1)
    }
}

impl View for LabelMap {
    type V = Map<Label, i32>;

    open spec fn view(&self) -> Map<Label, i32> {
        label_map(self.entries@)
    }
}

impl LabelMap {
    pub fn new() -> (r: LabelMap)
        ensures
            r@ == Map::<Label, i32>::empty(),
    {
        LabelMap { entries: Vec::new() }
    }

    pub fn insert(&mut self, label: Label, index: i32)
        ensures
            final(self)@ == old(self)@.insert(label, index),
    {
        let ghost before = self.entries@;
        self.entries.push((label, index));
        proof {
            assert(self.entries@.drop_last() =~= before);
        }
    }

    pub fn get(&self, label: Label) -> (r: Option<i32>)
        ensures
            r == if self@.contains_key(label) {
                Some(self@[label])
            } else {
                None
            },
    {
        let ghost all = self.entries@;
        let mut i: usize = self.entries.len();
        proof {
            assert(all.subrange(0, all.len() as int) =~= all);
        }
        while i > 0
            invariant
                i <= self.entries.len(),
                all == self.entries@,
                self@.contains_key(label) == label_map(all.subrange(0, i as int)).contains_key(label),
                self@.contains_key(label) ==> self@[label] == label_map(
                    all.subrange(0, i as int),
                )[label],
            decreases i,
        {
            let ghost cut = all.subrange(0, i as int);
            proof {
                assert(cut.drop_last() =~= all.subrange(0, i - 1));
                assert(cut.last() == all[i - 1]);
            }
            i = i - 1;
            if self.entries[i].0 == label {
                return Some(self.entries[i].1);
            }
        }
        None
    }
}

/// A branch with a distance. `None` if the label has no place, or one that is too far away.
pub open spec fn fixed_branch(offset: BranchOffset, index: i32, labels: Map<Label, i32>) -> Option<
    BranchOffset,
> {
    match offset {
        BranchOffset::Fixed(_) => Some(offset),
        BranchOffset::Dynamic(label) => if labels.contains_key(label) && i32::MIN <= labels[label]
            - index <= i32::MAX {
            Some(BranchOffset::Fixed((labels[label] - index) as i32))
        } else {
            None
        },
    }
}

impl BranchOffset {
    /// Replaces a label by the distance to it from the instruction at `index`.
    pub fn to_fixed(self, index: i32, labels: &LabelMap) -> (r: BranchOffset)
        requires
            fixed_branch(self, index, labels@) is Some,
        ensures
            fixed_branch(self, index, labels@) == Some(r),
    {
        match self.try_to_fixed(index, labels) {
            Some(r) => r,
            None => self,
        }
    }

    /// As [`BranchOffset::to_fixed`], for any label.
    pub fn try_to_fixed(self, index: i32, labels: &LabelMap) -> (r: Option<BranchOffset>)
        ensures
            r == fixed_branch(self, index, labels@),
    {
        match self {
            BranchOffset::Fixed(_) => Some(self),
            BranchOffset::Dynamic(label) => match labels.get(label) {
                None => None,
                Some(place) => match place.checked_sub(index) {
                    Some(distance) => Some(BranchOffset::Fixed(distance)),
                    None => None,
                },
            },
        }
    }

    /// The lowest bits of the distance.
    pub fn encode_bits(self, bits: i32) -> (r: u32)
        requires
            self is Fixed,
            0 <= bits <= 31,
        ensures
            r == low_bits(self->Fixed_0 as int, bits as nat),
    {
        match self {
            BranchOffset::Fixed(offset) => i32_to_u32(offset, bits),
            BranchOffset::Dynamic(_) => 0,
        }
    }
}

pub enum FnOffset {
    Fixed(i32),
    Dynamic(String),
}

/// The number of 32 bits that is left of a number when its other bits are dropped.
pub open spec fn dropped_to_i32(n: int) -> int {
    let low = n % 0x1_0000_0000;
    if low < 0x8000_0000 {
        low
    } else {
        low - 0x1_0000_0000
    }
}

/// The number of 32 bits that is left of a number when its other bits are dropped.
pub fn drop_to_i32(n: u64) -> (r: i32)
    ensures
        r == dropped_to_i32(n as int),
{
    let low: u64 = n % 0x1_0000_0000;
    if low < 0x8000_0000 {
        low as i32
    } else {
        (low as i64 - 0x1_0000_0000) as i32
    }
}

/// The distance to a function. `None` if the function has no place, or one that is too far away.
pub open spec fn fn_distance(name: Seq<char>, index: i32, fns: Map<Seq<char>, usize>) -> Option<i32> {
    if !fns.contains_key(name) {
        None
    } else {
        let distance = dropped_to_i32(fns[name] as int) - index;
        if i32::MIN <= distance <= i32::MAX {
            Some(distance as i32)
        } else {
            None
        }
    }
}

/// A call with a distance.
pub open spec fn fixed_call(offset: FnOffset, index: i32, fns: Map<Seq<char>, usize>) -> Option<i32> {
    match offset {
        FnOffset::Fixed(distance) => Some(distance),
        FnOffset::Dynamic(name) => fn_distance(name@, index, fns),
    }
}

impl FnOffset {
    /// Replaces a name by the distance to the function from the instruction at `index`.
    pub fn fix(&mut self, index: i32, fns: &StringHashMap<usize>)
        requires
            fixed_call(*old(self), index, fns@) is Some,
        ensures
            *final(self) == FnOffset::Fixed(fixed_call(*old(self), index, fns@)->0),
    {
        if let Some(distance) = self.try_fix(index, fns) {
            *self = FnOffset::Fixed(distance);
        }
    }

    /// The distance to the function, if there is one.
    pub fn try_fix(&self, index: i32, fns: &StringHashMap<usize>) -> (r: Option<i32>)
        ensures
            r == fixed_call(*self, index, fns@),
    {
        match self {
            FnOffset::Fixed(distance) => Some(*distance),
            FnOffset::Dynamic(name) => find_distance(name.as_str(), index, fns),
        }
    }

    /// The lowest bits of the distance.
    pub fn encode_bits(self, bits: i32) -> (r: u32)
        requires
            self is Fixed,
            0 <= bits <= 31,
        ensures
            r == low_bits(self->Fixed_0 as int, bits as nat),
    {
        match self {
            FnOffset::Fixed(offset) => i32_to_u32(offset, bits),
            FnOffset::Dynamic(_) => 0,
        }
    }
}

/// The distance to a function from the instruction at `index`.
pub fn find_distance(name: &str, index: i32, fns: &StringHashMap<usize>) -> (r: Option<i32>)
    ensures
        r == fn_distance(name@, index, fns@),
{
    match fns.get(name) {
        None => None,
        Some(place) => drop_to_i32(*place as u64).checked_sub(index),
    }
}

#[derive(Debug, Clone, Copy, PartialEq, Eq, Structural)]
pub enum PageAddr {
    Fixed(I21),
    String(usize),
    Bss(u64),
}

/// The number of the page where an address lies, if it has no more than 21 bits.
pub open spec fn page_of(addr: int) -> Option<I21> {
    let page = dropped_to_i32(addr / 4096);
    if -0x10_0000 <= page < 0x10_0000 {
        Some(I21(page as i32))
    } else {
        None
    }
}

fn find_page(addr: u64) -> (r: Option<I21>)
    ensures
        r == page_of(addr as int),
{
    let page: i32 = drop_to_i32(addr / 4096);
    if -0x10_0000 <= page && page < 0x10_0000 {
        Some(I21(page))
    } else {
        None
    }
}

/// A linked address. `None` if the sum of the offsets or the number of the page is too large.
pub open spec fn linked_page(addr: PageAddr, str_table: usize, bss: u64) -> Option<PageAddr> {
    match addr {
        PageAddr::Fixed(_) => Some(addr),
        PageAddr::String(offset) => if str_table + offset > usize::MAX {
            None
        } else {
            match page_of(str_table + offset) {
                Some(page) => Some(PageAddr::Fixed(page)),
                None => None,
            }
        },
        PageAddr::Bss(offset) => if bss + offset > u64::MAX {
            None
        } else {
            match page_of(bss + offset) {
                Some(page) => Some(PageAddr::Fixed(page)),
                None => None,
            }
        },
    }
}

impl PageAddr {
    /// Replaces an offset by the page where it lies.
    pub fn link(&mut self, _index: i32, str_table_offset: usize, bss_offset: u64)
        requires
            linked_page(*old(self), str_table_offset, bss_offset) is Some,
        ensures
            linked_page(*old(self), str_table_offset, bss_offset) == Some(*final(self)),
    {
        if let Some(addr) = self.try_link(str_table_offset, bss_offset) {
            *self = addr;
        }
    }

    /// The linked address, if there is one.
    pub fn try_link(&self, str_table_offset: usize, bss_offset: u64) -> (r: Option<PageAddr>)
        ensures
            r == linked_page(*self, str_table_offset, bss_offset),
    {
        match self {
            PageAddr::Fixed(_) => Some(*self),
            PageAddr::String(offset) => match str_table_offset.checked_add(*offset) {
                None => None,
                Some(addr) => match find_page(addr as u64) {
                    Some(p) => Some(PageAddr::Fixed(p)),
                    None => None,
                },
            },
            PageAddr::Bss(offset) => match bss_offset.checked_add(*offset) {
                None => None,
                Some(addr) => match find_page(addr) {
                    Some(p) => Some(PageAddr::Fixed(p)),
                    None => None,
                },
            },
        }
    }

    pub fn get(&self) -> (r: I21)
        requires
            self is Fixed,
        ensures
            r == self->Fixed_0,
    {
        match self {
            PageAddr::Fixed(addr) => *addr,
            _ => I21(0),
        }
    }
}

#[derive(Debug, Clone, Copy, PartialEq, Eq, Structural)]
pub enum AddImmVal {
    Fixed(U12),
    String(usize),
    Bss(u64),
}

pub open spec fn linked_imm(imm: AddImmVal, str_table: usize, bss: u64) -> Option<AddImmVal> {
    match imm {
        AddImmVal::Fixed(_) => Some(imm),
        AddImmVal::String(offset) => if str_table + offset <= usize::MAX {
            Some(AddImmVal::Fixed(U12(((str_table + offset) % 4096) as u16)))
        } else {
            None
        },
        AddImmVal::Bss(offset) => if bss + offset <= u64::MAX {
            Some(AddImmVal::Fixed(U12(((bss + offset) % 4096) as u16)))
        } else {
            None
        },
    }
}

impl AddImmVal {
    /// Replaces an offset by its place in its page.
    pub fn link(&mut self, _index: i32, str_table_offset: usize, bss_offset: u64)
        requires
            linked_imm(*old(self), str_table_offset, bss_offset) is Some,
        ensures
            linked_imm(*old(self), str_table_offset, bss_offset) == Some(*final(self)),
    {
        if let Some(imm) = self.try_link(str_table_offset, bss_offset) {
            *self = imm;
        }
    }

    /// The linked value, if there is one.
    pub fn try_link(&self, str_table_offset: usize, bss_offset: u64) -> (r: Option<AddImmVal>)
        ensures
            r == linked_imm(*self, str_table_offset, bss_offset),
    {
        match self {
            AddImmVal::Fixed(_) => Some(*self),
            AddImmVal::String(offset) => match str_table_offset.checked_add(*offset) {
                None => None,
                Some(addr) => Some(AddImmVal::Fixed(U12((addr % 4096) as u16))),
            },
            AddImmVal::Bss(offset) => match bss_offset.checked_add(*offset) {
                None => None,
                Some(addr) => Some(AddImmVal::Fixed(U12((addr % 4096) as u16))),
            },
        }
    }

    pub fn get(&self) -> (r: U12)
        requires
            self is Fixed,
        ensures
            r == self->Fixed_0,
    {
        match self {
            AddImmVal::Fixed(imm) => *imm,
            _ => U12(0),
        }
    }
}

/// The page of an address and the place in the page together give the address, for addresses of no
/// more than 32 bits.
pub proof fn law_link_address(str_table: usize, offset: usize, bss: u64, bss_offset: u64)
    requires
        str_table + offset < 0x1_0000_0000,
        bss + bss_offset < 0x1_0000_0000,
    ensures
        linked_page(PageAddr::String(offset), str_table, bss) matches Some(PageAddr::Fixed(p)) ==> {
            &&& linked_imm(AddImmVal::String(offset), str_table, bss) matches Some(AddImmVal::Fixed(i))
            &&& p.wf() && i.wf()
            &&& p.0 * 4096 + i.0 == str_table + offset
        },
        linked_page(PageAddr::Bss(bss_offset), str_table, bss) matches Some(PageAddr::Fixed(p)) ==> {
            &&& linked_imm(AddImmVal::Bss(bss_offset), str_table, bss) matches Some(
                AddImmVal::Fixed(i),
            )
            &&& p.wf() && i.wf()
            &&& p.0 * 4096 + i.0 == bss + bss_offset
        },
{
}

#[derive(Debug, Clone, Copy, PartialEq, Eq, Structural)]
pub enum EitherReg {
    Virt(VirtualReg),
    Phys(Register),
}

impl EitherReg {
    pub open spec fn as_virtual(self) -> Option<VirtualReg> {
        match self {
            EitherReg::Virt(v) => Some(v),
            EitherReg::Phys(_) => None,
        }
    }

    pub fn to_virtual(&self) -> (r: Option<VirtualReg>)
        ensures
            r == self.as_virtual(),
    {
        match self {
            EitherReg::Virt(v) => Some(*v),
            EitherReg::Phys(_) => None,
        }
    }

    pub fn expect_phys(&self) -> (r: Register)
        requires
            self is Phys,
        ensures
            r == self->Phys_0,
    {
        match self {
            EitherReg::Phys(r) => *r,
            EitherReg::Virt(_) => Register::X0,
        }
    }
}

#[derive(Debug, Clone, Copy, PartialEq, Eq, Structural)]
pub enum EitherOffset {
    Reg(EitherReg),
    Imm(U12),
}

impl EitherOffset {
    pub open spec fn as_virtual(self) -> Option<VirtualReg> {
        match self {
            EitherOffset::Reg(r) => r.as_virtual(),
            EitherOffset::Imm(_) => None,
        }
    }

    pub fn to_virtual(&self) -> (r: Option<VirtualReg>)
        ensures
            r == self.as_virtual(),
    {
        match self {
            EitherOffset::Reg(r) => r.to_virtual(),
            EitherOffset::Imm(_) => None,
        }
    }
}

/// An instruction whose operands are registers of one sort: virtual ones, or those of the machine.
#[allow(inconsistent_fields)]
pub enum Inst<R> {
    /// ADD instruction.
    ///
    /// - Rn: first source register
    /// - Rm: second source register
    /// - Rd: destination register
    Add { a: R, b: R, dest: R },
    AddImm { a: EitherReg, imm: AddImmVal, dest: EitherReg },
    /// ADRP instruction.
    ///
    /// Forms a PC-relative address to a 4KB page. The immediate value is left-shifted by 12 bits to
    /// form an address which is a multiple of 4KB.
    ///
    /// - immlo: lowest 2 bits of address
    /// - immhi: highest 19 bits of address
    /// - Rd: destination register
    Adrp { page_addr: PageAddr, dest: R },
    /// B instruction.
    ///
    /// Branches unconditionally to a pc-relative offset.
    ///
    /// - imm26: offset encoded as offset/4
    Branch { offset: BranchOffset },
    /// B instruction with condition.
    ///
    /// - imm19: pc relative offset to jump to (encoded as offset/4)
    /// - cond: condition as specified in [`Condition`]
    BranchCond { offset: BranchOffset, cond: Condition },
    /// BL instruction.
    ///
    /// Stores pc+4 in lr and jumps to address.
    ///
    /// - imm26: pc relative offset (in instructions, not bytes) to jump to
    BranchLink { offset: FnOffset },
    /// CBNZ instruction.
    ///
    /// Branch if register is not zero.
    ///
    /// - imm19: jump offset (encoded offset/4)
    /// - Rt: register to compare against
    BranchNotZero { offset: BranchOffset, reg: R },
    /// CBZ instruction.
    ///
    /// Branch if register is zero.
    ///
    /// - imm19: jump offset (encoded offset/4)
    /// - Rt: register to compare against
    BranchZero { offset: BranchOffset, reg: R },
    /// CMP instruction (alias of SUBS).
    Cmp { a: R, b: R },
    /// CMP instruction (immediate) (alias of SUBS).
    CmpImm { val: R, imm: I12 },
    /// Conditional set (alias of CSINC).
    Cset { inv_cond: Condition, dest: R },
    /// SDIV instruction. There is no encoding of the unsigned division.
    ///
    /// - Rn: first source register
    /// - Rm: second source register
    /// - Rd: destination register
    Div { a: R, b: R, dest: R, signed: bool },
    /// LDR instruction.
    ///
    /// Loads a value from memory into a register.
    ///
    /// - imm12: offset from base (stored as a multiple of the size)
    /// - Rm: offset register
    /// - Rn: base pointer
    /// - Rt: destination register
    Load { base: EitherReg, offset: EitherOffset, dest: R, size: ValSize },
    /// LDP instruction.
    ///
    /// Loads two registers from memory and updates the base register.
    ///
    /// - imm7: signed offset (scaled by 8 bytes)
    /// - Rn: base register (writeback)
    /// - Rt: first destination register
    /// - Rt2: second destination register
    LoadPair { base: Register, first: R, second: R, offset: I7 },
    /// MOV instruction.
    ///
    /// Copies the value in the source register to the destination register.
    ///
    /// - Rm: source register
    /// - Rd: destination register
    Mov { src: EitherReg, dest: EitherReg },
    /// MOVK instruction.
    ///
    /// Moves a 16-bit immediate value into destination register, keeping all "non-affected" bits.
    ///
    /// - hw: shift left (0/16/32/48 encoded as 0/1/2/3)
    /// - imm16: 16-bit immediate value to (optionally shift) into destination register
    /// - Rd: destination register
    Movk { shift: ImmShift16, value: u16, dest: R },
    /// MOVZ instruction.
    ///
    /// Moves a 16-bit immediate value into destination register, zeroing all "non-affected" bits.
    /// Can be combined with [`Inst::Movk`] to move a 32 or 64-bit value.
    Movz { shift: ImmShift16, value: u16, dest: R },
    /// MUL instruction. (alias of MADD)
    ///
    /// Rd = Rn * Rm
    ///
    /// - Rn: first value register
    /// - Rm: second value register
    /// - Rd: destination register
    Mul { a: R, b: R, dest: R },
    /// NEG instruction. (alias of SUB)
    ///
    /// - Rm: value register
    /// - Rd: destination register
    Neg { val: R, dest: R },
    /// Return from subroutine to offset stored in link register.
    Ret { value: R },
    /// STR instruction.
    ///
    /// Calculates an address from a base pointer/stack pointer and an offset, and saves a register
    /// value to that address. There is no encoding of an offset in a register.
    ///
    /// - imm12: offset (stored as a multiple of the size)
    /// - Rn: base pointer
    /// - Rt: source register
    Store { source: R, base: EitherReg, offset: EitherOffset, size: ValSize },
    /// STP instruction.
    ///
    /// Stores two registers to memory and updates the base register.
    ///
    /// - imm7: signed offset (scaled by 8 bytes)
    /// - Rn: base register (writeback)
    /// - Rt: first source register
    /// - Rt2: second source register
    StorePair { base: Register, first: R, second: R, offset: I7 },
    /// SUB instruction.
    ///
    /// - Rn: first source register
    /// - Rm: second source register
    /// - Rd: destination register
    Sub { a: R, b: R, dest: R },
    /// SUB instruction with an immediate value.
    ///
    /// Rd = Rn - imm12
    SubImm { a: EitherReg, imm: U12, dest: EitherReg },
    /// SVC instruction.
    ///
    /// Supervisor call. 0x80 counts as a valid immediate value. Call number should be stored in X16.
    ///
    /// - imm16: 16-bit immediate value
    Svc { imm: u16 },
    /// Alias for [`Inst::Svc`].
    ///
    /// Uses (by convention) 0x80 for the svc immediate. Syscall number is stored in X16.
    Syscall,
    /// Used where a future instruction will be placed. It has no encoding.
    Placeholder(Terminator),
    /// Stands before the instructions of a call. It has no encoding.
    BeginFnCall { reserved_stack_size: u32 },
    /// Stands behind the instructions of a call. It has no encoding.
    EndFnCall,
}

/// What an [`Inst`] says. One that holds no text says what it holds.
pub enum InstV<R> {
    Plain(Inst<R>),
    /// A call of a function by its name.
    CallTo(Seq<char>),
}

impl<R> View for Inst<R> {
    type V = InstV<R>;

    open spec fn view(&self) -> InstV<R> {
        match self {
            Inst::BranchLink { offset: FnOffset::Dynamic(name) } => InstV::CallTo(name@),
            _ => InstV::Plain(*self),
        }
    }
}

/// The virtual registers of an instruction: up to three that it reads, and one that it sets.
pub type VirtualRegs = (
    Option<VirtualReg>,
    Option<VirtualReg>,
    Option<VirtualReg>,
    Option<VirtualReg>,
);

/// The registers that take the place of the virtual ones.
pub type PhysicalRegs = (Option<Register>, Option<Register>, Option<Register>, Option<Register>);

/// The virtual registers of an instruction.
pub open spec fn operands(v: InstV<VirtualReg>) -> VirtualRegs {
    match v {
        InstV::CallTo(_) => (None, None, None, None),
        InstV::Plain(inst) => match inst {
            Inst::Add { a, b, dest } => (Some(a), Some(b), None, Some(dest)),
            Inst::AddImm { a, dest, .. } => (a.as_virtual(), None, None, dest.as_virtual()),
            Inst::Sub { a, b, dest } => (Some(a), Some(b), None, Some(dest)),
            Inst::SubImm { a, dest, .. } => (a.as_virtual(), None, None, dest.as_virtual()),
            Inst::Mul { a, b, dest } => (Some(a), Some(b), None, Some(dest)),
            Inst::Div { a, b, dest, .. } => (Some(a), Some(b), None, Some(dest)),
            Inst::Neg { val, dest } => (Some(val), None, None, Some(dest)),
            Inst::Cmp { a, b } => (Some(a), Some(b), None, None),
            Inst::CmpImm { val, .. } => (Some(val), None, None, None),
            Inst::Cset { dest, .. } => (None, None, None, Some(dest)),
            Inst::Adrp { dest, .. } => (None, None, None, Some(dest)),
            Inst::Load { base, offset, dest, .. } => (
                base.as_virtual(),
                offset.as_virtual(),
                None,
                Some(dest),
            ),
            Inst::Mov { src, dest } => (src.as_virtual(), None, None, dest.as_virtual()),
            Inst::Movk { dest, .. } => (None, None, None, Some(dest)),
            Inst::Movz { dest, .. } => (None, None, None, Some(dest)),
            Inst::Store { source, base, offset, .. } => (
                Some(source),
                base.as_virtual(),
                offset.as_virtual(),
                None,
            ),
            Inst::StorePair { first, second, .. } => (Some(first), Some(second), None, None),
            Inst::LoadPair { first, second, .. } => (Some(first), Some(second), None, None),
            Inst::BranchNotZero { reg, .. } => (Some(reg), None, None, None),
            Inst::BranchZero { reg, .. } => (Some(reg), None, None, None),
            Inst::Ret { value } => (Some(value), None, None, None),
            _ => (None, None, None, None),
        },
    }
}

/// An operand behind the choice of a register for it.
pub open spec fn chosen(reg: Option<Register>, other: EitherReg) -> EitherReg {
    match reg {
        Some(r) => EitherReg::Phys(r),
        None => other,
    }
}

fn choose_reg(reg: Option<Register>, other: EitherReg) -> (r: EitherReg)
    ensures
        r == chosen(reg, other),
{
    match reg {
        Some(r) => EitherReg::Phys(r),
        None => other,
    }
}

/// An offset behind the choice of a register for it.
pub open spec fn chosen_offset(reg: Option<Register>, other: EitherOffset) -> EitherOffset {
    match reg {
        Some(r) => EitherOffset::Reg(EitherReg::Phys(r)),
        None => other,
    }
}

fn choose_offset(reg: Option<Register>, other: EitherOffset) -> (r: EitherOffset)
    ensures
        r == chosen_offset(reg, other),
{
    match reg {
        Some(r) => EitherOffset::Reg(EitherReg::Phys(r)),
        None => other,
    }
}

/// Whether the registers that an instruction cannot do without are there.
pub open spec fn can_place(v: InstV<VirtualReg>, regs: PhysicalRegs) -> bool {
    match v {
        InstV::CallTo(_) => true,
        InstV::Plain(inst) => match inst {
            Inst::Add { .. } | Inst::Sub { .. } | Inst::Mul { .. } | Inst::Div { .. } => regs.0 is Some
                && regs.1 is Some && regs.3 is Some,
            Inst::Neg { .. } => regs.0 is Some && regs.3 is Some,
            Inst::Cmp { .. } | Inst::StorePair { .. } | Inst::LoadPair { .. } => regs.0 is Some
                && regs.1 is Some,
            Inst::CmpImm { .. }
            | Inst::Store { .. }
            | Inst::BranchNotZero { .. }
            | Inst::BranchZero { .. }
            | Inst::Ret { .. } => regs.0 is Some,
            Inst::Cset { .. }
            | Inst::Adrp { .. }
            | Inst::Load { .. }
            | Inst::Movk { .. }
            | Inst::Movz { .. } => regs.3 is Some,
            _ => true,
        },
    }
}

/// An instruction with registers of the machine in place of the virtual ones.
pub open spec fn placed(v: InstV<VirtualReg>, regs: PhysicalRegs) -> InstV<Register> {
    match v {
        InstV::CallTo(name) => InstV::CallTo(name),
        InstV::Plain(inst) => InstV::Plain(
            match inst {
                Inst::Add { .. } => Inst::Add { a: regs.0->0, b: regs.1->0, dest: regs.3->0 },
                Inst::AddImm { a, imm, dest } => Inst::AddImm {
                    a: chosen(regs.0, a),
                    imm,
                    dest: chosen(regs.3, dest),
                },
                Inst::Sub { .. } => Inst::Sub { a: regs.0->0, b: regs.1->0, dest: regs.3->0 },
                Inst::SubImm { a, imm, dest } => Inst::SubImm {
                    a: chosen(regs.0, a),
                    imm,
                    dest: chosen(regs.3, dest),
                },
                Inst::Mul { .. } => Inst::Mul { a: regs.0->0, b: regs.1->0, dest: regs.3->0 },
                Inst::Div { signed, .. } => Inst::Div {
                    a: regs.0->0,
                    b: regs.1->0,
                    dest: regs.3->0,
                    signed,
                },
                Inst::Neg { .. } => Inst::Neg { val: regs.0->0, dest: regs.3->0 },
                Inst::Cmp { .. } => Inst::Cmp { a: regs.0->0, b: regs.1->0 },
                Inst::CmpImm { imm, .. } => Inst::CmpImm { val: regs.0->0, imm },
                Inst::Cset { inv_cond, .. } => Inst::Cset { inv_cond, dest: regs.3->0 },
                Inst::Adrp { page_addr, .. } => Inst::Adrp { page_addr, dest: regs.3->0 },
                Inst::Load { base, offset, size, .. } => Inst::Load {
                    base: chosen(regs.0, base),
                    offset: chosen_offset(regs.1, offset),
                    dest: regs.3->0,
                    size,
                },
                Inst::Mov { src, dest } => Inst::Mov {
                    src: chosen(regs.0, src),
                    dest: chosen(regs.3, dest),
                },
                Inst::Movk { shift, value, .. } => Inst::Movk { shift, value, dest: regs.3->0 },
                Inst::Movz { shift, value, .. } => Inst::Movz { shift, value, dest: regs.3->0 },
                Inst::Store { base, offset, size, .. } => Inst::Store {
                    source: regs.0->0,
                    base: chosen(regs.1, base),
                    offset: chosen_offset(regs.2, offset),
                    size,
                },
                Inst::StorePair { base, offset, .. } => Inst::StorePair {
                    base,
                    first: regs.0->0,
                    second: regs.1->0,
                    offset,
                },
                Inst::LoadPair { base, offset, .. } => Inst::LoadPair {
                    base,
                    first: regs.0->0,
                    second: regs.1->0,
                    offset,
                },
                Inst::BranchNotZero { offset, .. } => Inst::BranchNotZero {
                    offset,
                    reg: regs.0->0,
                },
                Inst::BranchZero { offset, .. } => Inst::BranchZero { offset, reg: regs.0->0 },
                Inst::Branch { offset } => Inst::Branch { offset },
                Inst::BranchCond { offset, cond } => Inst::BranchCond { offset, cond },
                Inst::BranchLink { offset } => Inst::BranchLink { offset },
                Inst::Placeholder(term) => Inst::Placeholder(term),
                Inst::BeginFnCall { reserved_stack_size } => Inst::BeginFnCall {
                    reserved_stack_size,
                },
                Inst::EndFnCall => Inst::EndFnCall,
                Inst::Ret { .. } => Inst::Ret { value: regs.0->0 },
                Inst::Svc { imm } => Inst::Svc { imm },
                Inst::Syscall => Inst::Syscall,
            },
        ),
    }
}

/// Each virtual register of an instruction has a place that a register of the machine can take, and
/// the instruction cannot do without those that it names outright.
pub proof fn law_operands_suffice(v: InstV<VirtualReg>, regs: PhysicalRegs)
    requires
        operands(v).0 is Some == regs.0 is Some,
        operands(v).1 is Some == regs.1 is Some,
        operands(v).2 is Some == regs.2 is Some,
        operands(v).3 is Some == regs.3 is Some,
    ensures
        can_place(v, regs),
{
}

impl Inst<VirtualReg> {
    /// The virtual registers that need a register of the machine: those that are read, and the one
    /// that is set.
    pub fn regs_to_alloc(&self) -> (r: VirtualRegs)
        ensures
            r == operands(self@),
    {
        match self {
            Inst::Add { a, b, dest } => (Some(*a), Some(*b), None, Some(*dest)),
            Inst::AddImm { a, dest, .. } => (a.to_virtual(), None, None, dest.to_virtual()),
            Inst::Sub { a, b, dest } => (Some(*a), Some(*b), None, Some(*dest)),
            Inst::SubImm { a, dest, .. } => (a.to_virtual(), None, None, dest.to_virtual()),
            Inst::Mul { a, b, dest } => (Some(*a), Some(*b), None, Some(*dest)),
            Inst::Div { a, b, dest, .. } => (Some(*a), Some(*b), None, Some(*dest)),
            Inst::Neg { val, dest } => (Some(*val), None, None, Some(*dest)),
            Inst::Cmp { a, b } => (Some(*a), Some(*b), None, None),
            Inst::CmpImm { val, .. } => (Some(*val), None, None, None),
            Inst::Cset { dest, .. } => (None, None, None, Some(*dest)),
            Inst::Adrp { dest, .. } => (None, None, None, Some(*dest)),
            Inst::Load { base, offset, dest, .. } => (
                base.to_virtual(),
                offset.to_virtual(),
                None,
                Some(*dest),
            ),
            Inst::Mov { src, dest } => (src.to_virtual(), None, None, dest.to_virtual()),
            Inst::Movk { dest, .. } => (None, None, None, Some(*dest)),
            Inst::Movz { dest, .. } => (None, None, None, Some(*dest)),
            Inst::Store { source, base, offset, .. } => (
                Some(*source),
                base.to_virtual(),
                offset.to_virtual(),
                None,
            ),
            Inst::StorePair { first, second, .. } => (Some(*first), Some(*second), None, None),
            Inst::LoadPair { first, second, .. } => (Some(*first), Some(*second), None, None),
            Inst::BranchNotZero { reg, .. } => (Some(*reg), None, None, None),
            Inst::BranchZero { reg, .. } => (Some(*reg), None, None, None),
            Inst::Ret { value } => (Some(*value), None, None, None),
            Inst::Branch { .. }
            | Inst::BranchCond { .. }
            | Inst::BranchLink { .. }
            | Inst::Placeholder(_)
            | Inst::BeginFnCall { .. }
            | Inst::EndFnCall
            | Inst::Svc { .. }
            | Inst::Syscall => (None, None, None, None),
        }
    }

    /// Puts registers of the machine in the places of the virtual ones.
    pub fn alloc_regs(self, regs: PhysicalRegs) -> (r: Inst<Register>)
        requires
            can_place(self@, regs),
        ensures
            r@ == placed(self@, regs),
    {
        // What stands in for a register that is not needed.
        let first = given(regs.0);
        let second = given(regs.1);
        let set = given(regs.3);
        match self {
            Inst::Add { .. } => Inst::Add { a: first, b: second, dest: set },
            Inst::AddImm { a, imm, dest } => Inst::AddImm {
                a: choose_reg(regs.0, a),
                imm,
                dest: choose_reg(regs.3, dest),
            },
            Inst::Sub { .. } => Inst::Sub { a: first, b: second, dest: set },
            Inst::SubImm { a, imm, dest } => Inst::SubImm {
                a: choose_reg(regs.0, a),
                imm,
                dest: choose_reg(regs.3, dest),
            },
            Inst::Mul { .. } => Inst::Mul { a: first, b: second, dest: set },
            Inst::Div { signed, .. } => Inst::Div { a: first, b: second, dest: set, signed },
            Inst::Neg { .. } => Inst::Neg { val: first, dest: set },
            Inst::Cmp { .. } => Inst::Cmp { a: first, b: second },
            Inst::CmpImm { imm, .. } => Inst::CmpImm { val: first, imm },
            Inst::Cset { inv_cond, .. } => Inst::Cset { inv_cond, dest: set },
            Inst::Adrp { page_addr, .. } => Inst::Adrp { page_addr, dest: set },
            Inst::Load { base, offset, size, .. } => Inst::Load {
                base: choose_reg(regs.0, base),
                offset: choose_offset(regs.1, offset),
                dest: set,
                size,
            },
            Inst::Mov { src, dest } => Inst::Mov {
                src: choose_reg(regs.0, src),
                dest: choose_reg(regs.3, dest),
            },
            Inst::Movk { shift, value, .. } => Inst::Movk { shift, value, dest: set },
            Inst::Movz { shift, value, .. } => Inst::Movz { shift, value, dest: set },
            Inst::Store { base, offset, size, .. } => Inst::Store {
                source: first,
                base: choose_reg(regs.1, base),
                offset: choose_offset(regs.2, offset),
                size,
            },
            Inst::StorePair { base, offset, .. } => Inst::StorePair { base, first, second, offset },
            Inst::LoadPair { base, offset, .. } => Inst::LoadPair { base, first, second, offset },
            Inst::BranchNotZero { offset, .. } => Inst::BranchNotZero { offset, reg: first },
            Inst::BranchZero { offset, .. } => Inst::BranchZero { offset, reg: first },
            Inst::Branch { offset } => Inst::Branch { offset },
            Inst::BranchCond { offset, cond } => Inst::BranchCond { offset, cond },
            Inst::BranchLink { offset } => Inst::BranchLink { offset },
            Inst::Placeholder(term) => Inst::Placeholder(term),
            Inst::BeginFnCall { reserved_stack_size } => Inst::BeginFnCall { reserved_stack_size },
            Inst::EndFnCall => Inst::EndFnCall,
            Inst::Ret { .. } => Inst::Ret { value: first },
            Inst::Svc { imm } => Inst::Svc { imm },
            Inst::Syscall => Inst::Syscall,
        }
    }
}

fn given(reg: Option<Register>) -> (r: Register)
    ensures
        reg is Some ==> reg == Some(r),
{
    match reg {
        Some(r) => r,
        None => Register::X0,
    }
}

/// An instruction whose branch has a distance. `None` if its label has no place in reach.
pub open spec fn with_distance(v: InstV<Register>, index: i32, labels: Map<Label, i32>) -> Option<
    InstV<Register>,
> {
    match v {
        InstV::Plain(Inst::Branch { offset }) => match fixed_branch(offset, index, labels) {
            Some(offset) => Some(InstV::Plain(Inst::Branch { offset })),
            None => None,
        },
        InstV::Plain(Inst::BranchCond { offset, cond }) => match fixed_branch(
            offset,
            index,
            labels,
        ) {
            Some(offset) => Some(InstV::Plain(Inst::BranchCond { offset, cond })),
            None => None,
        },
        InstV::Plain(Inst::BranchNotZero { offset, reg }) => match fixed_branch(
            offset,
            index,
            labels,
        ) {
            Some(offset) => Some(InstV::Plain(Inst::BranchNotZero { offset, reg })),
            None => None,
        },
        InstV::Plain(Inst::BranchZero { offset, reg }) => match fixed_branch(
            offset,
            index,
            labels,
        ) {
            Some(offset) => Some(InstV::Plain(Inst::BranchZero { offset, reg })),
            None => None,
        },
        _ => Some(v),
    }
}

/// An instruction with the addresses of what it refers to. `None` if there is no such address.
pub open spec fn linked(
    v: InstV<Register>,
    index: i32,
    fns: Map<Seq<char>, usize>,
    str_table: usize,
    bss: u64,
) -> Option<InstV<Register>> {
    match v {
        InstV::CallTo(name) => match fn_distance(name, index, fns) {
            Some(distance) => Some(
                InstV::Plain(Inst::BranchLink { offset: FnOffset::Fixed(distance) }),
            ),
            None => None,
        },
        InstV::Plain(Inst::Adrp { page_addr, dest }) => match linked_page(
            page_addr,
            str_table,
            bss,
        ) {
            Some(page_addr) => Some(InstV::Plain(Inst::Adrp { page_addr, dest })),
            None => None,
        },
        InstV::Plain(Inst::AddImm { a, imm, dest }) => match linked_imm(imm, str_table, bss) {
            Some(imm) => Some(InstV::Plain(Inst::AddImm { a, imm, dest })),
            None => None,
        },
        _ => Some(v),
    }
}

/// Whether an instruction has an encoding: it is none of the markers and placeholders, all its
/// registers are registers of the machine, all its distances and addresses are known, and all its
/// numbers have no more bits than their fields.
pub open spec fn encodable(v: InstV<Register>) -> bool {
    match v {
        InstV::CallTo(_) => false,
        InstV::Plain(inst) => match inst {
            Inst::AddImm { a, imm, dest } => a is Phys && dest is Phys && (imm matches AddImmVal::Fixed(
                i,
            ) && i.wf()),
            Inst::SubImm { a, imm, dest } => a is Phys && dest is Phys && imm.wf(),
            Inst::Adrp { page_addr, .. } => page_addr matches PageAddr::Fixed(p) && p.wf(),
            Inst::Branch { offset } => offset is Fixed,
            Inst::BranchCond { offset, .. } => offset is Fixed,
            Inst::BranchNotZero { offset, .. } => offset is Fixed,
            Inst::BranchZero { offset, .. } => offset is Fixed,
            Inst::BranchLink { offset } => offset is Fixed,
            Inst::CmpImm { imm, .. } => imm.wf(),
            Inst::Div { signed, .. } => signed,
            Inst::Load { base, offset, .. } => base is Phys && match offset {
                EitherOffset::Reg(r) => r is Phys,
                EitherOffset::Imm(imm) => imm.wf(),
            },
            Inst::Store { base, offset, .. } => base is Phys && match offset {
                EitherOffset::Reg(_) => false,
                EitherOffset::Imm(imm) => imm.wf(),
            },
            Inst::LoadPair { offset, .. } => offset.wf(),
            Inst::StorePair { offset, .. } => offset.wf(),
            Inst::Mov { src, dest } => src is Phys && dest is Phys,
            Inst::Placeholder(_) => false,
            Inst::BeginFnCall { .. } => false,
            Inst::EndFnCall => false,
            _ => true,
        },
    }
}

/// A word made of an operation and the fields at bits 16, 10, 5 and 0.
#[verifier::opaque]
pub open spec fn word_of(op: int, at16: int, at10: int, at5: int, at0: int) -> int {
    op + at16 * 0x1_0000 + at10 * 0x400 + at5 * 0x20 + at0
}

/// The word that encodes an instruction.
pub open spec fn encoding(v: InstV<Register>) -> int {
    match v {
        InstV::CallTo(_) => 0,
        InstV::Plain(inst) => match inst {
            Inst::Add { a, b, dest } => word_of(
                0x8b00_0000,
                reg::number(b) as int,
                0,
                reg::number(a) as int,
                reg::number(dest) as int,
            ),
            Inst::AddImm { a, imm, dest } => word_of(
                0x9100_0000,
                0,
                (imm->Fixed_0).0 as int,
                reg::number(a->Phys_0) as int,
                reg::number(dest->Phys_0) as int,
            ),
            Inst::Adrp { page_addr, dest } => {
                let page = low_bits((page_addr->Fixed_0).0 as int, 21);
                word_of(
                    0x9000_0000 + (page % 4) * 0x2000_0000,
                    0,
                    0,
                    page / 4,
                    reg::number(dest) as int,
                )
            },
            Inst::Branch { offset } => 0x1400_0000 + low_bits(offset->Fixed_0 as int, 26),
            Inst::BranchCond { offset, cond } => word_of(
                0x5400_0000,
                0,
                0,
                low_bits(offset->Fixed_0 as int, 19),
                cond_bits(cond) as int,
            ),
            Inst::BranchLink { offset } => 0x9400_0000 + low_bits(offset->Fixed_0 as int, 26),
            Inst::BranchNotZero { offset, reg } => word_of(
                0xb500_0000,
                0,
                0,
                low_bits(offset->Fixed_0 as int, 19),
                reg::number(reg) as int,
            ),
            Inst::BranchZero { offset, reg } => word_of(
                0xb400_0000,
                0,
                0,
                low_bits(offset->Fixed_0 as int, 19),
                reg::number(reg) as int,
            ),
            Inst::Cmp { a, b } => word_of(
                0xeb00_0000,
                reg::number(b) as int,
                0,
                reg::number(a) as int,
                31,
            ),
            Inst::CmpImm { val, imm } => word_of(
                0xf100_0000,
                0,
                low_bits(imm.0 as int, 12),
                reg::number(val) as int,
                31,
            ),
            Inst::Cset { inv_cond, dest } => word_of(
                0x9a9f_07e0 + cond_bits(inv_cond) * 0x1000,
                0,
                0,
                0,
                reg::number(dest) as int,
            ),
            Inst::Div { a, b, dest, .. } => word_of(
                0x9ac0_0c00,
                reg::number(b) as int,
                0,
                reg::number(a) as int,
                reg::number(dest) as int,
            ),
            Inst::Load { base, offset, dest, size } => match offset {
                EitherOffset::Reg(r) => word_of(
                    0x3860_e800 + size_bits(size) * 0x4000_0000,
                    reg::number(r->Phys_0) as int,
                    0,
                    reg::number(base->Phys_0) as int,
                    reg::number(dest) as int,
                ),
                EitherOffset::Imm(imm) => word_of(
                    0x3940_0000 + size_bits(size) * 0x4000_0000,
                    0,
                    imm.0 as int,
                    reg::number(base->Phys_0) as int,
                    reg::number(dest) as int,
                ),
            },
            Inst::LoadPair { base, first, second, offset } => word_of(
                0xa8c0_0000 + low_bits(offset.0 as int, 7) * 0x8000,
                0,
                reg::number(second) as int,
                reg::number(base) as int,
                reg::number(first) as int,
            ),
            Inst::Mov { src, dest } => if src->Phys_0 == Register::SP || dest->Phys_0
                == Register::SP {
                word_of(
                    0x9100_0000,
                    0,
                    0,
                    reg::number(src->Phys_0) as int,
                    reg::number(dest->Phys_0) as int,
                )
            } else {
                word_of(
                    0xaa00_03e0,
                    reg::number(src->Phys_0) as int,
                    0,
                    0,
                    reg::number(dest->Phys_0) as int,
                )
            },
            Inst::Movk { shift, value, dest } => word_of(
                0xf280_0000 + shift_bits(shift) * 0x20_0000,
                0,
                0,
                value as int,
                reg::number(dest) as int,
            ),
            Inst::Movz { shift, value, dest } => word_of(
                0xd280_0000 + shift_bits(shift) * 0x20_0000,
                0,
                0,
                value as int,
                reg::number(dest) as int,
            ),
            Inst::Mul { a, b, dest } => word_of(
                0x9b00_7c00,
                reg::number(b) as int,
                0,
                reg::number(a) as int,
                reg::number(dest) as int,
            ),
            Inst::Neg { val, dest } => word_of(
                0xcb00_0000,
                reg::number(val) as int,
                0,
                31,
                reg::number(dest) as int,
            ),
            Inst::Ret { .. } => 0xd65f_03c0,
            Inst::Store { base, offset, source, size } => word_of(
                0x3900_0000 + size_bits(size) * 0x4000_0000,
                0,
                (offset->Imm_0).0 as int,
                reg::number(base->Phys_0) as int,
                reg::number(source) as int,
            ),
            Inst::StorePair { base, first, second, offset } => word_of(
                0xa980_0000 + low_bits(offset.0 as int, 7) * 0x8000,
                0,
                reg::number(second) as int,
                reg::number(base) as int,
                reg::number(first) as int,
            ),
            Inst::Sub { a, b, dest } => word_of(
                0xcb00_0000,
                reg::number(b) as int,
                0,
                reg::number(a) as int,
                reg::number(dest) as int,
            ),
            Inst::SubImm { a, imm, dest } => word_of(
                0xd100_0000,
                0,
                imm.0 as int,
                reg::number(a->Phys_0) as int,
                reg::number(dest->Phys_0) as int,
            ),
            Inst::Svc { imm } => 0xd400_0001 + imm * 0x20,
            Inst::Syscall => 0xd400_1001,
            Inst::Placeholder(_) => 0,
            Inst::BeginFnCall { .. } => 0,
            Inst::EndFnCall => 0,
        },
    }
}

/// The word with the given fields, none of which reaches into another.
fn make_word(op: u32, at16: u32, at10: u32, at5: u32, at0: u32) -> (r: u32)
    requires
        word_of(op as int, at16 as int, at10 as int, at5 as int, at0 as int) <= u32::MAX,
    ensures
        r == word_of(op as int, at16 as int, at10 as int, at5 as int, at0 as int),
{
    proof {
        reveal(word_of);
    }
    op + at16 * 0x1_0000 + at10 * 0x400 + at5 * 0x20 + at0
}

proof fn lemma_low_bits_bound(n: int, bits: nat)
    ensures
        0 <= low_bits(n, bits) < pow2(bits),
        pow2(7) == 0x80,
        pow2(12) == 0x1000,
        pow2(19) == 0x8_0000,
        pow2(21) == 0x20_0000,
        pow2(26) == 0x400_0000,
{
    reveal(low_bits);
    vstd::arithmetic::power2::lemma2_to64();
    vstd::arithmetic::power2::lemma_pow2_pos(bits);
    vstd::arithmetic::div_mod::lemma_mod_bound(n, pow2(bits) as int);
}

/// An instruction that has an encoding fills no more than one word.
pub proof fn law_encoding_fits(v: InstV<Register>)
    requires
        encodable(v),
    ensures
        0 <= encoding(v) <= u32::MAX,
{
    reveal(word_of);
    reg::lemma_numbers();
    if let InstV::Plain(inst) = v {
        match inst {
            Inst::Adrp { page_addr, .. } => lemma_low_bits_bound(
                (page_addr->Fixed_0).0 as int,
                21,
            ),
            Inst::Branch { offset } => lemma_low_bits_bound(offset->Fixed_0 as int, 26),
            Inst::BranchCond { offset, .. } => lemma_low_bits_bound(offset->Fixed_0 as int, 19),
            Inst::BranchLink { offset } => lemma_low_bits_bound(offset->Fixed_0 as int, 26),
            Inst::BranchNotZero { offset, .. } => lemma_low_bits_bound(
                offset->Fixed_0 as int,
                19,
            ),
            Inst::BranchZero { offset, .. } => lemma_low_bits_bound(offset->Fixed_0 as int, 19),
            Inst::CmpImm { imm, .. } => lemma_low_bits_bound(imm.0 as int, 12),
            Inst::LoadPair { offset, .. } => lemma_low_bits_bound(offset.0 as int, 7),
            Inst::StorePair { offset, .. } => lemma_low_bits_bound(offset.0 as int, 7),
            _ => {},
        }
    }
}

/// Whether an offset has no more bits than its field.
fn offset_fits(offset: EitherOffset, reg_allowed: bool) -> (r: bool)
    ensures
        r == match offset {
            EitherOffset::Reg(r) => reg_allowed && r is Phys,
            EitherOffset::Imm(imm) => imm.wf(),
        },
{
    match offset {
        EitherOffset::Reg(EitherReg::Phys(_)) => reg_allowed,
        EitherOffset::Reg(EitherReg::Virt(_)) => false,
        EitherOffset::Imm(imm) => imm.0 < 4096,
    }
}

fn is_phys(r: EitherReg) -> (b: bool)
    ensures
        b == r is Phys,
{
    match r {
        EitherReg::Phys(_) => true,
        EitherReg::Virt(_) => false,
    }
}

fn is_fixed(offset: BranchOffset) -> (b: bool)
    ensures
        b == offset is Fixed,
{
    match offset {
        BranchOffset::Fixed(_) => true,
        BranchOffset::Dynamic(_) => false,
    }
}

impl Inst<Register> {
    /// Replaces the label of a branch by the distance to it from the place `index`.
    pub fn fix_labels(&mut self, index: i32, labels: &LabelMap)
        requires
            with_distance(old(self)@, index, labels@) is Some,
        ensures
            with_distance(old(self)@, index, labels@) == Some(final(self)@),
    {
        self.try_fix_labels(index, labels);
    }

    /// As [`Inst::fix_labels`], with the answer whether the label has a place in reach.
    pub fn try_fix_labels(&mut self, index: i32, labels: &LabelMap) -> (ok: bool)
        ensures
            ok == with_distance(old(self)@, index, labels@) is Some,
            ok ==> with_distance(old(self)@, index, labels@) == Some(final(self)@),
            !ok ==> *final(self) == *old(self),
    {
        let fixed = match self {
            Inst::Branch { offset } => match offset.try_to_fixed(index, labels) {
                Some(offset) => Inst::Branch { offset },
                None => {
                    return false;
                },
            },
            Inst::BranchCond { offset, cond } => match offset.try_to_fixed(index, labels) {
                Some(offset) => Inst::BranchCond { offset, cond: *cond },
                None => {
                    return false;
                },
            },
            Inst::BranchNotZero { offset, reg } => match offset.try_to_fixed(index, labels) {
                Some(offset) => Inst::BranchNotZero { offset, reg: *reg },
                None => {
                    return false;
                },
            },
            Inst::BranchZero { offset, reg } => match offset.try_to_fixed(index, labels) {
                Some(offset) => Inst::BranchZero { offset, reg: *reg },
                None => {
                    return false;
                },
            },
            _ => {
                return true;
            },
        };
        *self = fixed;
        true
    }

    /// Replaces what refers to a function, to the string table or to the static memory by a
    /// distance or an address.
    pub fn link(
        &mut self,
        index: i32,
        fns: &StringHashMap<usize>,
        str_table_offset: usize,
        bss_offset: u64,
    )
        requires
            linked(old(self)@, index, fns@, str_table_offset, bss_offset) is Some,
        ensures
            linked(old(self)@, index, fns@, str_table_offset, bss_offset) == Some(final(self)@),
    {
        self.try_link(index, fns, str_table_offset, bss_offset);
    }

    /// As [`Inst::link`], with the answer whether there is such an address.
    pub fn try_link(
        &mut self,
        index: i32,
        fns: &StringHashMap<usize>,
        str_table_offset: usize,
        bss_offset: u64,
    ) -> (ok: bool)
        ensures
            ok == linked(old(self)@, index, fns@, str_table_offset, bss_offset) is Some,
            ok ==> linked(old(self)@, index, fns@, str_table_offset, bss_offset) == Some(
                final(self)@,
            ),
            !ok ==> *final(self) == *old(self),
    {
        let fixed = match self {
            Inst::BranchLink { offset } => match offset.try_fix(index, fns) {
                Some(distance) => Inst::BranchLink { offset: FnOffset::Fixed(distance) },
                None => {
                    return false;
                },
            },
            Inst::Adrp { page_addr, dest } => match page_addr.try_link(
                str_table_offset,
                bss_offset,
            ) {
                Some(page_addr) => Inst::Adrp { page_addr, dest: *dest },
                None => {
                    return false;
                },
            },
            Inst::AddImm { a, imm, dest } => match imm.try_link(str_table_offset, bss_offset) {
                Some(imm) => Inst::AddImm { a: *a, imm, dest: *dest },
                None => {
                    return false;
                },
            },
            _ => {
                return true;
            },
        };
        *self = fixed;
        true
    }

    /// Whether the instruction has an encoding.
    pub fn is_encodable(&self) -> (r: bool)
        ensures
            r == encodable(self@),
    {
        match self {
            Inst::AddImm { a, imm, dest } => is_phys(*a) && is_phys(*dest) && match imm {
                AddImmVal::Fixed(i) => i.0 < 4096,
                _ => false,
            },
            Inst::SubImm { a, imm, dest } => is_phys(*a) && is_phys(*dest) && imm.0 < 4096,
            Inst::Adrp { page_addr, .. } => match page_addr {
                PageAddr::Fixed(p) => -0x10_0000 <= p.0 && p.0 < 0x10_0000,
                _ => false,
            },
            Inst::Branch { offset } => is_fixed(*offset),
            Inst::BranchCond { offset, .. } => is_fixed(*offset),
            Inst::BranchNotZero { offset, .. } => is_fixed(*offset),
            Inst::BranchZero { offset, .. } => is_fixed(*offset),
            Inst::BranchLink { offset } => match offset {
                FnOffset::Fixed(_) => true,
                FnOffset::Dynamic(_) => false,
            },
            Inst::CmpImm { imm, .. } => -2048 <= imm.0 && imm.0 < 2048,
            Inst::Div { signed, .. } => *signed,
            Inst::Load { base, offset, .. } => is_phys(*base) && offset_fits(*offset, true),
            Inst::Store { base, offset, .. } => is_phys(*base) && offset_fits(*offset, false),
            Inst::LoadPair { offset, .. } => -64 <= offset.0 && offset.0 < 64,
            Inst::StorePair { offset, .. } => -64 <= offset.0 && offset.0 < 64,
            Inst::Mov { src, dest } => is_phys(*src) && is_phys(*dest),
            Inst::Placeholder(_) | Inst::BeginFnCall { .. } | Inst::EndFnCall => false,
            _ => true,
        }
    }

    /// The word that encodes the instruction.
    pub fn encode(self) -> (r: u32)
        requires
            encodable(self@),
        ensures
            r == encoding(self@),
    {
        match self {
            Inst::Add { .. }
            | Inst::AddImm { .. }
            | Inst::Sub { .. }
            | Inst::SubImm { .. }
            | Inst::Mul { .. }
            | Inst::Div { .. }
            | Inst::Neg { .. }
            | Inst::Cmp { .. }
            | Inst::CmpImm { .. }
            | Inst::Cset { .. } => self.encode_arithmetic(),
            Inst::Branch { .. }
            | Inst::BranchCond { .. }
            | Inst::BranchLink { .. }
            | Inst::BranchNotZero { .. }
            | Inst::BranchZero { .. }
            | Inst::Ret { .. }
            | Inst::Svc { .. }
            | Inst::Syscall => self.encode_branch(),
            Inst::Load { .. }
            | Inst::LoadPair { .. }
            | Inst::Store { .. }
            | Inst::StorePair { .. } => self.encode_memory(),
            Inst::Adrp { .. }
            | Inst::Mov { .. }
            | Inst::Movk { .. }
            | Inst::Movz { .. } => self.encode_move(),
            Inst::Placeholder(_) | Inst::BeginFnCall { .. } | Inst::EndFnCall => 0,
        }
    }

    fn encode_arithmetic(self) -> (r: u32)
        requires
            encodable(self@),
            self is Add
                || self is AddImm
                || self is Sub
                || self is SubImm
                || self is Mul
                || self is Div
                || self is Neg
                || self is Cmp
                || self is CmpImm
                || self is Cset,
        ensures
            r == encoding(self@),
    {
        proof {
            law_encoding_fits(self@);
        }
        match self {
            Inst::Add { a, b, dest } => make_word(
                0x8b00_0000,
                b.number(),
                0,
                a.number(),
                dest.number(),
            ),
            Inst::AddImm { a, imm, dest } => make_word(
                0x9100_0000,
                0,
                imm.get().0 as u32,
                a.expect_phys().number(),
                dest.expect_phys().number(),
            ),
            Inst::Sub { a, b, dest } => make_word(
                0xcb00_0000,
                b.number(),
                0,
                a.number(),
                dest.number(),
            ),
            Inst::SubImm { a, imm, dest } => make_word(
                0xd100_0000,
                0,
                imm.0 as u32,
                a.expect_phys().number(),
                dest.expect_phys().number(),
            ),
            Inst::Mul { a, b, dest } => make_word(
                0x9b00_7c00,
                b.number(),
                0,
                a.number(),
                dest.number(),
            ),
            Inst::Div { a, b, dest, .. } => make_word(
                0x9ac0_0c00,
                b.number(),
                0,
                a.number(),
                dest.number(),
            ),
            Inst::Neg { val, dest } => make_word(
                0xcb00_0000,
                val.number(),
                0,
                31,
                dest.number(),
            ),
            Inst::Cmp { a, b } => make_word(0xeb00_0000, b.number(), 0, a.number(), 31),
            Inst::CmpImm { val, imm } => make_word(
                0xf100_0000,
                0,
                i32_to_u32(imm.0 as i32, 12),
                val.number(),
                31,
            ),
            Inst::Cset { inv_cond, dest } => make_word(
                0x9a9f_07e0 + cond_to_u32(inv_cond) * 0x1000,
                0,
                0,
                0,
                dest.number(),
            ),
            _ => 0,
        }
    }

    fn encode_branch(self) -> (r: u32)
        requires
            encodable(self@),
            self is Branch
                || self is BranchCond
                || self is BranchLink
                || self is BranchNotZero
                || self is BranchZero
                || self is Ret
                || self is Svc
                || self is Syscall,
        ensures
            r == encoding(self@),
    {
        proof {
            law_encoding_fits(self@);
        }
        match self {
            Inst::Branch { offset } => {
                proof {
                    lemma_low_bits_bound(offset->Fixed_0 as int, 26);
                }
                0x1400_0000 + offset.encode_bits(26)
            },
            Inst::BranchCond { offset, cond } => make_word(
                0x5400_0000,
                0,
                0,
                offset.encode_bits(19),
                cond_to_u32(cond),
            ),
            Inst::BranchLink { offset } => {
                proof {
                    lemma_low_bits_bound(offset->Fixed_0 as int, 26);
                }
                0x9400_0000 + offset.encode_bits(26)
            },
            Inst::BranchNotZero { offset, reg } => make_word(
                0xb500_0000,
                0,
                0,
                offset.encode_bits(19),
                reg.number(),
            ),
            Inst::BranchZero { offset, reg } => make_word(
                0xb400_0000,
                0,
                0,
                offset.encode_bits(19),
                reg.number(),
            ),
            Inst::Ret { .. } => 0xd65f_03c0,
            Inst::Svc { imm } => 0xd400_0001 + (imm as u32) * 0x20,
            Inst::Syscall => 0xd400_1001,
            _ => 0,
        }
    }

    fn encode_memory(self) -> (r: u32)
        requires
            encodable(self@),
            self is Load
                || self is LoadPair
                || self is Store
                || self is StorePair,
        ensures
            r == encoding(self@),
    {
        proof {
            law_encoding_fits(self@);
        }
        match self {
            Inst::Load { base, offset, dest, size } => match offset {
                EitherOffset::Reg(r) => make_word(
                    0x3860_e800 + size_to_u32(size) * 0x4000_0000,
                    r.expect_phys().number(),
                    0,
                    base.expect_phys().number(),
                    dest.number(),
                ),
                EitherOffset::Imm(imm) => make_word(
                    0x3940_0000 + size_to_u32(size) * 0x4000_0000,
                    0,
                    imm.0 as u32,
                    base.expect_phys().number(),
                    dest.number(),
                ),
            },
            Inst::LoadPair { base, first, second, offset } => {
                let imm7 = i32_to_u32(offset.0 as i32, 7);
                proof {
                    lemma_low_bits_bound(offset.0 as int, 7);
                }
                make_word(
                    0xa8c0_0000 + imm7 * 0x8000,
                    0,
                    second.number(),
                    base.number(),
                    first.number(),
                )
            },
            Inst::Store { base, offset, source, size } => match offset {
                EitherOffset::Reg(_) => 0,
                EitherOffset::Imm(imm) => make_word(
                    0x3900_0000 + size_to_u32(size) * 0x4000_0000,
                    0,
                    imm.0 as u32,
                    base.expect_phys().number(),
                    source.number(),
                ),
            },
            Inst::StorePair { base, first, second, offset } => {
                let imm7 = i32_to_u32(offset.0 as i32, 7);
                proof {
                    lemma_low_bits_bound(offset.0 as int, 7);
                }
                make_word(
                    0xa980_0000 + imm7 * 0x8000,
                    0,
                    second.number(),
                    base.number(),
                    first.number(),
                )
            },
            _ => 0,
        }
    }

    fn encode_move(self) -> (r: u32)
        requires
            encodable(self@),
            self is Adrp
                || self is Mov
                || self is Movk
                || self is Movz,
        ensures
            r == encoding(self@),
    {
        proof {
            law_encoding_fits(self@);
        }
        match self {
            Inst::Adrp { page_addr, dest } => {
                let page = i32_to_u32(page_addr.get().0, 21);
                proof {
                    lemma_low_bits_bound((page_addr->Fixed_0).0 as int, 21);
                }
                make_word(
                    0x9000_0000 + (page % 4) * 0x2000_0000,
                    0,
                    0,
                    page / 4,
                    dest.number(),
                )
            },
            Inst::Mov { src, dest } => {
                let src = src.expect_phys();
                let dest = dest.expect_phys();
                if src == Register::SP || dest == Register::SP {
                    make_word(0x9100_0000, 0, 0, src.number(), dest.number())
                } else {
                    make_word(0xaa00_03e0, src.number(), 0, 0, dest.number())
                }
            },
            Inst::Movk { shift, value, dest } => make_word(
                0xf280_0000 + shift_to_u32(shift) * 0x20_0000,
                0,
                0,
                value as u32,
                dest.number(),
            ),
            Inst::Movz { shift, value, dest } => make_word(
                0xd280_0000 + shift_to_u32(shift) * 0x20_0000,
                0,
                0,
                value as u32,
                dest.number(),
            ),
            _ => 0,
        }
    }
}

/// Alias for SUB instruction.
///
/// Equivalent to SUB <Xd> XZR <Xm> (dest = zero - src)
///
/// - Rm: source register
/// - Rd: destination register
#[derive(Debug, Clone, Copy)]
pub struct Neg {
    pub src: Register,
    pub dest: Register,
}

impl Instruction for Neg {
    open spec fn word(&self) -> u32 {
        word_of(
            0xcb00_0000,
            reg::number(self.src) as int,
            0,
            31,
            reg::number(self.dest) as int,
        ) as u32
    }

    fn encode(&self) -> (r: u32) {
        proof {
            reveal(word_of);
            reg::lemma_numbers();
        }
        make_word(0xcb00_0000, self.src.number(), 0, 31, self.dest.number())
    }
}

/// NOP instruction.
///
/// Does nothing except advance the program counter. Can be used for alignment.
#[derive(Debug, Clone, Copy)]
pub struct Nop;

impl Instruction for Nop {
    open spec fn word(&self) -> u32 {
        0xd503_201f
    }

    fn encode(&self) -> (r: u32) {
        0xd503_201f
    }
}

/// The two ways to negate a register have one encoding.
pub proof fn law_neg(src: Register, dest: Register)
    ensures
        encoding(InstV::Plain(Inst::Neg { val: src, dest })) == (Neg { src, dest }).word(),
        encoding(InstV::Plain(Inst::Neg { val: src, dest })) == encoding(
            InstV::Plain(Inst::Sub { a: Register::SP, b: src, dest }),
        ),
{
    reveal(word_of);
    reg::lemma_numbers();
}

proof fn lemma_fields(high: int, middle: int, rm: int, rn: int, rd: int)
    requires
        0 <= high,
        0 <= middle < 64,
        0 <= rm < 32,
        0 <= rn < 32,
        0 <= rd < 32,
    ensures
        ({
            let w = high * 0x20_0000 + rm * 0x1_0000 + middle * 0x400 + rn * 0x20 + rd;
            &&& w % 32 == rd
            &&& (w / 0x20) % 32 == rn
            &&& (w / 0x1_0000) % 32 == rm
        }),
{
    let w = high * 0x20_0000 + rm * 0x1_0000 + middle * 0x400 + rn * 0x20 + rd;
    let above_rd = high * 0x1_0000 + rm * 0x800 + middle * 0x20 + rn;
    vstd::arithmetic::div_mod::lemma_fundamental_div_mod_converse(w, 0x20, above_rd, rd);
    vstd::arithmetic::div_mod::lemma_fundamental_div_mod_converse(
        above_rd,
        0x20,
        high * 0x800 + rm * 0x40 + middle,
        rn,
    );
    vstd::arithmetic::div_mod::lemma_fundamental_div_mod_converse(
        w,
        0x1_0000,
        high * 0x20 + rm,
        middle * 0x400 + rn * 0x20 + rd,
    );
    vstd::arithmetic::div_mod::lemma_fundamental_div_mod_converse(high * 0x20 + rm, 0x20, high, rm);
}

/// The word of an instruction on three registers holds the number of each: that of the destination
/// in its lowest five bits, that of Rn from bit 5 on, and that of Rm from bit 16 on.
pub proof fn law_register_fields(a: Register, b: Register, dest: Register)
    ensures
        ({
            let w = encoding(InstV::Plain(Inst::Add { a, b, dest }));
            &&& w % 32 == reg::number(dest)
            &&& (w / 0x20) % 32 == reg::number(a)
            &&& (w / 0x1_0000) % 32 == reg::number(b)
        }),
        ({
            let w = encoding(InstV::Plain(Inst::Mul { a, b, dest }));
            &&& w % 32 == reg::number(dest)
            &&& (w / 0x20) % 32 == reg::number(a)
            &&& (w / 0x1_0000) % 32 == reg::number(b)
        }),
        ({
            let w = encoding(InstV::Plain(Inst::Sub { a, b, dest }));
            &&& w % 32 == reg::number(dest)
            &&& (w / 0x20) % 32 == reg::number(a)
            &&& (w / 0x1_0000) % 32 == reg::number(b)
        }),
        ({
            let w = encoding(InstV::Plain(Inst::Div { a, b, dest, signed: true }));
            &&& w % 32 == reg::number(dest)
            &&& (w / 0x20) % 32 == reg::number(a)
            &&& (w / 0x1_0000) % 32 == reg::number(b)
        }),
{
    reveal(word_of);
    reg::lemma_numbers();
    let na = reg::number(a) as int;
    let nb = reg::number(b) as int;
    let nd = reg::number(dest) as int;
    lemma_fields(0x458, 0, nb, na, nd);
    lemma_fields(0x4d8, 31, nb, na, nd);
    lemma_fields(0x658, 0, nb, na, nd);
    lemma_fields(0x4d6, 3, nb, na, nd);
}

} // verus!
