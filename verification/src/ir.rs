//! The intermediate representation: functions made of basic blocks.

use std::collections::HashMap;

use vstd::hash_map::StringHashMap;
use vstd::prelude::*;

use crate::analyze::ast::CompareOp;
use crate::analyze::semantics::types::TypeId;
use crate::text;

pub mod codegen;
pub mod correct;
pub mod laws;
pub mod meaning;
pub mod show;
pub mod ssa;

verus! {

broadcast use vstd::std_specs::hash::group_hash_axioms;

pub type StrId = usize;

pub type OpIndex = usize;

pub type Op = Operation;

/// A register of which there are as many as needed.
#[derive(Debug, Clone, Copy, PartialEq, Eq, Structural, Hash)]
pub struct VirtualReg(pub u32);

#[derive(Debug, Clone, Copy, PartialEq, Eq, Structural, Hash)]
pub enum Label {
    Entry,
    Anon(u32),
    End,
}

#[derive(Debug, Clone, Copy, PartialEq, Eq, Structural)]
pub enum ValSize {
    Byte,
    Halfword,
    Word,
    Doubleword,
}

/// The size with a given number of bytes.
pub open spec fn val_size(bytes: u64) -> Option<ValSize> {
    if bytes == 1 {
        Some(ValSize::Byte)
    } else if bytes == 2 {
        Some(ValSize::Halfword)
    } else if bytes == 4 {
        Some(ValSize::Word)
    } else if bytes == 8 {
        Some(ValSize::Doubleword)
    } else {
        None
    }
}

/// The number of bytes of a size.
pub open spec fn val_bytes(size: ValSize) -> u64 {
    match size {
        ValSize::Byte => 1,
        ValSize::Halfword => 2,
        ValSize::Word => 4,
        ValSize::Doubleword => 8,
    }
}

/// Sizes and the numbers of bytes that have one correspond to each other.
pub proof fn law_val_size(size: ValSize, bytes: u64)
    ensures
        val_size(val_bytes(size)) == Some(size),
        val_size(bytes) matches Some(s) ==> val_bytes(s) == bytes,
{
}

impl ValSize {
    pub fn from_bytes(size: u64) -> (r: Option<ValSize>)
        ensures
            r == val_size(size),
    {
        match size {
            1 => Some(ValSize::Byte),
            2 => Some(ValSize::Halfword),
            4 => Some(ValSize::Word),
            8 => Some(ValSize::Doubleword),
            _ => None,
        }
    }

    pub fn to_bytes(&self) -> (r: u64)
        ensures
            r == val_bytes(*self),
    {
        match self {
            ValSize::Byte => 1,
            ValSize::Halfword => 2,
            ValSize::Word => 4,
            ValSize::Doubleword => 8,
        }
    }
}

#[derive(Debug, Clone, Copy, PartialEq, Eq, Structural)]
pub enum Terminator {
    Branch { label: Label },
    BranchCond { cond: VirtualReg, if_true: Label, if_false: Label },
    Return { value: VirtualReg },
}

impl Terminator {
    pub open spec fn used(self) -> Option<VirtualReg> {
        match self {
            Terminator::Branch { .. } => None,
            Terminator::BranchCond { cond, .. } => Some(cond),
            Terminator::Return { value } => Some(value),
        }
    }

    pub fn vreg_used(&self) -> (r: Option<VirtualReg>)
        ensures
            r == self.used(),
    {
        match self {
            Terminator::Branch { .. } => None,
            Terminator::BranchCond { cond, .. } => Some(*cond),
            Terminator::Return { value } => Some(*value),
        }
    }
}

#[derive(Debug, Clone, Copy, PartialEq, Eq, Structural)]
pub enum Condition {
    Equal,
    NotEqual,
    UnsignedGreaterOrEqual,
    UnsignedLess,
    UnsignedGreater,
    UnsignedLessOrEqual,
    SignedGreaterOrEqual,
    SignedLess,
    SignedGreater,
    SignedLessOrEqual,
    Negative,
    PositiveOrZero,
    Overflow,
    NoOverflow,
    Always,
    Never,
}

/// The condition that a comparison tests.
pub open spec fn condition_of(op: CompareOp, signed: bool) -> Condition {
    match op {
        CompareOp::Equal => Condition::Equal,
        CompareOp::NotEqual => Condition::NotEqual,
        CompareOp::Less => if signed {
            Condition::SignedLess
        } else {
            Condition::UnsignedLess
        },
        CompareOp::LessOrEqual => if signed {
            Condition::SignedLessOrEqual
        } else {
            Condition::UnsignedLessOrEqual
        },
        CompareOp::Greater => if signed {
            Condition::SignedGreater
        } else {
            Condition::UnsignedGreater
        },
        CompareOp::GreaterOrEqual => if signed {
            Condition::SignedGreaterOrEqual
        } else {
            Condition::UnsignedGreaterOrEqual
        },
    }
}

/// The condition that holds where `c` does not.
pub open spec fn opposite(c: Condition) -> Condition {
    match c {
        Condition::Equal => Condition::NotEqual,
        Condition::NotEqual => Condition::Equal,
        Condition::UnsignedGreaterOrEqual => Condition::UnsignedLess,
        Condition::UnsignedLess => Condition::UnsignedGreaterOrEqual,
        Condition::UnsignedGreater => Condition::UnsignedLessOrEqual,
        Condition::UnsignedLessOrEqual => Condition::UnsignedGreater,
        Condition::SignedGreaterOrEqual => Condition::SignedLess,
        Condition::SignedLess => Condition::SignedGreaterOrEqual,
        Condition::SignedGreater => Condition::SignedLessOrEqual,
        Condition::SignedLessOrEqual => Condition::SignedGreater,
        Condition::Negative => Condition::PositiveOrZero,
        Condition::PositiveOrZero => Condition::Negative,
        Condition::Overflow => Condition::NoOverflow,
        Condition::NoOverflow => Condition::Overflow,
        Condition::Always => Condition::Never,
        Condition::Never => Condition::Always,
    }
}

/// Inverting a condition twice gives it back, and it is never its own opposite.
pub proof fn law_opposite(c: Condition)
    ensures
        opposite(opposite(c)) == c,
        opposite(c) != c,
{
}

impl Condition {
    pub fn from_ast_op(op: CompareOp, signed: bool) -> (r: Condition)
        ensures
            r == condition_of(op, signed),
    {
        match (op, signed) {
            (CompareOp::Equal, _) => Condition::Equal,
            (CompareOp::NotEqual, _) => Condition::NotEqual,
            (CompareOp::Less, true) => Condition::SignedLess,
            (CompareOp::Less, false) => Condition::UnsignedLess,
            (CompareOp::LessOrEqual, true) => Condition::SignedLessOrEqual,
            (CompareOp::LessOrEqual, false) => Condition::UnsignedLessOrEqual,
            (CompareOp::Greater, true) => Condition::SignedGreater,
            (CompareOp::Greater, false) => Condition::UnsignedGreater,
            (CompareOp::GreaterOrEqual, true) => Condition::SignedGreaterOrEqual,
            (CompareOp::GreaterOrEqual, false) => Condition::UnsignedGreaterOrEqual,
        }
    }

    pub fn inverted(&self) -> (r: Condition)
        ensures
            r == opposite(*self),
    {
        match self {
            Condition::Equal => Condition::NotEqual,
            Condition::NotEqual => Condition::Equal,
            Condition::UnsignedGreaterOrEqual => Condition::UnsignedLess,
            Condition::UnsignedLess => Condition::UnsignedGreaterOrEqual,
            Condition::UnsignedGreater => Condition::UnsignedLessOrEqual,
            Condition::UnsignedLessOrEqual => Condition::UnsignedGreater,
            Condition::SignedGreaterOrEqual => Condition::SignedLess,
            Condition::SignedLess => Condition::SignedGreaterOrEqual,
            Condition::SignedGreater => Condition::SignedLessOrEqual,
            Condition::SignedLessOrEqual => Condition::SignedGreater,
            Condition::Negative => Condition::PositiveOrZero,
            Condition::PositiveOrZero => Condition::Negative,
            Condition::Overflow => Condition::NoOverflow,
            Condition::NoOverflow => Condition::Overflow,
            Condition::Always => Condition::Never,
            Condition::Never => Condition::Always,
        }
    }
}

/// A value that can be used in an operation as a source, either an immediate operand or a
/// register.
#[derive(Debug, Clone, Copy, PartialEq, Eq, Structural)]
pub enum SourceVal {
    Immediate(u64),
    VReg(VirtualReg),
    String(StrId),
    StaticMem(u64),
}

impl SourceVal {
    pub open spec fn as_reg(self) -> Option<VirtualReg> {
        match self {
            SourceVal::VReg(vreg) => Some(vreg),
            _ => None,
        }
    }

    /// The virtual register, if the source value is a register.
    pub fn reg(&self) -> (r: Option<VirtualReg>)
        ensures
            r == self.as_reg(),
    {
        match self {
            SourceVal::VReg(vreg) => Some(*vreg),
            _ => None,
        }
    }
}

#[allow(inconsistent_fields)]
pub enum Operation {
    Assign { src: SourceVal, dest: VirtualReg },
    Store { src: SourceVal, stack_offset: u32 },
    Load { stack_offset: u32, dest: VirtualReg },
    LoadOffset { base: VirtualReg, offset: u32, dest: VirtualReg },
    LoadArg { offset: u32, dest: VirtualReg },
    AddressOf { val: VirtualReg, dest: VirtualReg },
    AddressOfArg { offset: u32, dest: VirtualReg },
    LoadPointer { ptr: VirtualReg, size: ValSize, dest: VirtualReg },
    StorePointer { src: VirtualReg, ptr: VirtualReg, size: ValSize, offset: u32 },
    Add { a: VirtualReg, b: VirtualReg, dest: VirtualReg },
    Subtract { a: VirtualReg, b: VirtualReg, dest: VirtualReg },
    Multiply { a: VirtualReg, b: VirtualReg, dest: VirtualReg },
    Divide { a: VirtualReg, b: VirtualReg, dest: VirtualReg },
    Modulo { a: VirtualReg, b: VirtualReg, dest: VirtualReg },
    Negate { val: VirtualReg, dest: VirtualReg },
    Not { val: VirtualReg, dest: VirtualReg },
    Compare { a: VirtualReg, b: VirtualReg, cond: Condition, dest: VirtualReg },
    Select { a: u32, b: u32, cond: VirtualReg, dest: VirtualReg },
    Call { function: String, args: Vec<VirtualReg>, dest: Option<VirtualReg> },
}

/// What an [`Operation`] says. One that holds no text says what it holds.
pub enum OpV {
    Plain(Operation),
    Call { function: Seq<char>, args: Seq<VirtualReg>, dest: Option<VirtualReg> },
}

impl View for Operation {
    type V = OpV;

    open spec fn view(&self) -> OpV {
        match self {
            Operation::Call { function, args, dest } => OpV::Call {
                function: function@,
                args: args@,
                dest: *dest,
            },
            _ => OpV::Plain(*self),
        }
    }
}

pub open spec fn op_views(v: Seq<Operation>) -> Seq<OpV> {
    v.map_values(|o: Operation| o@)
}

/// A set with at most one element.
pub open spec fn set_of(o: Option<VirtualReg>) -> Set<VirtualReg> {
    match o {
        Some(v) => set![v],
        None => Set::empty(),
    }
}

impl OpV {
    /// The registers that an operation reads. One whose address is taken is among them.
    pub open spec fn uses(self) -> Set<VirtualReg> {
        match self {
            OpV::Call { args, .. } => args.to_set(),
            OpV::Plain(op) => match op {
                Operation::Assign { src, .. } => set_of(src.as_reg()),
                Operation::Store { src, .. } => set_of(src.as_reg()),
                Operation::Load { .. } => Set::empty(),
                Operation::LoadOffset { base, .. } => set![base],
                Operation::LoadArg { .. } => Set::empty(),
                Operation::AddressOf { val, .. } => set![val],
                Operation::AddressOfArg { .. } => Set::empty(),
                Operation::LoadPointer { ptr, .. } => set![ptr],
                Operation::StorePointer { src, ptr, .. } => set![src, ptr],
                Operation::Add { a, b, .. } => set![a, b],
                Operation::Subtract { a, b, .. } => set![a, b],
                Operation::Multiply { a, b, .. } => set![a, b],
                Operation::Divide { a, b, .. } => set![a, b],
                Operation::Modulo { a, b, .. } => set![a, b],
                Operation::Negate { val, .. } => set![val],
                Operation::Not { val, .. } => set![val],
                Operation::Compare { a, b, .. } => set![a, b],
                Operation::Select { cond, .. } => set![cond],
                Operation::Call { .. } => Set::empty(),
            },
        }
    }

    /// The register that an operation assigns.
    pub open spec fn assigns(self) -> Option<VirtualReg> {
        match self {
            OpV::Call { dest, .. } => dest,
            OpV::Plain(op) => match op {
                Operation::Assign { dest, .. } => Some(dest),
                Operation::Load { dest, .. } => Some(dest),
                Operation::LoadOffset { dest, .. } => Some(dest),
                Operation::LoadArg { dest, .. } => Some(dest),
                Operation::AddressOf { dest, .. } => Some(dest),
                Operation::AddressOfArg { dest, .. } => Some(dest),
                Operation::LoadPointer { dest, .. } => Some(dest),
                Operation::Add { dest, .. } => Some(dest),
                Operation::Subtract { dest, .. } => Some(dest),
                Operation::Multiply { dest, .. } => Some(dest),
                Operation::Divide { dest, .. } => Some(dest),
                Operation::Modulo { dest, .. } => Some(dest),
                Operation::Negate { dest, .. } => Some(dest),
                Operation::Not { dest, .. } => Some(dest),
                Operation::Compare { dest, .. } => Some(dest),
                Operation::Select { dest, .. } => Some(dest),
                Operation::Store { .. } => None,
                Operation::StorePointer { .. } => None,
                Operation::Call { .. } => None,
            },
        }
    }
}

/// A set of virtual registers. Each is held once.
pub struct RegSet {
    pub list: Vec<VirtualReg>,
}

impl View for RegSet {
    type V = Set<VirtualReg>;

    open spec fn view(&self) -> Set<VirtualReg> {
        self.list@.to_set()
    }
}

impl RegSet {
    pub open spec fn wf(self) -> bool {
        self.list@.no_duplicates()
    }

    pub fn new() -> (r: RegSet)
        ensures
            r@ == Set::<VirtualReg>::empty(),
            r.wf(),
    {
        let r = RegSet { list: Vec::new() };
        proof {
            assert(r@ =~= Set::<VirtualReg>::empty());
        }
        r
    }

    pub fn contains(&self, vreg: VirtualReg) -> (r: bool)
        ensures
            r == self@.contains(vreg),
    {
        contains_reg(&self.list, vreg)
    }

    /// Adds a register, and tells whether it was not there yet.
    pub fn insert(&mut self, vreg: VirtualReg) -> (r: bool)
        ensures
            final(self)@ == old(self)@.insert(vreg),
            r == !old(self)@.contains(vreg),
            old(self).wf() ==> final(self).wf(),
    {
        if self.contains(vreg) {
            proof {
                assert(self@ =~= self@.insert(vreg));
            }
            false
        } else {
            let ghost before = self.list@;
            self.list.push(vreg);
            proof {
                lemma_push_to_set(before, vreg);
            }
            true
        }
    }

    pub fn insert_opt(&mut self, vreg: Option<VirtualReg>)
        ensures
            final(self)@ == old(self)@.union(set_of(vreg)),
            old(self).wf() ==> final(self).wf(),
    {
        if let Some(v) = vreg {
            self.insert(v);
            proof {
                assert(self@ =~= old(self)@.union(set_of(vreg)));
            }
        } else {
            proof {
                assert(self@ =~= old(self)@.union(set_of(vreg)));
            }
        }
    }

    pub fn insert_all(&mut self, vregs: &Vec<VirtualReg>)
        ensures
            final(self)@ == old(self)@.union(vregs@.to_set()),
            old(self).wf() ==> final(self).wf(),
    {
        let mut i: usize = 0;
        while i < vregs.len()
            invariant
                i <= vregs.len(),
                old(self).wf() ==> self.wf(),
                self@ =~= old(self)@.union(vregs@.subrange(0, i as int).to_set()),
            decreases vregs.len() - i,
        {
            self.insert(vregs[i]);
            proof {
                assert(vregs@.subrange(0, i + 1) =~= vregs@.subrange(0, i as int).push(
                    vregs@[i as int],
                ));
                lemma_push_to_set(vregs@.subrange(0, i as int), vregs@[i as int]);
            }
            i = i + 1;
        }
        proof {
            assert(vregs@.subrange(0, vregs@.len() as int) =~= vregs@);
        }
    }
}

pub proof fn lemma_push_to_set<A>(s: Seq<A>, x: A)
    ensures
        s.push(x).to_set() == s.to_set().insert(x),
{
    assert forall|y: A| #[trigger] s.push(x).to_set().contains(y) <==> s.to_set().insert(
        x,
    ).contains(y) by {
        if s.to_set().insert(x).contains(y) {
            if y == x {
                assert(s.push(x)[s.len() as int] == y);
            } else {
                let i = choose|i: int| 0 <= i < s.len() && s[i] == y;
                assert(s.push(x)[i] == y);
            }
        }
    }
    assert(s.push(x).to_set() =~= s.to_set().insert(x));
}

pub fn contains_reg(list: &Vec<VirtualReg>, vreg: VirtualReg) -> (r: bool)
    ensures
        r == list@.contains(vreg),
{
    let mut i: usize = 0;
    while i < list.len()
        invariant
            i <= list.len(),
            forall|j: int| 0 <= j < i ==> list@[j] != vreg,
        decreases list.len() - i,
    {
        if list[i] == vreg {
            return true;
        }
        i = i + 1;
    }
    false
}

impl Operation {
    /// The virtual registers used in this operation: those it reads, and the one it assigns.
    pub fn vregs_used(&self) -> (r: (RegSet, Option<VirtualReg>))
        ensures
            r.0@ == self@.uses(),
            r.0.wf(),
            r.1 == self@.assigns(),
    {
        let mut used = RegSet::new();
        let assigned = match self {
            Operation::Assign { src, dest } => {
                used.insert_opt(src.reg());
                Some(*dest)
            },
            Operation::Store { src, stack_offset: _ } => {
                used.insert_opt(src.reg());
                None
            },
            Operation::Load { stack_offset: _, dest } => Some(*dest),
            Operation::LoadOffset { base, offset: _, dest } => {
                used.insert(*base);
                Some(*dest)
            },
            Operation::LoadArg { offset: _, dest } => Some(*dest),
            Operation::AddressOf { val, dest } => {
                used.insert(*val);
                Some(*dest)
            },
            Operation::AddressOfArg { offset: _, dest } => Some(*dest),
            Operation::LoadPointer { ptr, size: _, dest } => {
                used.insert(*ptr);
                Some(*dest)
            },
            Operation::StorePointer { src, ptr, size: _, offset: _ } => {
                used.insert(*src);
                used.insert(*ptr);
                None
            },
            Operation::Add { a, b, dest }
            | Operation::Subtract { a, b, dest }
            | Operation::Multiply { a, b, dest }
            | Operation::Divide { a, b, dest }
            | Operation::Modulo { a, b, dest } => {
                used.insert(*a);
                used.insert(*b);
                Some(*dest)
            },
            Operation::Not { val, dest } | Operation::Negate { val, dest } => {
                used.insert(*val);
                Some(*dest)
            },
            Operation::Compare { a, b, cond: _, dest } => {
                used.insert(*a);
                used.insert(*b);
                Some(*dest)
            },
            Operation::Select { a: _, b: _, cond, dest } => {
                used.insert(*cond);
                Some(*dest)
            },
            Operation::Call { dest, args, function: _ } => {
                used.insert_all(args);
                *dest
            },
        };
        proof {
            assert(used@ =~= self@.uses());
        }
        (used, assigned)
    }
}

/// A [basic block](BasicBlock) is a sequence of operations that do not affect control flow. Each
/// basic block contains exactly one [terminator](Terminator), which specifies the next block in
/// the control flow graph. Additionally basic blocks can specify arguments, which allows them to
/// use registers passed on from other basic blocks.
///
/// The next basic block is called the successor, and the previous is called the predecessor. A
/// basic block can have multiple successors and predecessors.
pub struct BasicBlock {
    pub label: Label,
    pub args: RegSet,
    pub ops: Vec<Operation>,
    pub decls: Vec<VirtualReg>,
    pub terminator: Terminator,
}

/// What a [`BasicBlock`] says.
#[verifier::ext_equal]
pub struct BlockV {
    pub label: Label,
    pub args: Set<VirtualReg>,
    pub ops: Seq<OpV>,
    pub decls: Seq<VirtualReg>,
    pub terminator: Terminator,
}

impl View for BasicBlock {
    type V = BlockV;

    open spec fn view(&self) -> BlockV {
        BlockV {
            label: self.label,
            args: self.args@,
            ops: op_views(self.ops@),
            decls: self.decls@,
            terminator: self.terminator,
        }
    }
}

/// The labels that a terminator can lead to.
pub open spec fn successors_of(t: Terminator) -> Seq<Label> {
    match t {
        Terminator::Branch { label } => seq![label],
        Terminator::BranchCond { if_true, if_false, .. } => seq![if_true, if_false],
        Terminator::Return { .. } => seq![Label::End],
    }
}

impl BasicBlock {
    pub fn successors(&self) -> (r: Vec<Label>)
        ensures
            r@ == successors_of(self.terminator),
    {
        let mut labels: Vec<Label> = Vec::new();
        match self.terminator {
            Terminator::Branch { label } => {
                labels.push(label);
            },
            Terminator::BranchCond { if_true, if_false, .. } => {
                labels.push(if_true);
                labels.push(if_false);
            },
            Terminator::Return { .. } => {
                labels.push(Label::End);
            },
        }
        proof {
            assert(labels@ =~= successors_of(self.terminator));
        }
        labels
    }
}

pub open spec fn block_views(v: Seq<BasicBlock>) -> Seq<BlockV> {
    v.map_values(|b: BasicBlock| b@)
}

/// The sizes of registers that are numbered one after the other.
pub struct SizeMap {
    first: u32,
    sizes: Vec<ValSize>,
}

impl View for SizeMap {
    type V = Map<VirtualReg, ValSize>;

    closed spec fn view(&self) -> Map<VirtualReg, ValSize> {
        Map::new(
            |v: VirtualReg| self.first <= v.0 < self.first + self.sizes@.len(),
            |v: VirtualReg| self.sizes@[v.0 - self.first],
        )
    }
}

impl SizeMap {
    /// Only registers that exist have sizes.
    #[verifier::type_invariant]
    spec fn in_range(self) -> bool {
        self.first + self.sizes@.len() <= 0x1_0000_0000
    }

    /// The number of the register that gets the next size.
    pub closed spec fn next_reg(self) -> int {
        self.first + self.sizes@.len()
    }

    /// The number of the first register.
    pub closed spec fn first_reg(self) -> int {
        self.first as int
    }

    pub fn new(first: u32) -> (r: SizeMap)
        ensures
            r@ == Map::<VirtualReg, ValSize>::empty(),
            r.next_reg() == first,
            r.first_reg() == first,
    {
        let r = SizeMap { first, sizes: Vec::new() };
        proof {
            assert(r@ =~= Map::<VirtualReg, ValSize>::empty());
        }
        r
    }

    /// Gives a size to the next register.
    pub fn push(&mut self, size: ValSize)
        requires
            old(self).next_reg() < 0x1_0000_0000,
        ensures
            final(self)@ == old(self)@.insert(VirtualReg(old(self).next_reg() as u32), size),
            final(self).next_reg() == old(self).next_reg() + 1,
            final(self).first_reg() == old(self).first_reg(),
    {
        let ghost v = VirtualReg(self.next_reg() as u32);
        let mut sizes: Vec<ValSize> = Vec::new();
        std::mem::swap(&mut sizes, &mut self.sizes);
        sizes.push(size);
        self.sizes = sizes;
        proof {
            assert(self@ =~= old(self)@.insert(v, size));
        }
    }

    pub fn get(&self, vreg: VirtualReg) -> (r: Option<ValSize>)
        ensures
            r == if self@.contains_key(vreg) {
                Some(self@[vreg])
            } else {
                None
            },
    {
        if vreg.0 >= self.first && ((vreg.0 - self.first) as usize) < self.sizes.len() {
            Some(self.sizes[(vreg.0 - self.first) as usize])
        } else {
            None
        }
    }

    /// The registers and their sizes, in the order of the registers.
    pub fn entries(&self) -> (r: Vec<(VirtualReg, ValSize)>)
        ensures
            r@ == size_entries(self@, self.first_reg(), self.next_reg()),
    {
        proof {
            use_type_invariant(self);
        }
        let mut r: Vec<(VirtualReg, ValSize)> = Vec::new();
        let mut i: usize = 0;
        while i < self.sizes.len()
            invariant
                i <= self.sizes.len(),
                self.next_reg() <= 0x1_0000_0000,
                r@.len() == i,
                forall|j: int|
                    0 <= j < i ==> #[trigger] r@[j] == (
                        VirtualReg((self.first + j) as u32),
                        self.sizes@[j],
                    ),
            decreases self.sizes.len() - i,
        {
            r.push((VirtualReg(self.first + i as u32), self.sizes[i]));
            i = i + 1;
        }
        r
    }
}

/// The registers from `first` up to `end` with their sizes.
pub open spec fn size_entries(sizes: Map<VirtualReg, ValSize>, first: int, end: int) -> Seq<
    (VirtualReg, ValSize),
> {
    Seq::new(
        (end - first) as nat,
        |i: int| (VirtualReg((first + i) as u32), sizes[VirtualReg((first + i) as u32)]),
    )
}

pub enum Item {
    Function {
        name: String,
        args: Vec<VirtualReg>,
        stack: HashMap<u32, u32>,
        stack_size: u32,
        size_map: SizeMap,
        body: Vec<BasicBlock>,
    },
}

/// What an [`Item`] says.
#[verifier::ext_equal]
pub struct FunctionV {
    pub name: Seq<char>,
    pub args: Seq<VirtualReg>,
    /// The place on the stack of each register that has one, by the number of the register.
    pub stack: Map<u32, u32>,
    pub stack_size: u32,
    pub sizes: Map<VirtualReg, ValSize>,
    pub body: Seq<BlockV>,
}

impl View for Item {
    type V = FunctionV;

    open spec fn view(&self) -> FunctionV {
        match self {
            Item::Function { name, args, stack, stack_size, size_map, body } => FunctionV {
                name: name@,
                args: args@,
                stack: stack@,
                stack_size: *stack_size,
                sizes: size_map@,
                body: block_views(body@),
            },
        }
    }
}

pub open spec fn item_views(v: Seq<Item>) -> Seq<FunctionV> {
    v.map_values(|i: Item| i@)
}

/// Named memory that lives as long as the program.
pub struct StaticMemory {
    allocs: StringHashMap<(u64, TypeId)>,
    size: u64,
}

/// What a [`StaticMemory`] says: where each name lies and of which type it is, and how many bytes
/// are taken.
#[verifier::ext_equal]
pub struct MemoryV {
    pub allocs: Map<Seq<char>, (u64, TypeId)>,
    pub size: u64,
}

impl View for StaticMemory {
    type V = MemoryV;

    closed spec fn view(&self) -> MemoryV {
        MemoryV { allocs: self.allocs@, size: self.size }
    }
}

impl MemoryV {
    /// Memory for a value lies behind what is taken.
    pub open spec fn with(self, name: Seq<char>, typ: TypeId, size: u64) -> MemoryV {
        MemoryV {
            allocs: self.allocs.insert(name, (self.size, typ)),
            size: (self.size + size) as u64,
        }
    }

    pub open spec fn empty() -> MemoryV {
        MemoryV { allocs: Map::empty(), size: 0 }
    }

    /// All that is taken lies in front of the end.
    pub open spec fn wf(self) -> bool {
        forall|n: Seq<char>| #[trigger] self.allocs.contains_key(n) ==> self.allocs[n].0 <= self.size
    }
}

/// Memory that is newly taken begins where all earlier memory ends, and nothing else moves.
pub proof fn law_memory_disjoint(mem: MemoryV, name: Seq<char>, typ: TypeId, size: u64)
    requires
        mem.wf(),
        mem.size + size <= u64::MAX,
    ensures
        mem.with(name, typ, size).wf(),
        mem.with(name, typ, size).allocs[name].0 == mem.size,
        mem.with(name, typ, size).size == mem.size + size,
        forall|n: Seq<char>|
            n != name && #[trigger] mem.allocs.contains_key(n) ==> mem.with(
                name,
                typ,
                size,
            ).allocs.contains_key(n) && mem.with(name, typ, size).allocs[n] == mem.allocs[n],
{
}

impl StaticMemory {
    pub fn new() -> (r: StaticMemory)
        ensures
            r@ == MemoryV::empty(),
    {
        StaticMemory { allocs: StringHashMap::new(), size: 0 }
    }

    pub fn alloc_segment(&mut self, name: &str, typ: TypeId, type_size: u64) -> (r: u64)
        requires
            old(self)@.size + type_size <= u64::MAX,
        ensures
            r == old(self)@.size,
            final(self)@ == old(self)@.with(name@, typ, type_size),
    {
        let offset = self.size;
        self.size = self.size + type_size;
        self.allocs.insert(name.to_owned(), (offset, typ));
        offset
    }

    /// The number of bytes that are taken.
    pub fn size(&self) -> (r: u64)
        ensures
            r == self@.size,
    {
        self.size
    }

    pub fn get(&self, name: &str) -> (r: Option<&(u64, TypeId)>)
        ensures
            match r {
                Some(a) => self@.allocs.contains_key(name@) && self@.allocs[name@] == *a,
                None => !self@.allocs.contains_key(name@),
            },
    {
        self.allocs.get(name)
    }
}

pub struct IR {
    pub items: Vec<Item>,
    /// The string literals; each is known by its position.
    pub strings: Vec<String>,
    pub static_mem: StaticMemory,
}

/// What an [`IR`] says.
#[verifier::ext_equal]
pub struct IrV {
    pub items: Seq<FunctionV>,
    pub strings: Seq<Seq<char>>,
    pub mem: MemoryV,
}

impl View for IR {
    type V = IrV;

    open spec fn view(&self) -> IrV {
        IrV {
            items: item_views(self.items@),
            strings: text::all_chars(self.strings@),
            mem: self.static_mem@,
        }
    }
}

/// The position of a string, or the number of strings if it is not there.
pub open spec fn string_index(strings: Seq<Seq<char>>, s: Seq<char>) -> int
    decreases strings.len(),
{
    if strings.len() == 0 {
        0
    } else if strings[0] == s {
        0
    } else {
        1 + string_index(strings.drop_first(), s)
    }
}

/// The strings, with `s` at the end if it was not there.
pub open spec fn with_string(strings: Seq<Seq<char>>, s: Seq<char>) -> Seq<Seq<char>> {
    if string_index(strings, s) < strings.len() {
        strings
    } else {
        strings.push(s)
    }
}

pub proof fn lemma_string_index(strings: Seq<Seq<char>>, s: Seq<char>, k: int)
    requires
        0 <= k <= strings.len(),
        forall|i: int| 0 <= i < k ==> #[trigger] strings[i] != s,
    ensures
        k == strings.len() || strings[k] == s ==> string_index(strings, s) == k,
    decreases k,
{
    if k > 0 {
        let rest = strings.drop_first();
        assert(strings[0] != s);
        assert forall|i: int| 0 <= i < k - 1 implies #[trigger] rest[i] != s by {
            assert(rest[i] == strings[i + 1]);
        }
        if k < strings.len() {
            assert(rest[k - 1] == strings[k]);
        }
        lemma_string_index(rest, s, k - 1);
    }
}

proof fn lemma_string_index_bounds(strings: Seq<Seq<char>>, s: Seq<char>)
    ensures
        0 <= string_index(strings, s) <= strings.len(),
        string_index(strings, s) < strings.len() ==> strings[string_index(strings, s)] == s,
    decreases strings.len(),
{
    if strings.len() > 0 && strings[0] != s {
        lemma_string_index_bounds(strings.drop_first(), s);
    }
}

/// The position of a string is where it stands, and asking again changes nothing.
pub proof fn law_string_literal(strings: Seq<Seq<char>>, s: Seq<char>)
    ensures
        with_string(strings, s)[string_index(strings, s)] == s,
        string_index(with_string(strings, s), s) == string_index(strings, s),
        with_string(with_string(strings, s), s) == with_string(strings, s),
        forall|i: int| 0 <= i < strings.len() ==> #[trigger] with_string(strings, s)[i] == strings[i],
{
    lemma_string_index_bounds(strings, s);
    let k = string_index(strings, s);
    let more = with_string(strings, s);
    if k == strings.len() {
        assert forall|i: int| 0 <= i < k implies #[trigger] more[i] != s by {
            if strings[i] == s {
                lemma_first_index(strings, s, i);
            }
        }
        lemma_string_index(more, s, k);
    }
}

proof fn lemma_first_index(strings: Seq<Seq<char>>, s: Seq<char>, i: int)
    requires
        0 <= i < strings.len(),
        strings[i] == s,
    ensures
        string_index(strings, s) <= i,
    decreases i,
{
    if i > 0 && strings[0] != s {
        assert(strings.drop_first()[i - 1] == s);
        lemma_first_index(strings.drop_first(), s, i - 1);
    }
}

impl IR {
    pub fn new() -> (r: IR)
        ensures
            r@ == (IrV { items: Seq::empty(), strings: Seq::empty(), mem: MemoryV::empty() }),
    {
        let r = IR { items: Vec::new(), strings: Vec::new(), static_mem: StaticMemory::new() };
        proof {
            assert(r@.items =~= Seq::empty());
            assert(r@.strings =~= Seq::empty());
        }
        r
    }

    /// The number of a string literal, which is known from then on.
    pub fn insert_str_literal(&mut self, string: &str) -> (r: StrId)
        ensures
            r == string_index(old(self)@.strings, string@),
            final(self)@ == (IrV {
                strings: with_string(old(self)@.strings, string@),
                ..old(self)@
            }),
    {
        insert_string(&mut self.strings, string)
    }
}

/// The position of a string in a list, to which it is added if it is not there.
pub fn insert_string(strings: &mut Vec<String>, string: &str) -> (r: StrId)
    ensures
        r == string_index(text::all_chars(old(strings)@), string@),
        text::all_chars(final(strings)@) == with_string(text::all_chars(old(strings)@), string@),
{
    let ghost all = text::all_chars(strings@);
    let mut i: usize = 0;
    while i < strings.len()
        invariant
            i <= strings.len(),
            strings@ == old(strings)@,
            all == text::all_chars(strings@),
            forall|j: int| 0 <= j < i ==> #[trigger] all[j] != string@,
        decreases strings.len() - i,
    {
        proof {
            assert(all[i as int] == strings@[i as int]@);
        }
        if text::str_eq(strings[i].as_str(), string) {
            proof {
                lemma_string_index(all, string@, i as int);
            }
            return i;
        }
        i = i + 1;
    }
    proof {
        lemma_string_index(all, string@, i as int);
    }
    strings.push(string.to_owned());
    proof {
        assert(text::all_chars(strings@) =~= all.push(string@));
    }
    i
}

} // verus!
