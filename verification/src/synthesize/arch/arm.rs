//! Machine code for the ARM architecture.

pub mod blocks;
pub mod builtin;
pub mod calls;
pub mod instr;
pub mod laws;
pub mod placing;
pub mod reg;

use std::collections::HashMap;

use vstd::hash_map::StringHashMap;
use vstd::prelude::*;

use crate::ir;
use crate::ir::{
    BasicBlock, BlockV, Condition, FunctionV, IrV, Item, Label, OpV, Operation, SizeMap, SourceVal,
    Terminator, ValSize, VirtualReg, IR,
};
use crate::synthesize::arch::{Assembler, CodeV, LinkableCode, MachineCode};
use crate::synthesize::bytes;
use crate::text;
use builtin::SyscallType;
use instr::{
    AddImmVal, BranchOffset, EitherOffset, EitherReg, FnOffset, ImmShift16, Inst, InstV, LabelMap,
    PageAddr, I12, I7, U12,
};
use reg::{MarkedV, Register};

verus! {

/// What is known of the place of an instruction.
#[derive(Debug, Clone, Copy, PartialEq, Eq, Structural)]
pub enum InstMarker {
    Unmarked,
    FirstInBB(Label),
}

/// What the operations of a function refer to.
pub struct Surroundings {
    /// The offset of each string literal.
    pub strings: Seq<usize>,
    pub sizes: Map<VirtualReg, ValSize>,
    /// The place on the stack of each register that has one.
    pub stack: Map<u32, u32>,
}

/// Instructions about whose place nothing is known.
pub open spec fn unmarked(code: Seq<InstV<VirtualReg>>) -> Seq<MarkedV<VirtualReg>> {
    code.map_values(|v: InstV<VirtualReg>| (v, InstMarker::Unmarked))
}

pub open spec fn plain_insts(code: Seq<Inst<VirtualReg>>) -> Seq<InstV<VirtualReg>> {
    code.map_values(|i: Inst<VirtualReg>| InstV::Plain(i))
}

/// The 16 bits of a number from the bit `16 * k` on.
pub open spec fn chunk(n: u64, k: nat) -> u16 {
    if k == 0 {
        (n % 0x1_0000) as u16
    } else if k == 1 {
        ((n / 0x1_0000) % 0x1_0000) as u16
    } else if k == 2 {
        ((n / 0x1_0000_0000) % 0x1_0000) as u16
    } else {
        ((n / 0x1_0000_0000_0000) % 0x1_0000) as u16
    }
}

/// Moves a number into a register, in pieces of 16 bits; the pieces above the highest bit are left
/// out.
pub open spec fn immediate_code(imm: u64, dest: VirtualReg) -> Seq<Inst<VirtualReg>> {
    seq![Inst::Movz { shift: ImmShift16::L0, value: chunk(imm, 0), dest }] + (if imm > 0xffff {
        seq![Inst::Movk { shift: ImmShift16::L16, value: chunk(imm, 1), dest }]
    } else {
        Seq::empty()
    }) + (if imm > 0xffff_ffff {
        seq![Inst::Movk { shift: ImmShift16::L32, value: chunk(imm, 2), dest }]
    } else {
        Seq::empty()
    }) + (if imm > 0xffff_ffff_ffff {
        seq![Inst::Movk { shift: ImmShift16::L48, value: chunk(imm, 3), dest }]
    } else {
        Seq::empty()
    })
}

/// The pieces of a number, at their places, add up to it, and those that are left out are zero.
pub proof fn law_chunks(imm: u64)
    ensures
        chunk(imm, 0) + chunk(imm, 1) * 0x1_0000 + chunk(imm, 2) * 0x1_0000_0000 + chunk(imm, 3)
            * 0x1_0000_0000_0000 == imm,
        imm <= 0xffff ==> chunk(imm, 1) == 0 && chunk(imm, 2) == 0 && chunk(imm, 3) == 0,
        imm <= 0xffff_ffff ==> chunk(imm, 2) == 0 && chunk(imm, 3) == 0,
        imm <= 0xffff_ffff_ffff ==> chunk(imm, 3) == 0,
{
    assert((imm % 0x1_0000) + ((imm / 0x1_0000) % 0x1_0000) * 0x1_0000 + ((imm / 0x1_0000_0000)
        % 0x1_0000) * 0x1_0000_0000 + ((imm / 0x1_0000_0000_0000) % 0x1_0000)
        * 0x1_0000_0000_0000 == imm) by (bit_vector);
}

/// Sets a register to the value of a source. `None` for a string literal that does not exist.
pub open spec fn assign_code(src: SourceVal, dest: VirtualReg, around: Surroundings) -> Option<
    Seq<Inst<VirtualReg>>,
> {
    match src {
        SourceVal::Immediate(imm) => Some(immediate_code(imm, dest)),
        SourceVal::VReg(src) => Some(
            seq![Inst::Mov { src: EitherReg::Virt(src), dest: EitherReg::Virt(dest) }],
        ),
        SourceVal::String(id) => if id < around.strings.len() {
            Some(
                seq![
                    Inst::Adrp { page_addr: PageAddr::String(around.strings[id as int]), dest },
                    Inst::AddImm {
                        a: EitherReg::Virt(dest),
                        imm: AddImmVal::String(around.strings[id as int]),
                        dest: EitherReg::Virt(dest),
                    },
                ],
            )
        } else {
            None
        },
        SourceVal::StaticMem(offset) => Some(
            seq![
                Inst::Adrp { page_addr: PageAddr::Bss(offset), dest },
                Inst::AddImm {
                    a: EitherReg::Virt(dest),
                    imm: AddImmVal::Bss(offset),
                    dest: EitherReg::Virt(dest),
                },
            ],
        ),
    }
}

/// An offset in units of a size. `None` if it has more than 12 bits.
pub open spec fn scaled(offset: u32, size: ValSize) -> Option<U12> {
    instr::u12_of((offset as int % 0x1_0000) / (ir::val_bytes(size) as int))
}

fn scale(offset: u32, size: ValSize) -> (r: Option<U12>)
    ensures
        r == scaled(offset, size),
{
    let low: u64 = (offset % 0x1_0000) as u64;
    match size {
        ValSize::Byte => U12::try_new(low),
        ValSize::Halfword => U12::try_new(low / 2),
        ValSize::Word => U12::try_new(low / 4),
        ValSize::Doubleword => U12::try_new(low / 8),
    }
}

/// A load of a value of known size. `None` if the size is not known or the offset too large.
pub open spec fn load_code(
    base: EitherReg,
    offset: u32,
    dest: VirtualReg,
    around: Surroundings,
) -> Option<Seq<Inst<VirtualReg>>> {
    if !around.sizes.contains_key(dest) {
        None
    } else {
        let size = around.sizes[dest];
        match scaled(offset, size) {
            Some(o) => Some(seq![Inst::Load { base, offset: EitherOffset::Imm(o), dest, size }]),
            None => None,
        }
    }
}

/// The instructions of an operation that is no call. `None` if a number is too large for its field,
/// something is not known that has to be, or there are no such instructions.
pub open spec fn plain_code(op: Operation, around: Surroundings) -> Option<Seq<Inst<VirtualReg>>> {
    match op {
        Operation::Assign { src, dest } => assign_code(src, dest, around),
        Operation::Store { src, stack_offset } => match src {
            SourceVal::VReg(source) if around.sizes.contains_key(source) => {
                let size = around.sizes[source];
                match scaled(stack_offset, size) {
                    Some(o) => Some(
                        seq![
                            Inst::Store {
                                source,
                                base: EitherReg::Phys(Register::SP),
                                offset: EitherOffset::Imm(o),
                                size,
                            },
                        ],
                    ),
                    None => None,
                }
            },
            _ => None,
        },
        Operation::Load { stack_offset, dest } => load_code(
            EitherReg::Phys(Register::SP),
            stack_offset,
            dest,
            around,
        ),
        Operation::LoadOffset { base, offset, dest } => load_code(
            EitherReg::Virt(base),
            offset,
            dest,
            around,
        ),
        Operation::LoadArg { offset, dest } => match instr::u12_of(2 + offset % 0x1_0000) {
            Some(o) if around.sizes.contains_key(dest) => Some(
                seq![
                    Inst::Load {
                        base: EitherReg::Phys(Register::FP),
                        offset: EitherOffset::Imm(o),
                        dest,
                        size: around.sizes[dest],
                    },
                ],
            ),
            _ => None,
        },
        Operation::AddressOf { val, dest } => if around.stack.contains_key(val.0) {
            match instr::u12_of(around.stack[val.0] as int % 0x1_0000) {
                Some(o) => Some(
                    seq![
                        Inst::AddImm {
                            a: EitherReg::Phys(Register::SP),
                            imm: AddImmVal::Fixed(o),
                            dest: EitherReg::Virt(dest),
                        },
                    ],
                ),
                None => None,
            }
        } else {
            None
        },
        Operation::AddressOfArg { offset, dest } => match instr::u12_of(
            16 + offset % 0x1_0000,
        ) {
            Some(o) => Some(
                seq![
                    Inst::AddImm {
                        a: EitherReg::Phys(Register::FP),
                        imm: AddImmVal::Fixed(o),
                        dest: EitherReg::Virt(dest),
                    },
                ],
            ),
            None => None,
        },
        Operation::LoadPointer { ptr, size, dest } => Some(
            seq![
                Inst::Load {
                    base: EitherReg::Virt(ptr),
                    offset: EitherOffset::Imm(U12(0)),
                    dest,
                    size,
                },
            ],
        ),
        Operation::StorePointer { src, ptr, size, offset } => match scaled(offset, size) {
            Some(o) => Some(
                seq![
                    Inst::Store {
                        source: src,
                        base: EitherReg::Virt(ptr),
                        offset: EitherOffset::Imm(o),
                        size,
                    },
                ],
            ),
            None => None,
        },
        Operation::Add { a, b, dest } => Some(seq![Inst::Add { a, b, dest }]),
        Operation::Subtract { a, b, dest } => Some(seq![Inst::Sub { a, b, dest }]),
        Operation::Multiply { a, b, dest } => Some(seq![Inst::Mul { a, b, dest }]),
        Operation::Divide { a, b, dest } => Some(seq![Inst::Div { a, b, dest, signed: true }]),
        Operation::Modulo { a, b, dest } => Some(
            seq![
                Inst::Div { a, b, dest, signed: true },
                Inst::Mul { a: dest, b, dest },
                Inst::Sub { a, b: dest, dest },
            ],
        ),
        Operation::Negate { val, dest } => Some(seq![Inst::Neg { val, dest }]),
        Operation::Not { val, dest } => Some(
            seq![
                Inst::CmpImm { val, imm: I12(0) },
                Inst::Cset { inv_cond: Condition::NotEqual, dest },
            ],
        ),
        Operation::Compare { a, b, cond, dest } => Some(
            seq![Inst::Cmp { a, b }, Inst::Cset { inv_cond: ir::opposite(cond), dest }],
        ),
        Operation::Select { .. } => None,
        Operation::Call { .. } => None,
    }
}

/// The stack that the arguments of a call take, which is a multiple of 16 bytes.
pub open spec fn arg_stack(count: nat) -> int {
    (8 * count as int + 15) / 16 * 16
}

/// The store of an argument at its place.
pub open spec fn store_arg(arg: VirtualReg, i: int) -> Inst<VirtualReg> {
    Inst::Store {
        source: arg,
        base: EitherReg::Phys(Register::SP),
        offset: EitherOffset::Imm(U12(i as u16)),
        size: ValSize::Doubleword,
    }
}

/// The instructions of a call: the arguments go onto the stack, and the result comes in `X0`. `None`
/// if the arguments need too much of the stack.
pub open spec fn call_code(
    function: Seq<char>,
    args: Seq<VirtualReg>,
    dest: Option<VirtualReg>,
) -> Option<Seq<InstV<VirtualReg>>> {
    match instr::u12_of(arg_stack(args.len())) {
        None => None,
        Some(size) => Some(
            plain_insts(
                seq![
                    Inst::BeginFnCall { reserved_stack_size: size.0 as u32 },
                    Inst::SubImm {
                        a: EitherReg::Phys(Register::SP),
                        imm: size,
                        dest: EitherReg::Phys(Register::SP),
                    },
                ],
            ) + plain_insts(Seq::new(args.len(), |i: int| store_arg(args[i], i)))
                + seq![InstV::CallTo(function)] + plain_insts(
                seq![
                    Inst::AddImm {
                        a: EitherReg::Phys(Register::SP),
                        imm: AddImmVal::Fixed(size),
                        dest: EitherReg::Phys(Register::SP),
                    },
                    Inst::EndFnCall,
                ],
            ) + (match dest {
                Some(dest) => plain_insts(
                    seq![
                        Inst::Mov {
                            src: EitherReg::Phys(Register::X0),
                            dest: EitherReg::Virt(dest),
                        },
                    ],
                ),
                None => Seq::empty(),
            }),
        ),
    }
}

/// The instructions of an operation.
pub open spec fn op_code(op: OpV, around: Surroundings) -> Option<Seq<InstV<VirtualReg>>> {
    match op {
        OpV::Call { function, args, dest } => call_code(function, args, dest),
        OpV::Plain(op) => match plain_code(op, around) {
            Some(code) => Some(plain_insts(code)),
            None => None,
        },
    }
}

/// The instructions of the operations from `i` on, behind those that are there.
pub open spec fn ops_code(
    ops: Seq<OpV>,
    i: int,
    around: Surroundings,
    done: Seq<MarkedV<VirtualReg>>,
) -> Option<Seq<MarkedV<VirtualReg>>>
    decreases ops.len() - i,
{
    if i >= ops.len() {
        Some(done)
    } else {
        match op_code(ops[i], around) {
            Some(code) => ops_code(ops, i + 1, around, done + unmarked(code)),
            None => None,
        }
    }
}

/// The instructions of a terminator. That of a function's end branches to the code behind all
/// blocks.
pub open spec fn terminator_code(t: Terminator) -> Seq<Inst<VirtualReg>> {
    match t {
        Terminator::Branch { label } => seq![
            Inst::Branch { offset: BranchOffset::Dynamic(label) },
        ],
        Terminator::BranchCond { cond, if_true, if_false } => seq![
            Inst::BranchZero { offset: BranchOffset::Dynamic(if_false), reg: cond },
            Inst::Branch { offset: BranchOffset::Dynamic(if_true) },
        ],
        Terminator::Return { value } => seq![
            Inst::Mov { src: EitherReg::Virt(value), dest: EitherReg::Phys(Register::X0) },
            Inst::Branch { offset: BranchOffset::Dynamic(Label::End) },
        ],
    }
}

/// The instructions with a marker at a place.
pub open spec fn with_marker(
    code: Seq<MarkedV<VirtualReg>>,
    at: int,
    marker: InstMarker,
) -> Seq<MarkedV<VirtualReg>> {
    code.update(at, (code[at].0, marker))
}

/// The instructions of a block, behind those that are there. The first is marked with the label.
pub open spec fn block_code(
    b: BlockV,
    around: Surroundings,
    done: Seq<MarkedV<VirtualReg>>,
) -> Option<Seq<MarkedV<VirtualReg>>> {
    match ops_code(b.ops, 0, around, done) {
        Some(code) => Some(
            with_marker(
                code + unmarked(plain_insts(terminator_code(b.terminator))),
                done.len() as int,
                InstMarker::FirstInBB(b.label),
            ),
        ),
        None => None,
    }
}

/// The instructions of the blocks from `i` on, behind those that are there.
pub open spec fn body_code(
    blocks: Seq<BlockV>,
    i: int,
    around: Surroundings,
    done: Seq<MarkedV<VirtualReg>>,
) -> Option<Seq<MarkedV<VirtualReg>>>
    decreases blocks.len() - i,
{
    if i >= blocks.len() {
        Some(done)
    } else {
        match block_code(blocks[i], around, done) {
            Some(code) => body_code(blocks, i + 1, around, code),
            None => None,
        }
    }
}

/// The places of the labels among the first `n` instructions. The end of the function lies behind
/// all instructions.
pub open spec fn labels_at(code: Seq<MarkedV<Register>>, n: int) -> Map<Label, i32>
    decreases n,
{
    if n <= 0 {
        Map::empty().insert(Label::End, instr::dropped_to_i32(code.len() as int) as i32)
    } else {
        match code[n - 1].1 {
            InstMarker::FirstInBB(label) => labels_at(code, n - 1).insert(
                label,
                instr::dropped_to_i32(n - 1) as i32,
            ),
            InstMarker::Unmarked => labels_at(code, n - 1),
        }
    }
}

/// The instructions from `i` on with distances in place of labels, behind those that are there.
pub open spec fn with_distances(
    code: Seq<MarkedV<Register>>,
    i: int,
    labels: Map<Label, i32>,
    done: Seq<InstV<Register>>,
) -> Option<Seq<InstV<Register>>>
    decreases code.len() - i,
{
    if i >= code.len() {
        Some(done)
    } else {
        match instr::with_distance(code[i].0, instr::dropped_to_i32(i) as i32, labels) {
            Some(v) => with_distances(code, i + 1, labels, done.push(v)),
            None => None,
        }
    }
}

/// What a function does before all else: it saves the frame pointer and the link register, and takes
/// its stack.
pub open spec fn prologue(stack: U12) -> Seq<InstV<Register>> {
    seq![
        InstV::Plain(
            Inst::StorePair {
                base: Register::SP,
                first: Register::FP,
                second: Register::LR,
                offset: I7(-2i8),
            },
        ),
        InstV::Plain(
            Inst::Mov { src: EitherReg::Phys(Register::SP), dest: EitherReg::Phys(Register::FP) },
        ),
    ] + (if stack.0 > 0 {
        seq![
            InstV::Plain(
                Inst::SubImm {
                    a: EitherReg::Phys(Register::SP),
                    imm: stack,
                    dest: EitherReg::Phys(Register::SP),
                },
            ),
        ]
    } else {
        Seq::empty()
    })
}

/// What a function does last: it gives back what it took, and returns.
pub open spec fn epilogue(stack: U12) -> Seq<InstV<Register>> {
    (if stack.0 > 0 {
        seq![
            InstV::Plain(
                Inst::AddImm {
                    a: EitherReg::Phys(Register::SP),
                    imm: AddImmVal::Fixed(stack),
                    dest: EitherReg::Phys(Register::SP),
                },
            ),
        ]
    } else {
        Seq::empty()
    }) + seq![
        InstV::Plain(
            Inst::LoadPair {
                base: Register::SP,
                first: Register::FP,
                second: Register::LR,
                offset: I7(2),
            },
        ),
        InstV::Plain(Inst::Ret { value: Register::X0 }),
    ]
}

/// The stack of a function: what its values take and what the registers need, as a multiple of 16
/// bytes. `None` if that is too much.
pub open spec fn frame_size(own: int, extra: int) -> Option<U12> {
    if own + extra + 15 > u16::MAX {
        None
    } else {
        instr::u12_of((own + extra + 15) / 16 * 16)
    }
}

/// The instructions of a function. `None` if it does not fit the machine.
pub open spec fn procedure(
    body: Seq<BlockV>,
    stack_size: u32,
    around: Surroundings,
) -> Option<Seq<InstV<Register>>> {
    let own = (stack_size % 0x1_0000) as u16;
    match body_code(body, 0, around, Seq::empty()) {
        None => None,
        Some(code) => match reg::allocation(code, own, around.sizes) {
            None => None,
            Some((code, extra)) => match frame_size(own as int, extra as int) {
                None => None,
                Some(stack) => match with_distances(
                    code,
                    0,
                    labels_at(code, code.len() as int),
                    Seq::empty(),
                ) {
                    None => None,
                    Some(code) => Some(prologue(stack) + code + epilogue(stack)),
                },
            },
        },
    }
}

/// The instructions of a function, before they get registers of the machine.
struct ProcedureGen {
    instructions: Vec<(Inst<VirtualReg>, InstMarker)>,
}

impl View for ProcedureGen {
    type V = Seq<MarkedV<VirtualReg>>;

    closed spec fn view(&self) -> Seq<MarkedV<VirtualReg>> {
        reg::marked_views(self.instructions@)
    }
}

impl ProcedureGen {
    fn emit(&mut self, inst: Inst<VirtualReg>)
        ensures
            final(self)@ == old(self)@.push((inst@, InstMarker::Unmarked)),
    {
        let ghost before = self@;
        self.instructions.push((inst, InstMarker::Unmarked));
        proof {
            assert(self@ =~= before.push((inst@, InstMarker::Unmarked)));
        }
    }

    fn emit_two(&mut self, first: Inst<VirtualReg>, second: Inst<VirtualReg>)
        ensures
            final(self)@ == old(self)@.push((first@, InstMarker::Unmarked)).push(
                (second@, InstMarker::Unmarked),
            ),
    {
        self.emit(first);
        self.emit(second);
    }

    fn emit_immediate(&mut self, imm: u64, dest: VirtualReg)
        ensures
            final(self)@ == old(self)@ + unmarked(plain_insts(immediate_code(imm, dest))),
    {
        let ghost before = self@;
        self.emit(
            Inst::Movz { shift: ImmShift16::L0, value: (imm % 0x1_0000) as u16, dest },
        );
        if imm > 0xffff {
            self.emit(
                Inst::Movk {
                    shift: ImmShift16::L16,
                    value: ((imm / 0x1_0000) % 0x1_0000) as u16,
                    dest,
                },
            );
        }
        if imm > 0xffff_ffff {
            self.emit(
                Inst::Movk {
                    shift: ImmShift16::L32,
                    value: ((imm / 0x1_0000_0000) % 0x1_0000) as u16,
                    dest,
                },
            );
        }
        if imm > 0xffff_ffff_ffff {
            self.emit(
                Inst::Movk {
                    shift: ImmShift16::L48,
                    value: ((imm / 0x1_0000_0000_0000) % 0x1_0000) as u16,
                    dest,
                },
            );
        }
        proof {
            assert(self@ =~= before + unmarked(plain_insts(immediate_code(imm, dest))));
        }
    }

    fn emit_assign(&mut self, src: SourceVal, dest: VirtualReg, strings: &Vec<usize>) -> (ok: bool)
        ensures
            forall|around: Surroundings| around.strings == strings@ ==> match #[trigger] assign_code(
                src,
                dest,
                around,
            ) {
                Some(code) => ok && final(self)@ == old(self)@ + unmarked(plain_insts(code)),
                None => !ok,
            },
    {
        let ghost before = self@;
        match src {
            SourceVal::Immediate(imm) => {
                self.emit_immediate(imm, dest);
            },
            SourceVal::VReg(src) => {
                let inst = Inst::Mov { src: EitherReg::Virt(src), dest: EitherReg::Virt(dest) };
                self.emit(inst);
                proof {
                    assert(self@ =~= before + unmarked(plain_insts(seq![inst])));
                }
            },
            SourceVal::String(id) => {
                if id >= strings.len() {
                    return false;
                }
                let first = Inst::Adrp { page_addr: PageAddr::String(strings[id]), dest };
                let second = Inst::AddImm {
                    a: EitherReg::Virt(dest),
                    imm: AddImmVal::String(strings[id]),
                    dest: EitherReg::Virt(dest),
                };
                let ghost code = seq![first, second];
                self.emit_two(first, second);
                proof {
                    assert(self@ =~= before + unmarked(plain_insts(code)));
                }
            },
            SourceVal::StaticMem(offset) => {
                let first = Inst::Adrp { page_addr: PageAddr::Bss(offset), dest };
                let second = Inst::AddImm {
                    a: EitherReg::Virt(dest),
                    imm: AddImmVal::Bss(offset),
                    dest: EitherReg::Virt(dest),
                };
                let ghost code = seq![first, second];
                self.emit_two(first, second);
                proof {
                    assert(self@ =~= before + unmarked(plain_insts(code)));
                }
            },
        }
        true
    }

    fn emit_load(
        &mut self,
        base: EitherReg,
        offset: u32,
        dest: VirtualReg,
        sizes: &SizeMap,
        Ghost(around): Ghost<Surroundings>,
    ) -> (ok: bool)
        requires
            around.sizes == sizes@,
        ensures
            match load_code(base, offset, dest, around) {
                Some(code) => ok && final(self)@ == old(self)@ + unmarked(plain_insts(code)),
                None => !ok,
            },
    {
        let ghost before = self@;
        match sizes.get(dest) {
            None => false,
            Some(size) => match scale(offset, size) {
                None => false,
                Some(o) => {
                    let inst = Inst::Load { base, offset: EitherOffset::Imm(o), dest, size };
                    self.emit(inst);
                    proof {
                        assert(self@ =~= before + unmarked(plain_insts(seq![inst])));
                    }
                    true
                },
            },
        }
    }

    fn emit_plain(
        &mut self,
        op: Operation,
        strings: &Vec<usize>,
        stack: &HashMap<u32, u32>,
        sizes: &SizeMap,
        Ghost(around): Ghost<Surroundings>,
    ) -> (ok: bool)
        requires
            around.strings == strings@,
            around.stack == stack@,
            around.sizes == sizes@,
        ensures
            match plain_code(op, around) {
                Some(code) => ok && final(self)@ == old(self)@ + unmarked(plain_insts(code)),
                None => !ok,
            },
    {
        broadcast use vstd::std_specs::hash::group_hash_axioms;

        let ghost before = self@;
        let inst: Inst<VirtualReg> = match op {
            Operation::Assign { src, dest } => {
                return self.emit_assign(src, dest, strings);
            },
            Operation::Load { stack_offset, dest } => {
                return self.emit_load(
                    EitherReg::Phys(Register::SP),
                    stack_offset,
                    dest,
                    sizes,
                    Ghost(around),
                );
            },
            Operation::LoadOffset { base, offset, dest } => {
                return self.emit_load(EitherReg::Virt(base), offset, dest, sizes, Ghost(around));
            },
            Operation::Store { src, stack_offset } => match src {
                SourceVal::VReg(source) => match sizes.get(source) {
                    None => {
                        return false;
                    },
                    Some(size) => match scale(stack_offset, size) {
                        None => {
                            return false;
                        },
                        Some(o) => Inst::Store {
                            source,
                            base: EitherReg::Phys(Register::SP),
                            offset: EitherOffset::Imm(o),
                            size,
                        },
                    },
                },
                _ => {
                    return false;
                },
            },
            Operation::LoadArg { offset, dest } => match U12::try_new(
                2 + (offset % 0x1_0000) as u64,
            ) {
                None => {
                    return false;
                },
                Some(o) => match sizes.get(dest) {
                    None => {
                        return false;
                    },
                    Some(size) => Inst::Load {
                        base: EitherReg::Phys(Register::FP),
                        offset: EitherOffset::Imm(o),
                        dest,
                        size,
                    },
                },
            },
            Operation::AddressOf { val, dest } => match stack.get(&val.0) {
                None => {
                    return false;
                },
                Some(place) => match U12::try_new((*place % 0x1_0000) as u64) {
                    None => {
                        return false;
                    },
                    Some(o) => Inst::AddImm {
                        a: EitherReg::Phys(Register::SP),
                        imm: AddImmVal::Fixed(o),
                        dest: EitherReg::Virt(dest),
                    },
                },
            },
            Operation::AddressOfArg { offset, dest } => match U12::try_new(
                16 + (offset % 0x1_0000) as u64,
            ) {
                None => {
                    return false;
                },
                Some(o) => Inst::AddImm {
                    a: EitherReg::Phys(Register::FP),
                    imm: AddImmVal::Fixed(o),
                    dest: EitherReg::Virt(dest),
                },
            },
            Operation::LoadPointer { ptr, size, dest } => Inst::Load {
                base: EitherReg::Virt(ptr),
                offset: EitherOffset::Imm(U12(0)),
                dest,
                size,
            },
            Operation::StorePointer { src, ptr, size, offset } => match scale(offset, size) {
                None => {
                    return false;
                },
                Some(o) => Inst::Store {
                    source: src,
                    base: EitherReg::Virt(ptr),
                    offset: EitherOffset::Imm(o),
                    size,
                },
            },
            Operation::Select { .. } => {
                return false;
            },
            Operation::Call { .. } => {
                return false;
            },
            op => {
                self.emit_arithmetic(op, Ghost(around));
                return true;
            },
        };
        self.emit(inst);
        proof {
            assert(self@ =~= before + unmarked(plain_insts(seq![inst])));
        }
        true
    }

    fn emit_arithmetic(&mut self, op: Operation, Ghost(around): Ghost<Surroundings>)
        requires
            op is Add || op is Subtract || op is Multiply || op is Divide || op is Modulo
                || op is Negate || op is Not || op is Compare,
        ensures
            final(self)@ == old(self)@ + unmarked(plain_insts(plain_code(op, around)->0)),
    {
        let ghost before = self@;
        match op {
            Operation::Add { a, b, dest } => self.emit(Inst::Add { a, b, dest }),
            Operation::Subtract { a, b, dest } => self.emit(Inst::Sub { a, b, dest }),
            Operation::Multiply { a, b, dest } => self.emit(Inst::Mul { a, b, dest }),
            Operation::Divide { a, b, dest } => self.emit(Inst::Div { a, b, dest, signed: true }),
            Operation::Modulo { a, b, dest } => {
                self.emit_two(
                    Inst::Div { a, b, dest, signed: true },
                    Inst::Mul { a: dest, b, dest },
                );
                self.emit(Inst::Sub { a, b: dest, dest });
            },
            Operation::Negate { val, dest } => self.emit(Inst::Neg { val, dest }),
            Operation::Not { val, dest } => self.emit_two(
                Inst::CmpImm { val, imm: I12(0) },
                Inst::Cset { inv_cond: Condition::NotEqual, dest },
            ),
            Operation::Compare { a, b, cond, dest } => self.emit_two(
                Inst::Cmp { a, b },
                Inst::Cset { inv_cond: cond.inverted(), dest },
            ),
            _ => {},
        }
        proof {
            assert(self@ =~= before + unmarked(plain_insts(plain_code(op, around)->0)));
        }
    }

    fn emit_call(
        &mut self,
        function: String,
        args: Vec<VirtualReg>,
        dest: Option<VirtualReg>,
    ) -> (ok: bool)
        ensures
            match call_code(function@, args@, dest) {
                Some(code) => ok && final(self)@ == old(self)@ + unmarked(code),
                None => !ok,
            },
    {
        let ghost before = self@;
        if args.len() > 510 {
            return false;
        }
        let size = U12(((8 * args.len() as u32 + 15) / 16 * 16) as u16);
        self.emit_two(
            Inst::BeginFnCall { reserved_stack_size: size.0 as u32 },
            Inst::SubImm {
                a: EitherReg::Phys(Register::SP),
                imm: size,
                dest: EitherReg::Phys(Register::SP),
            },
        );
        let ghost begun = self@;
        let mut i: usize = 0;
        while i < args.len()
            invariant
                i <= args.len() <= 510,
                self@ == begun + unmarked(
                    plain_insts(Seq::new(i as nat, |k: int| store_arg(args@[k], k))),
                ),
            decreases args.len() - i,
        {
            let ghost now = self@;
            let inst = Inst::Store {
                source: args[i],
                base: EitherReg::Phys(Register::SP),
                offset: EitherOffset::Imm(U12(i as u16)),
                size: ValSize::Doubleword,
            };
            self.emit(inst);
            proof {
                assert(inst == store_arg(args@[i as int], i as int));
                assert(self@ =~= begun + unmarked(
                    plain_insts(Seq::new((i + 1) as nat, |k: int| store_arg(args@[k], k))),
                ));
            }
            i = i + 1;
        }
        let ghost name = function@;
        self.emit(Inst::BranchLink { offset: FnOffset::Dynamic(function) });
        self.emit_two(
            Inst::AddImm {
                a: EitherReg::Phys(Register::SP),
                imm: AddImmVal::Fixed(size),
                dest: EitherReg::Phys(Register::SP),
            },
            Inst::EndFnCall,
        );
        if let Some(dest) = dest {
            self.emit(
                Inst::Mov { src: EitherReg::Phys(Register::X0), dest: EitherReg::Virt(dest) },
            );
        }
        proof {
            assert(size.0 == arg_stack(args@.len()));
            assert(self@ =~= before + unmarked(call_code(name, args@, dest)->0));
        }
        true
    }

    fn emit_op(
        &mut self,
        op: Operation,
        strings: &Vec<usize>,
        stack: &HashMap<u32, u32>,
        sizes: &SizeMap,
        Ghost(around): Ghost<Surroundings>,
    ) -> (ok: bool)
        requires
            around.strings == strings@,
            around.stack == stack@,
            around.sizes == sizes@,
        ensures
            match op_code(op@, around) {
                Some(code) => ok && final(self)@ == old(self)@ + unmarked(code),
                None => !ok,
            },
    {
        match op {
            Operation::Call { function, args, dest } => self.emit_call(function, args, dest),
            op => self.emit_plain(op, strings, stack, sizes, Ghost(around)),
        }
    }

    fn emit_terminator(&mut self, terminator: Terminator)
        ensures
            final(self)@ == old(self)@ + unmarked(plain_insts(terminator_code(terminator))),
    {
        let ghost before = self@;
        match terminator {
            Terminator::Branch { label } => self.emit(
                Inst::Branch { offset: BranchOffset::Dynamic(label) },
            ),
            Terminator::BranchCond { cond, if_true, if_false } => self.emit_two(
                Inst::BranchZero { offset: BranchOffset::Dynamic(if_false), reg: cond },
                Inst::Branch { offset: BranchOffset::Dynamic(if_true) },
            ),
            Terminator::Return { value } => self.emit_two(
                Inst::Mov { src: EitherReg::Virt(value), dest: EitherReg::Phys(Register::X0) },
                Inst::Branch { offset: BranchOffset::Dynamic(Label::End) },
            ),
        }
        proof {
            assert(self@ =~= before + unmarked(plain_insts(terminator_code(terminator))));
        }
    }

    fn emit_block(
        &mut self,
        bb: BasicBlock,
        strings: &Vec<usize>,
        stack: &HashMap<u32, u32>,
        sizes: &SizeMap,
        Ghost(around): Ghost<Surroundings>,
    ) -> (ok: bool)
        requires
            around.strings == strings@,
            around.stack == stack@,
            around.sizes == sizes@,
        ensures
            match block_code(bb@, around, old(self)@) {
                Some(code) => ok && final(self)@ == code,
                None => !ok,
            },
    {
        let ghost before = self@;
        let ghost ops = bb@.ops;
        let first: usize = self.instructions.len();
        let BasicBlock { label, args: _, ops: list, decls: _, terminator } = bb;
        let count: usize = list.len();
        let mut i: usize = 0;
        for op in it: list.into_iter()
            invariant
                i == it.index(),
                ops == ir::op_views(it.seq()),
                ops.len() == count,
                around.strings == strings@,
                around.stack == stack@,
                around.sizes == sizes@,
                before.len() == first <= self@.len(),
                ops_code(ops, 0, around, before) == ops_code(ops, i as int, around, self@),
                before == old(self)@,
                ops == bb@.ops,
        {
            proof {
                assert(ops[i as int] == op@);
            }
            if !self.emit_op(op, strings, stack, sizes, Ghost(around)) {
                return false;
            }
            i = i + 1;
        }
        self.emit_terminator(terminator);
        let ghost whole = self@;
        let ghost insts = self.instructions@;
        proof {
            assert(terminator_code(terminator).len() > 0);
            assert(insts.len() == whole.len());
        }
        self.instructions[first].1 = InstMarker::FirstInBB(label);
        proof {
            assert(self.instructions@ =~= insts.update(
                first as int,
                (insts[first as int].0, InstMarker::FirstInBB(label)),
            ));
            assert(self@ =~= with_marker(whole, first as int, InstMarker::FirstInBB(label)));
        }
        true
    }

    /// The instructions of the blocks of a function.
    fn emit_body(
        body: Vec<BasicBlock>,
        strings: &Vec<usize>,
        stack: &HashMap<u32, u32>,
        sizes: &SizeMap,
        Ghost(around): Ghost<Surroundings>,
    ) -> (r: Option<ProcedureGen>)
        requires
            around.strings == strings@,
            around.stack == stack@,
            around.sizes == sizes@,
        ensures
            match body_code(ir::block_views(body@), 0, around, Seq::empty()) {
                Some(code) => r is Some && (r->0)@ == code,
                None => r is None,
            },
    {
        let ghost blocks = ir::block_views(body@);
        let mut proc = ProcedureGen { instructions: Vec::new() };
        proof {
            assert(proc@ =~= Seq::empty());
        }
        let count: usize = body.len();
        let mut i: usize = 0;
        for bb in it: body.into_iter()
            invariant
                i == it.index(),
                blocks == ir::block_views(it.seq()),
                blocks.len() == count,
                around.strings == strings@,
                around.stack == stack@,
                around.sizes == sizes@,
                body_code(blocks, 0, around, Seq::empty()) == body_code(
                    blocks,
                    i as int,
                    around,
                    proc@,
                ),
        {
            proof {
                assert(blocks[i as int] == bb@);
            }
            if !proc.emit_block(bb, strings, stack, sizes, Ghost(around)) {
                return None;
            }
            i = i + 1;
        }
        Some(proc)
    }

    /// Adds the code of a function to what is assembled.
    fn assemble(
        assembler: &mut ArmAssembler,
        stack: HashMap<u32, u32>,
        stack_size: u32,
        size_map: &SizeMap,
        body: Vec<BasicBlock>,
    ) -> (ok: bool)
        ensures
            ({
                let around = Surroundings {
                    strings: old(assembler)@.string_offsets,
                    sizes: size_map@,
                    stack: stack@,
                };
                match procedure(ir::block_views(body@), stack_size, around) {
                    Some(code) => ok && final(assembler)@ == old(assembler)@.emit_all(code),
                    None => !ok,
                }
            }),
            final(assembler).unlinked() == old(assembler).unlinked(),
    {
        let ghost around = Surroundings {
            strings: assembler@.string_offsets,
            sizes: size_map@,
            stack: stack@,
        };
        let proc = match ProcedureGen::emit_body(
            body,
            &assembler.str_literal_offsets,
            &stack,
            size_map,
            Ghost(around),
        ) {
            Some(proc) => proc,
            None => {
                return false;
            },
        };
        let own: u16 = (stack_size % 0x1_0000) as u16;
        let (instructions, extra) = match reg::try_allocate(proc.instructions, own, size_map) {
            Some(r) => r,
            None => {
                return false;
            },
        };
        let frame: U12 = match find_frame_size(own, extra) {
            Some(size) => size,
            None => {
                return false;
            },
        };
        let fixed = match fix_distances(instructions) {
            Some(fixed) => fixed,
            None => {
                return false;
            },
        };
        let ghost before = assembler@;
        let ghost code = inst_views(fixed@);
        assembler.emit_prologue(frame);
        assembler.emit_many(fixed);
        assembler.emit_epilogue(frame);
        proof {
            assert(assembler@ =~= before.emit_all(prologue(frame) + code + epilogue(frame)));
        }
        true
    }
}

fn find_frame_size(own: u16, extra: u16) -> (r: Option<U12>)
    ensures
        r == frame_size(own as int, extra as int),
{
    let total: u32 = own as u32 + extra as u32 + 15;
    if total > 0xffff {
        None
    } else {
        U12::try_new((total / 16 * 16) as u64)
    }
}

/// The places of the labels.
fn find_labels(code: &Vec<(Inst<Register>, InstMarker)>) -> (r: LabelMap)
    ensures
        r@ == labels_at(reg::marked_views(code@), code@.len() as int),
{
    let ghost insts = reg::marked_views(code@);
    let mut labels = LabelMap::new();
    labels.insert(Label::End, instr::drop_to_i32(code.len() as u64));
    let mut i: usize = 0;
    while i < code.len()
        invariant
            i <= code.len(),
            insts == reg::marked_views(code@),
            labels@ == labels_at(insts, i as int),
        decreases code.len() - i,
    {
        proof {
            assert(insts[i as int].1 == code@[i as int].1);
        }
        if let InstMarker::FirstInBB(label) = code[i].1 {
            labels.insert(label, instr::drop_to_i32(i as u64));
        }
        i = i + 1;
    }
    labels
}

/// The instructions with distances in place of labels.
fn fix_distances(code: Vec<(Inst<Register>, InstMarker)>) -> (r: Option<Vec<Inst<Register>>>)
    ensures
        ({
            let insts = reg::marked_views(code@);
            match with_distances(
                insts,
                0,
                labels_at(insts, insts.len() as int),
                Seq::empty(),
            ) {
                Some(fixed) => r is Some && inst_views((r->0)@) == fixed,
                None => r is None,
            }
        }),
{
    let ghost insts = reg::marked_views(code@);
    let labels = find_labels(&code);
    let mut fixed: Vec<Inst<Register>> = Vec::new();
    proof {
        assert(inst_views(fixed@) =~= Seq::empty());
    }
    let count: usize = code.len();
    let mut i: usize = 0;
    for p in it: code.into_iter()
        invariant
            i == it.index(),
            insts == reg::marked_views(it.seq()),
            insts.len() == count,
            labels@ == labels_at(insts, insts.len() as int),
            with_distances(insts, 0, labels@, Seq::empty()) == with_distances(
                insts,
                i as int,
                labels@,
                inst_views(fixed@),
            ),
    {
        proof {
            assert(insts[i as int] == (p.0@, p.1));
        }
        let (inst, _) = p;
        let mut inst = inst;
        if !inst.try_fix_labels(instr::drop_to_i32(i as u64), &labels) {
            return None;
        }
        let ghost now = inst_views(fixed@);
        fixed.push(inst);
        proof {
            assert(inst_views(fixed@) =~= now.push(inst@));
        }
        i = i + 1;
    }
    Some(fixed)
}

pub open spec fn inst_views(v: Seq<Inst<Register>>) -> Seq<InstV<Register>> {
    v.map_values(|i: Inst<Register>| i@)
}

/// Where the assembly stands.
#[verifier::ext_equal]
pub struct AsmV {
    /// The instructions so far.
    pub code: Seq<InstV<Register>>,
    /// The first instruction of each function.
    pub functions: Map<Seq<char>, usize>,
    pub symbols: Seq<(Seq<char>, u64)>,
    pub entry_point: u64,
    pub strings: Seq<Seq<char>>,
    /// The offset of each string literal.
    pub string_offsets: Seq<usize>,
}

impl AsmV {
    /// Nothing at all.
    pub open spec fn empty() -> AsmV {
        AsmV {
            code: Seq::empty(),
            functions: Map::empty(),
            symbols: Seq::empty(),
            entry_point: 0,
            strings: Seq::empty(),
            string_offsets: Seq::empty(),
        }
    }

    /// Before the first function. `None` if the string literals are too long.
    pub open spec fn start(strings: Seq<Seq<char>>) -> Option<AsmV> {
        if bytes::cstrings_len(strings, strings.len() as int) > usize::MAX {
            None
        } else {
            Some(
                AsmV {
                    strings,
                    string_offsets: Seq::new(
                        strings.len(),
                        |i: int| bytes::cstrings_len(strings, i) as usize,
                    ),
                    ..AsmV::empty()
                },
            )
        }
    }

    pub open spec fn emit_all(self, code: Seq<InstV<Register>>) -> AsmV {
        AsmV { code: self.code + code, ..self }
    }

    /// The number of bytes of the code.
    pub open spec fn size(self) -> int {
        self.code.len() as int * 4
    }

    /// The code with a function that begins where the code ends.
    pub open spec fn with_function(self, name: Seq<char>, symbol: Seq<char>) -> AsmV {
        AsmV {
            functions: self.functions.insert(name, self.code.len() as usize),
            symbols: self.symbols.push((symbol, self.size() as u64)),
            ..self
        }
    }

    /// The code with that of a function behind it. `None` if it does not fit the machine.
    pub open spec fn with_item(self, f: FunctionV) -> Option<AsmV> {
        let around = Surroundings {
            strings: self.string_offsets,
            sizes: f.sizes,
            stack: f.stack,
        };
        if self.size() > usize::MAX {
            None
        } else {
            match procedure(f.body, f.stack_size, around) {
                Some(code) => Some(self.with_function(f.name, f.name).emit_all(code)),
                None => None,
            }
        }
    }

    /// The code with those of the functions from `i` on behind it.
    pub open spec fn with_items(self, items: Seq<FunctionV>, i: int) -> Option<AsmV>
        decreases items.len() - i,
    {
        if i >= items.len() {
            Some(self)
        } else {
            match self.with_item(items[i]) {
                Some(st) => st.with_items(items, i + 1),
                None => None,
            }
        }
    }

    /// The code with its entry point: it calls the main function, and ends the program. `None` if
    /// there is no main function in reach, or the code is too long.
    pub open spec fn with_entry(self, main_fn: Seq<char>) -> Option<AsmV> {
        if self.size() + 12 > usize::MAX {
            None
        } else {
            match instr::fn_distance(
                main_fn,
                instr::dropped_to_i32(self.code.len() as int) as i32,
                self.functions,
            ) {
                None => None,
                Some(distance) => Some(
                    AsmV {
                        symbols: self.symbols.push(("_entry_point"@, self.size() as u64)),
                        entry_point: self.size() as u64,
                        ..self
                    }.emit_all(
                        seq![
                            InstV::Plain(Inst::BranchLink { offset: FnOffset::Fixed(distance) }),
                            InstV::Plain(
                                Inst::Movz {
                                    shift: ImmShift16::L0,
                                    value: builtin::syscall_number(SyscallType::Exit),
                                    dest: Register::X16,
                                },
                            ),
                            InstV::Plain(Inst::Syscall),
                        ],
                    ),
                ),
            }
        }
    }
}

/// The code of a program: that of its functions, then the built-in functions, then the entry point.
pub open spec fn assembly(ir: IrV, main_fn: Seq<char>) -> Option<AsmV> {
    match AsmV::start(ir.strings) {
        None => None,
        Some(st) => match st.with_items(ir.items, 0) {
            None => None,
            Some(st) => match builtin::with_builtins(st) {
                None => None,
                Some(st) => st.with_entry(main_fn),
            },
        },
    }
}

/// The bytes of the instructions from `i` on, with the addresses of what they refer to, behind those
/// that are there. `None` if something has no address, or an instruction has no encoding.
pub open spec fn machine_bytes(
    program: AsmV,
    i: int,
    str_table: usize,
    bss: u64,
    done: Seq<u8>,
) -> Option<Seq<u8>>
    decreases program.code.len() - i,
{
    if i >= program.code.len() {
        Some(done)
    } else {
        match instr::linked(
            program.code[i],
            instr::dropped_to_i32(i) as i32,
            program.functions,
            str_table,
            bss,
        ) {
            Some(v) if instr::encodable(v) => machine_bytes(
                program,
                i + 1,
                str_table,
                bss,
                done + bytes::le_bytes(instr::encoding(v), 4),
            ),
            _ => None,
        }
    }
}

/// Machine code has four bytes for each instruction.
pub proof fn law_machine_bytes(program: AsmV, i: int, str_table: usize, bss: u64, done: Seq<u8>)
    requires
        0 <= i <= program.code.len(),
    ensures
        machine_bytes(program, i, str_table, bss, done) matches Some(r) ==> r.len() == done.len() + 4 * (
        program.code.len() - i),
    decreases program.code.len() - i,
{
    if i < program.code.len() {
        if let Some(v) = instr::linked(
            program.code[i],
            instr::dropped_to_i32(i) as i32,
            program.functions,
            str_table,
            bss,
        ) {
            if instr::encodable(v) {
                instr::law_encoding_fits(v);
                bytes::law_le_bytes(instr::encoding(v), 4);
                law_machine_bytes(
                    program,
                    i + 1,
                    str_table,
                    bss,
                    done + bytes::le_bytes(instr::encoding(v), 4),
                );
            }
        }
    }
}

/// Assembles ARM machine code.
pub struct ArmAssembler {
    code: MachineCode,
    functions: StringHashMap<usize>,
    str_literal_offsets: Vec<usize>,
    instructions: Vec<Inst<Register>>,
}

impl View for ArmAssembler {
    type V = AsmV;

    closed spec fn view(&self) -> AsmV {
        AsmV {
            code: inst_views(self.instructions@),
            functions: self.functions@,
            symbols: self.code@.symbols,
            entry_point: self.code.entry_point_offset,
            strings: self.code@.str_literals,
            string_offsets: self.str_literal_offsets@,
        }
    }
}

impl Default for ArmAssembler {
    fn default() -> (r: ArmAssembler)
        ensures
            r@ == AsmV::empty(),
            r.unlinked(),
    {
        let r = ArmAssembler {
            code: MachineCode::default(),
            functions: StringHashMap::new(),
            str_literal_offsets: Vec::new(),
            instructions: Vec::new(),
        };
        proof {
            assert(r@ =~= AsmV::empty());
        }
        r
    }
}

impl ArmAssembler {
    /// Whether there are no bytes yet.
    pub closed spec fn unlinked(self) -> bool {
        self.code.instructions@.len() == 0
    }

    /// Begins with the string literals of a program.
    fn start(strings: Vec<String>) -> (r: Option<ArmAssembler>)
        ensures
            match AsmV::start(text::all_chars(strings@)) {
                Some(st) => r is Some && (r->0)@ == st && (r->0).unlinked(),
                None => r is None,
            },
    {
        let ghost texts = text::all_chars(strings@);
        let mut offsets: Vec<usize> = Vec::new();
        let mut offset: usize = 0;
        let mut i: usize = 0;
        while i < strings.len()
            invariant
                i <= strings.len(),
                texts == text::all_chars(strings@),
                offset == bytes::cstrings_len(texts, i as int),
                offsets@.len() == i,
                forall|k: int| 0 <= k < i ==> offsets@[k] == bytes::cstrings_len(texts, k),
            decreases strings.len() - i,
        {
            offsets.push(offset);
            let len = strings[i].as_str().as_bytes().len();
            proof {
                assert(texts[i as int] == strings@[i as int]@);
                bytes::lemma_cstrings_grow(texts, i + 1, texts.len() as int);
            }
            let end = match offset.checked_add(len) {
                Some(end) => end,
                None => {
                    return None;
                },
            };
            offset = match end.checked_add(1) {
                Some(offset) => offset,
                None => {
                    return None;
                },
            };
            i = i + 1;
        }
        let mut r = ArmAssembler::default();
        r.code.str_literals = strings;
        r.str_literal_offsets = offsets;
        proof {
            assert(r@ =~= AsmV::start(texts)->0);
        }
        Some(r)
    }

    pub fn emit(&mut self, inst: Inst<Register>)
        ensures
            final(self)@ == old(self)@.emit_all(seq![inst@]),
            final(self).unlinked() == old(self).unlinked(),
    {
        let ghost before = self@;
        self.instructions.push(inst);
        proof {
            assert(self@ =~= before.emit_all(seq![inst@]));
        }
    }

    pub fn emit_many(&mut self, insts: Vec<Inst<Register>>)
        ensures
            final(self)@ == old(self)@.emit_all(inst_views(insts@)),
            final(self).unlinked() == old(self).unlinked(),
    {
        let ghost before = self@;
        let mut insts = insts;
        let ghost added = insts@;
        let ghost had = self.instructions@;
        self.instructions.append(&mut insts);
        proof {
            assert(self.instructions@ =~= had + added);
            assert(self@ =~= before.emit_all(inst_views(added)));
        }
    }

    fn emit_prologue(&mut self, frame: U12)
        ensures
            final(self)@ == old(self)@.emit_all(prologue(frame)),
            final(self).unlinked() == old(self).unlinked(),
    {
        let ghost before = self@;
        self.emit(
            Inst::StorePair {
                base: Register::SP,
                first: Register::FP,
                second: Register::LR,
                offset: I7(-2),
            },
        );
        self.emit(
            Inst::Mov { src: EitherReg::Phys(Register::SP), dest: EitherReg::Phys(Register::FP) },
        );
        if frame.0 > 0 {
            self.emit(
                Inst::SubImm {
                    a: EitherReg::Phys(Register::SP),
                    imm: frame,
                    dest: EitherReg::Phys(Register::SP),
                },
            );
        }
        proof {
            assert(self@ =~= before.emit_all(prologue(frame)));
        }
    }

    fn emit_epilogue(&mut self, frame: U12)
        ensures
            final(self)@ == old(self)@.emit_all(epilogue(frame)),
            final(self).unlinked() == old(self).unlinked(),
    {
        let ghost before = self@;
        if frame.0 > 0 {
            self.emit(
                Inst::AddImm {
                    a: EitherReg::Phys(Register::SP),
                    imm: AddImmVal::Fixed(frame),
                    dest: EitherReg::Phys(Register::SP),
                },
            );
        }
        self.emit(
            Inst::LoadPair {
                base: Register::SP,
                first: Register::FP,
                second: Register::LR,
                offset: I7(2),
            },
        );
        self.emit(Inst::Ret { value: Register::X0 });
        proof {
            assert(self@ =~= before.emit_all(epilogue(frame)));
        }
    }

    /// A function begins where the code ends.
    fn begin_function(&mut self, name: String, symbol: String)
        requires
            old(self)@.size() <= usize::MAX,
        ensures
            final(self)@ == old(self)@.with_function(name@, symbol@),
            final(self).unlinked() == old(self).unlinked(),
    {
        let ghost before = self@;
        let ghost had = self.code.symbols@;
        let offset: usize = self.instructions.len();
        self.code.symbols.push((symbol, (offset * 4) as u64));
        self.functions.insert(name, offset);
        proof {
            assert(self@.symbols =~= before.symbols.push((symbol@, before.size() as u64)));
            assert(self@ =~= before.with_function(name@, symbol@));
        }
    }

    fn has_room(&self, more: usize) -> (r: bool)
        requires
            more <= 0x1000,
        ensures
            r == (self@.size() + more <= usize::MAX),
    {
        let most: usize = (usize::MAX - more) / 4;
        self.instructions.len() <= most
    }

    /// The entry point lies where the code ends.
    fn emit_entry(&mut self, main_fn: &str) -> (ok: bool)
        ensures
            match old(self)@.with_entry(main_fn@) {
                Some(st) => ok && final(self)@ == st,
                None => !ok,
            },
            final(self).unlinked() == old(self).unlinked(),
    {
        let ghost before = self@;
        if !self.has_room(12) {
            return false;
        }
        let count: usize = self.instructions.len();
        let distance = match instr::find_distance(
            main_fn,
            instr::drop_to_i32(count as u64),
            &self.functions,
        ) {
            Some(distance) => distance,
            None => {
                return false;
            },
        };
        let entry = (count * 4) as u64;
        let name = "_entry_point".to_owned();
        self.code.symbols.push((name, entry));
        self.code.entry_point_offset = entry;
        proof {
            assert(self@.symbols =~= before.symbols.push(("_entry_point"@, entry)));
        }
        self.emit(Inst::BranchLink { offset: FnOffset::Fixed(distance) });
        self.emit(
            Inst::Movz {
                shift: ImmShift16::L0,
                value: SyscallType::Exit.number(),
                dest: Register::X16,
            },
        );
        self.emit(Inst::Syscall);
        proof {
            assert(self@ =~= before.with_entry(main_fn@)->0);
        }
        true
    }

    fn emit_item(&mut self, item: Item) -> (ok: bool)
        ensures
            match old(self)@.with_item(item@) {
                Some(st) => ok && final(self)@ == st,
                None => !ok,
            },
            final(self).unlinked() == old(self).unlinked(),
    {
        if !self.has_room(0) {
            return false;
        }
        let Item::Function { name, args: _, stack, stack_size, size_map, body } = item;
        let symbol = name.as_str().to_owned();
        self.begin_function(name, symbol);
        ProcedureGen::assemble(self, stack, stack_size, &size_map, body)
    }
}

impl Assembler for ArmAssembler {
    open spec fn can_assemble(ir: IrV, main_fn: Seq<char>) -> bool {
        assembly(ir, main_fn) is Some
    }

    open spec fn holds(&self, ir: IrV, main_fn: Seq<char>) -> bool {
        assembly(ir, main_fn) == Some(self@) && self.unlinked()
    }

    open spec fn code_len(&self) -> int {
        self@.size()
    }

    open spec fn literals(&self) -> Seq<Seq<char>> {
        self@.strings
    }

    open spec fn linked(&self, str_literal_offset: usize, bss_offset: u64) -> Option<CodeV> {
        if !self.unlinked() {
            None
        } else {
            match machine_bytes(self@, 0, str_literal_offset, bss_offset, Seq::empty()) {
                Some(instructions) => Some(
                    CodeV {
                        instructions,
                        entry_point_offset: self@.entry_point,
                        symbols: self@.symbols,
                        str_literals: self@.strings,
                    },
                ),
                None => None,
            }
        }
    }

    proof fn law_linked(&self, str_literal_offset: usize, bss_offset: u64) {
        law_machine_bytes(self@, 0, str_literal_offset, bss_offset, Seq::empty());
    }

    fn assemble(ir: IR, main_fn: &str) -> (r: LinkableCode<Self>) {
        match Self::try_assemble(ir, main_fn) {
            Some(r) => r,
            None => {
                proof {
                    assert(false);
                }
                LinkableCode::of(ArmAssembler::default())
            },
        }
    }

    fn try_assemble(ir: IR, main_fn: &str) -> (r: Option<LinkableCode<Self>>) {
        let ghost program = ir@;
        let IR { items, strings, static_mem: _ } = ir;
        let mut assembler = match ArmAssembler::start(strings) {
            Some(assembler) => assembler,
            None => {
                return None;
            },
        };
        let ghost start = assembler@;
        let ghost list = ir::item_views(items@);
        let count: usize = items.len();
        let mut i: usize = 0;
        for item in it: items.into_iter()
            invariant
                i == it.index(),
                list == ir::item_views(it.seq()),
                list.len() == count,
                list == program.items,
                start.with_items(list, 0) == assembler@.with_items(list, i as int),
                AsmV::start(program.strings) == Some(start),
                program == ir@,
                assembler.unlinked(),
        {
            proof {
                assert(list[i as int] == item@);
            }
            if !assembler.emit_item(item) {
                return None;
            }
            i = i + 1;
        }
        if !builtin::try_assemble(&mut assembler) {
            return None;
        }
        if !assembler.emit_entry(main_fn) {
            return None;
        }
        Some(LinkableCode::of(assembler))
    }

    fn code_size(&self) -> (r: usize) {
        self.instructions.len() * 4
    }

    fn try_code_size(&self) -> (r: Option<usize>) {
        self.instructions.len().checked_mul(4)
    }

    fn str_literals(&self) -> (r: &[String]) {
        self.code.str_literals.as_slice()
    }

    fn into_machine_code(self, str_literal_offset: usize, bss_offset: u64) -> (r: MachineCode) {
        match self.try_into_machine_code(str_literal_offset, bss_offset) {
            Some(r) => r,
            None => MachineCode::default(),
        }
    }

    fn try_into_machine_code(self, str_literal_offset: usize, bss_offset: u64) -> (r: Option<
        MachineCode,
    >) {
        let ghost program = self@;
        let ArmAssembler { code, functions, str_literal_offsets: _, instructions } = self;
        if code.instructions.len() > 0 {
            return None;
        }
        let mut code = code;
        let ghost symbols = code@.symbols;
        let ghost literals = code@.str_literals;
        let ghost entry = code.entry_point_offset;
        let mut out: Vec<u8> = Vec::new();
        let count: usize = instructions.len();
        let mut i: usize = 0;
        proof {
            assert(program.code.len() == count);
        }
        for inst in it: instructions.into_iter()
            invariant
                i == it.index(),
                program == self@,
                self.unlinked(),
                program.code == inst_views(it.seq()),
                program.code.len() == count,
                program.functions == functions@,
                machine_bytes(program, 0, str_literal_offset, bss_offset, Seq::empty())
                    == machine_bytes(program, i as int, str_literal_offset, bss_offset, out@),
        {
            proof {
                assert(program.code[i as int] == inst@);
            }
            let mut inst = inst;
            if !inst.try_link(
                instr::drop_to_i32(i as u64),
                &functions,
                str_literal_offset,
                bss_offset,
            ) {
                return None;
            }
            if !inst.is_encodable() {
                return None;
            }
            bytes::push_le(&mut out, inst.encode() as u64, 4);
            i = i + 1;
        }
        code.instructions = out;
        Some(code)
    }
}

/// Whether an instruction lacks nothing but the addresses of what it refers to.
pub open spec fn is_complete(v: InstV<Register>) -> bool {
    &&& reg::is_physical(v)
    &&& reg::in_range(v)
    &&& match v {
        InstV::Plain(Inst::Branch { offset }) => offset is Fixed,
        InstV::Plain(Inst::BranchCond { offset, .. }) => offset is Fixed,
        InstV::Plain(Inst::BranchNotZero { offset, .. }) => offset is Fixed,
        InstV::Plain(Inst::BranchZero { offset, .. }) => offset is Fixed,
        _ => true,
    }
}

pub open spec fn all_in_range<R>(code: Seq<MarkedV<R>>) -> bool {
    forall|i: int| 0 <= i < code.len() ==> reg::in_range((#[trigger] code[i]).0)
}

pub open spec fn all_complete(code: Seq<InstV<Register>>) -> bool {
    forall|i: int| 0 <= i < code.len() ==> is_complete(#[trigger] code[i])
}

proof fn lemma_plain_code_in_range(op: Operation, around: Surroundings)
    ensures
        plain_code(op, around) matches Some(code) ==> forall|i: int|
            0 <= i < code.len() ==> reg::in_range(InstV::Plain(#[trigger] code[i])),
{
}

proof fn lemma_ops_in_range(
    ops: Seq<OpV>,
    i: int,
    around: Surroundings,
    done: Seq<MarkedV<VirtualReg>>,
)
    requires
        all_in_range(done),
    ensures
        ops_code(ops, i, around, done) matches Some(code) ==> all_in_range(code) && code.len()
            >= done.len(),
    decreases ops.len() - i,
{
    if i < ops.len() {
        if let Some(code) = op_code(ops[i], around) {
            if let OpV::Plain(op) = ops[i] {
                lemma_plain_code_in_range(op, around);
            }
            assert(all_in_range(done + unmarked(code)));
            lemma_ops_in_range(ops, i + 1, around, done + unmarked(code));
        }
    }
}

proof fn lemma_body_in_range(
    blocks: Seq<BlockV>,
    i: int,
    around: Surroundings,
    done: Seq<MarkedV<VirtualReg>>,
)
    requires
        all_in_range(done),
    ensures
        body_code(blocks, i, around, done) matches Some(code) ==> all_in_range(code),
    decreases blocks.len() - i,
{
    if i < blocks.len() {
        if let Some(code) = block_code(blocks[i], around, done) {
            lemma_ops_in_range(blocks[i].ops, 0, around, done);
            assert(all_in_range(code));
            lemma_body_in_range(blocks, i + 1, around, code);
        }
    }
}

proof fn lemma_distances_complete(
    code: Seq<MarkedV<Register>>,
    i: int,
    labels: Map<Label, i32>,
    done: Seq<InstV<Register>>,
)
    requires
        0 <= i,
        all_in_range(code),
        forall|k: int| 0 <= k < code.len() ==> reg::is_physical((#[trigger] code[k]).0),
        all_complete(done),
    ensures
        with_distances(code, i, labels, done) matches Some(r) ==> all_complete(r),
    decreases code.len() - i,
{
    if i < code.len() {
        assert(reg::in_range(code[i].0));
        if let Some(v) = instr::with_distance(
            code[i].0,
            instr::dropped_to_i32(i) as i32,
            labels,
        ) {
            lemma_distances_complete(code, i + 1, labels, done.push(v));
        }
    }
}

proof fn lemma_procedure_complete(body: Seq<BlockV>, stack_size: u32, around: Surroundings)
    ensures
        procedure(body, stack_size, around) matches Some(code) ==> all_complete(code),
{
    if procedure(body, stack_size, around) is Some {
        let own = (stack_size % 0x1_0000) as u16;
        lemma_body_in_range(body, 0, around, Seq::empty());
        let code = body_code(body, 0, around, Seq::empty())->0;
        reg::law_allocation_in_range(code, own, around.sizes);
        reg::law_allocation_is_physical(code, own, around.sizes);
        let (placed, extra) = reg::allocation(code, own, around.sizes)->0;
        let labels = labels_at(placed, placed.len() as int);
        lemma_distances_complete(placed, 0, labels, Seq::empty());
    }
}

proof fn lemma_items_complete(st: AsmV, items: Seq<FunctionV>, i: int)
    requires
        all_complete(st.code),
    ensures
        st.with_items(items, i) matches Some(r) ==> all_complete(r.code),
    decreases items.len() - i,
{
    if i < items.len() {
        let f = items[i];
        let around = Surroundings { strings: st.string_offsets, sizes: f.sizes, stack: f.stack };
        lemma_procedure_complete(f.body, f.stack_size, around);
        if let Some(next) = st.with_item(f) {
            lemma_items_complete(next, items, i + 1);
        }
    }
}

/// Assembled code lacks nothing but addresses: each instruction whose addresses are found has an
/// encoding.
pub proof fn law_assembled_code_encodes(
    ir: IrV,
    main_fn: Seq<char>,
    i: int,
    index: i32,
    str_table: usize,
    bss: u64,
)
    requires
        assembly(ir, main_fn) is Some,
        0 <= i < (assembly(ir, main_fn)->0).code.len(),
    ensures
        ({
            let program = assembly(ir, main_fn)->0;
            instr::linked(program.code[i], index, program.functions, str_table, bss) matches Some(v)
                ==> instr::encodable(v)
        }),
{
    let st = AsmV::start(ir.strings)->0;
    lemma_items_complete(st, ir.items, 0);
    let program = assembly(ir, main_fn)->0;
    assert(all_complete(program.code));
    assert(is_complete(program.code[i]));
}

/// A label has a place if an instruction is marked with it, and that is the place of such an
/// instruction. The end of a function lies behind all its instructions.
pub proof fn law_labels(code: Seq<MarkedV<Register>>, n: int, label: Label)
    requires
        0 <= n <= code.len() < 0x8000_0000,
        forall|i: int| 0 <= i < code.len() ==> (#[trigger] code[i]).1 != InstMarker::FirstInBB(Label::End),
    ensures
        labels_at(code, n).contains_key(Label::End),
        labels_at(code, n)[Label::End] == code.len(),
        label != Label::End && labels_at(code, n).contains_key(label) ==> {
            let i = labels_at(code, n)[label];
            0 <= i < n && code[i as int].1 == InstMarker::FirstInBB(label)
        },
        forall|i: int|
            0 <= i < n && (#[trigger] code[i]).1 == InstMarker::FirstInBB(label) ==> labels_at(
                code,
                n,
            ).contains_key(label),
    decreases n,
{
    if n > 0 {
        law_labels(code, n - 1, label);
        assert(code[n - 1].1 != InstMarker::FirstInBB(Label::End));
    }
}

/// A branch leads to the place of its label, and a call to the place of its function.
pub proof fn law_distances(
    label: Label,
    labels: Map<Label, i32>,
    name: Seq<char>,
    functions: Map<Seq<char>, usize>,
    index: i32,
)
    requires
        functions.contains_key(name) ==> functions[name] < 0x8000_0000,
    ensures
        instr::fixed_branch(BranchOffset::Dynamic(label), index, labels) matches Some(offset) ==> {
            &&& offset matches BranchOffset::Fixed(distance)
            &&& labels.contains_key(label)
            &&& index + distance == labels[label]
        },
        instr::fn_distance(name, index, functions) matches Some(distance)
            ==> functions.contains_key(name) && index + distance == functions[name],
{
}

/// The stack of a function has room for all that it needs, by less than 16 bytes more, and stays
/// aligned to 16 bytes.
pub proof fn law_frame_size(own: int, extra: int)
    requires
        0 <= own,
        0 <= extra,
    ensures
        frame_size(own, extra) matches Some(size) ==> {
            &&& size.wf()
            &&& size.0 % 16 == 0
            &&& own + extra <= size.0 < own + extra + 16
        },
{
}

proof fn lemma_items_keep_strings(st: AsmV, items: Seq<FunctionV>, i: int)
    ensures
        st.with_items(items, i) matches Some(r) ==> r.strings == st.strings && r.string_offsets
            == st.string_offsets,
    decreases items.len() - i,
{
    if i < items.len() {
        if let Some(next) = st.with_item(items[i]) {
            lemma_items_keep_strings(next, items, i + 1);
        }
    }
}

/// The code knows each string literal of the program by the number of bytes before it.
pub proof fn law_string_offsets(ir: IrV, main_fn: Seq<char>, k: int)
    requires
        0 <= k < ir.strings.len(),
    ensures
        assembly(ir, main_fn) matches Some(program) ==> {
            &&& program.strings == ir.strings
            &&& program.string_offsets.len() == ir.strings.len()
            &&& program.string_offsets[k] == bytes::cstrings_len(ir.strings, k)
        },
{
    if let Some(st) = AsmV::start(ir.strings) {
        lemma_items_keep_strings(st, ir.items, 0);
        bytes::lemma_cstrings_grow(ir.strings, 0, k);
        bytes::lemma_cstrings_grow(ir.strings, k, ir.strings.len() as int);
    }
}

} // verus!
