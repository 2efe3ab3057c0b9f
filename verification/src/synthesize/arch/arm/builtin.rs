//! Functions that every program can call.

use vstd::prelude::*;

use crate::ir::ValSize;
use crate::synthesize::arch::arm::instr::{EitherOffset, EitherReg, ImmShift16, Inst, InstV, U12};
use crate::synthesize::arch::arm::reg::Register;
use crate::synthesize::arch::arm::{ArmAssembler, AsmV};

verus! {

/// What a program can ask of the system.
pub enum SyscallType {
    Exit,
    Write,
    MUnmap,
    MMap,
}

/// The number of a system call.
pub open spec fn syscall_number(typ: SyscallType) -> u16 {
    match typ {
        SyscallType::Exit => 1,
        SyscallType::Write => 4,
        SyscallType::MUnmap => 73,
        SyscallType::MMap => 197,
    }
}

impl SyscallType {
    pub fn number(&self) -> (r: u16)
        ensures
            r == syscall_number(*self),
    {
        match self {
            SyscallType::Exit => 1,
            SyscallType::Write => 4,
            SyscallType::MUnmap => 73,
            SyscallType::MMap => 197,
        }
    }
}

/// Loads the argument at a place on the stack into a register.
pub open spec fn load_arg_code(place: u16, dest: Register) -> InstV<Register> {
    InstV::Plain(
        Inst::Load {
            base: EitherReg::Phys(Register::SP),
            offset: EitherOffset::Imm(U12(place)),
            dest,
            size: ValSize::Doubleword,
        },
    )
}

/// Calls the system.
pub open spec fn syscall_code(typ: SyscallType) -> Seq<InstV<Register>> {
    seq![
        InstV::Plain(
            Inst::Movz { shift: ImmShift16::L0, value: syscall_number(typ), dest: Register::X16 },
        ),
        InstV::Plain(Inst::Syscall),
    ]
}

/// Returns what the system answered.
pub open spec fn return_code() -> Seq<InstV<Register>> {
    seq![InstV::Plain(Inst::Ret { value: Register::X0 })]
}

/// Ends the program with the code that is the argument.
pub open spec fn exit_code() -> Seq<InstV<Register>> {
    seq![load_arg_code(0, Register::X0)] + syscall_code(SyscallType::Exit)
}

/// Writes to a file; the arguments are the file, the address and the length.
pub open spec fn write_code() -> Seq<InstV<Register>> {
    seq![
        load_arg_code(0, Register::X0),
        load_arg_code(1, Register::X1),
        load_arg_code(2, Register::X2),
    ] + syscall_code(SyscallType::Write) + return_code()
}

/// Maps memory; there are six arguments.
pub open spec fn mmap_code() -> Seq<InstV<Register>> {
    seq![
        load_arg_code(0, Register::X0),
        load_arg_code(1, Register::X1),
        load_arg_code(2, Register::X2),
        load_arg_code(3, Register::X3),
        load_arg_code(4, Register::X4),
        load_arg_code(5, Register::X5),
    ] + syscall_code(SyscallType::MMap) + return_code()
}

/// The code with that of the built-in functions behind it. `None` if it is too long.
pub open spec fn with_builtins(st: AsmV) -> Option<AsmV> {
    if st.size() + 36 > usize::MAX {
        None
    } else {
        Some(
            st.with_function("std::syscall::exit"@, "exit"@).emit_all(exit_code()).with_function(
                "std::syscall::write"@,
                "write"@,
            ).emit_all(write_code()).with_function("std::syscall::mmap"@, "mmap"@).emit_all(
                mmap_code(),
            ),
        )
    }
}

/// Adds the built-in functions.
pub fn assemble(assembler: &mut ArmAssembler)
    requires
        old(assembler)@.size() + 36 <= usize::MAX,
    ensures
        with_builtins(old(assembler)@) == Some(final(assembler)@),
        final(assembler).unlinked() == old(assembler).unlinked(),
{
    assembler.begin_function("std::syscall::exit".to_owned(), "exit".to_owned());
    exit(assembler);
    assembler.begin_function("std::syscall::write".to_owned(), "write".to_owned());
    write(assembler);
    assembler.begin_function("std::syscall::mmap".to_owned(), "mmap".to_owned());
    mmap(assembler);
}

/// As [`assemble`], with the answer whether the code is short enough.
pub fn try_assemble(assembler: &mut ArmAssembler) -> (ok: bool)
    ensures
        match with_builtins(old(assembler)@) {
            Some(st) => ok && final(assembler)@ == st,
            None => !ok && *final(assembler) == *old(assembler),
        },
        final(assembler).unlinked() == old(assembler).unlinked(),
{
    if !assembler.has_room(36) {
        return false;
    }
    assemble(assembler);
    true
}

fn load_arg(assembler: &mut ArmAssembler, fp_offset: u16, dest: Register)
    requires
        fp_offset < 4096,
    ensures
        final(assembler)@ == old(assembler)@.emit_all(seq![load_arg_code(fp_offset, dest)]),
        final(assembler).unlinked() == old(assembler).unlinked(),
{
    assembler.emit(
        Inst::Load {
            base: EitherReg::Phys(Register::SP),
            offset: EitherOffset::Imm(U12::new(fp_offset)),
            dest,
            size: ValSize::Doubleword,
        },
    );
}

pub fn write(assembler: &mut ArmAssembler)
    ensures
        final(assembler)@ == old(assembler)@.emit_all(write_code()),
        final(assembler).unlinked() == old(assembler).unlinked(),
{
    let ghost before = assembler@;
    load_arg(assembler, 0, Register::X0);
    load_arg(assembler, 1, Register::X1);
    load_arg(assembler, 2, Register::X2);
    syscall(assembler, SyscallType::Write);
    assembler.emit(Inst::Ret { value: Register::X0 });
    proof {
        assert(assembler@ =~= before.emit_all(write_code()));
    }
}

pub fn mmap(assembler: &mut ArmAssembler)
    ensures
        final(assembler)@ == old(assembler)@.emit_all(mmap_code()),
        final(assembler).unlinked() == old(assembler).unlinked(),
{
    let ghost before = assembler@;
    load_arg(assembler, 0, Register::X0);
    load_arg(assembler, 1, Register::X1);
    load_arg(assembler, 2, Register::X2);
    load_arg(assembler, 3, Register::X3);
    load_arg(assembler, 4, Register::X4);
    load_arg(assembler, 5, Register::X5);
    syscall(assembler, SyscallType::MMap);
    assembler.emit(Inst::Ret { value: Register::X0 });
    proof {
        assert(assembler@ =~= before.emit_all(mmap_code()));
    }
}

pub fn exit(assembler: &mut ArmAssembler)
    ensures
        final(assembler)@ == old(assembler)@.emit_all(exit_code()),
        final(assembler).unlinked() == old(assembler).unlinked(),
{
    let ghost before = assembler@;
    load_arg(assembler, 0, Register::X0);
    syscall(assembler, SyscallType::Exit);
    proof {
        assert(assembler@ =~= before.emit_all(exit_code()));
    }
}

fn syscall(assembler: &mut ArmAssembler, typ: SyscallType)
    ensures
        final(assembler)@ == old(assembler)@.emit_all(syscall_code(typ)),
        final(assembler).unlinked() == old(assembler).unlinked(),
{
    let ghost before = assembler@;
    assembler.emit(Inst::Movz { shift: ImmShift16::L0, value: typ.number(), dest: Register::X16 });
    assembler.emit(Inst::Syscall);
    proof {
        assert(assembler@ =~= before.emit_all(syscall_code(typ)));
    }
}

} // verus!
