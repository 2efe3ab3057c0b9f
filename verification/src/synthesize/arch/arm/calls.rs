//! How functions call each other: where arguments lie, what a call leaves, what a function does first and
//! last, and what the built-in functions ask of the system.

use vstd::prelude::*;

use crate::ir;
use crate::ir::meaning;
use crate::ir::meaning::Memory;
use crate::ir::{ValSize, VirtualReg};
use crate::synthesize::arch::arm;
use crate::synthesize::arch::arm::builtin;
use crate::synthesize::arch::arm::instr;
use crate::synthesize::arch::arm::instr::{
    AddImmVal, EitherReg, FnOffset, ImmShift16, Inst, InstV, U12,
};
use crate::synthesize::arch::arm::laws;
use crate::synthesize::arch::arm::laws::{Board, Cpu, Loc};
use crate::synthesize::arch::arm::reg::Register;
use crate::synthesize::arch::arm::AsmV;

verus! {

proof fn lemma_run_tail<R>(
    b: Board,
    at: spec_fn(R) -> Loc,
    x: Seq<InstV<R>>,
    y: Seq<InstV<R>>,
    i: int,
    cpu: Cpu,
)
    requires
        0 <= i <= y.len(),
    ensures
        laws::run(b, at, x + y, x.len() + i, cpu) == laws::run(b, at, y, i, cpu),
    decreases y.len() - i,
{
    if i < y.len() && cpu.branch is None {
        assert((x + y)[x.len() + i] == y[i]);
        lemma_run_tail(b, at, x, y, i + 1, laws::effect_of(b, at, y[i], cpu));
    }
}

proof fn lemma_run_on<R>(
    b: Board,
    at: spec_fn(R) -> Loc,
    x: Seq<InstV<R>>,
    y: Seq<InstV<R>>,
    i: int,
    cpu: Cpu,
)
    requires
        0 <= i <= x.len(),
        laws::run(b, at, x, i, cpu).branch is None,
    ensures
        laws::run(b, at, x + y, i, cpu) == laws::run(
            b,
            at,
            y,
            0,
            laws::run(b, at, x, i, cpu),
        ),
    decreases x.len() - i,
{
    if i < x.len() {
        if cpu.branch is None {
            assert((x + y)[i] == x[i]);
            lemma_run_on(b, at, x, y, i + 1, laws::effect_of(b, at, x[i], cpu));
        }
    } else {
        lemma_run_tail(b, at, x, y, 0, cpu);
    }
}

/// Code that is run in two parts does one after the other.
pub proof fn law_run_in_parts<R>(
    b: Board,
    at: spec_fn(R) -> Loc,
    x: Seq<InstV<R>>,
    y: Seq<InstV<R>>,
    cpu: Cpu,
)
    requires
        laws::run(b, at, x, 0, cpu).branch is None,
    ensures
        laws::run(b, at, x + y, 0, cpu) == laws::run(b, at, y, 0, laws::run(b, at, x, 0, cpu)),
{
    lemma_run_on(b, at, x, y, 0, cpu);
}

/// Memory with numbers of eight bytes from an address on, of which the first `n` are stored.
pub open spec fn with_args(b: Board, mem: Memory, base: u64, values: Seq<u64>, n: nat) -> Memory
    decreases n,
{
    if n == 0 || n > values.len() {
        mem
    } else {
        (b.store)(
            with_args(b, mem, base, values, (n - 1) as nat),
            meaning::wrapped(base + 8 * (n - 1)),
            ValSize::Doubleword,
            values[n - 1],
        )
    }
}

proof fn lemma_stores(
    b: Board,
    args: Seq<VirtualReg>,
    values: Seq<u64>,
    i: nat,
    start: Memory,
    cpu: Cpu,
)
    requires
        i <= args.len() < 4096,
        values.len() == args.len(),
        cpu.branch is None,
        forall|k: int|
            0 <= k < args.len() ==> cpu.regs[Loc::Virt(#[trigger] args[k])] == values[k],
        cpu.mem == with_args(b, start, cpu.regs[Loc::Phys(Register::SP)], values, i),
    ensures
        ({
            let code = arm::plain_insts(Seq::new(args.len(), |j: int| arm::store_arg(args[j], j)));
            let end = laws::run(b, laws::virt(), code, i as int, cpu);
            &&& end.regs == cpu.regs
            &&& end.branch is None
            &&& end.mem == with_args(
                b,
                start,
                cpu.regs[Loc::Phys(Register::SP)],
                values,
                args.len(),
            )
        }),
    decreases args.len() - i,
{
    let code = arm::plain_insts(Seq::new(args.len(), |j: int| arm::store_arg(args[j], j)));
    if i < args.len() {
        let next = laws::effect_of(b, laws::virt(), code[i as int], cpu);
        assert(code[i as int] == InstV::Plain(arm::store_arg(args[i as int], i as int)));
        assert(U12(i as u16).0 == i);
        assert(cpu.regs[Loc::Virt(args[i as int])] == values[i as int]);
        assert(next.mem == with_args(
            b,
            start,
            cpu.regs[Loc::Phys(Register::SP)],
            values,
            i + 1,
        ));
        lemma_stores(b, args, values, i + 1, start, next);
    }
}

/// A call puts its arguments in eight bytes each where the stack pointer is for the function that is called,
/// and has back the stack pointer when the function returns. The function's value is in the register that was
/// asked for; every other register of the function that calls is as it was.
pub proof fn law_call(
    b: Board,
    function: Seq<char>,
    args: Seq<VirtualReg>,
    dest: Option<VirtualReg>,
    values: Seq<u64>,
    cpu: Cpu,
)
    requires
        cpu.branch is None,
        values.len() == args.len(),
        forall|k: int|
            0 <= k < args.len() ==> cpu.regs[Loc::Virt(#[trigger] args[k])] == values[k],
    ensures
        arm::call_code(function, args, dest) matches Some(code) ==> {
            let sp = cpu.regs[Loc::Phys(Register::SP)];
            let room = arm::arg_stack(args.len());
            let low = meaning::wrapped(sp - room);
            let mem = with_args(b, cpu.mem, low, values, args.len());
            let (value, left) = (b.call)(function, mem, low);
            let end = laws::run(b, laws::virt(), code, 0, cpu);
            &&& room % 16 == 0 && 8 * args.len() <= room < 8 * args.len() + 16
            &&& end.branch is None
            &&& end.mem == left
            &&& end.regs[Loc::Phys(Register::SP)] == sp
            &&& end.regs[Loc::Phys(Register::FP)] == cpu.regs[Loc::Phys(Register::FP)]
            &&& dest matches Some(d) ==> end.regs[Loc::Virt(d)] == value
            &&& forall|v: VirtualReg|
                dest != Some(v) ==> #[trigger] end.regs[Loc::Virt(v)] == cpu.regs[Loc::Virt(v)]
        },
{
    if let Some(code) = arm::call_code(function, args, dest) {
        let sp = cpu.regs[Loc::Phys(Register::SP)];
        let room = arm::arg_stack(args.len());
        let low = meaning::wrapped(sp - room);
        let size = instr::u12_of(room)->0;
        let at = laws::virt();
        let begin = seq![
            Inst::<VirtualReg>::BeginFnCall { reserved_stack_size: size.0 as u32 },
            Inst::<VirtualReg>::SubImm {
                a: EitherReg::Phys(Register::SP),
                imm: size,
                dest: EitherReg::Phys(Register::SP),
            },
        ];
        let stores = Seq::new(args.len(), |j: int| arm::store_arg(args[j], j));
        let jump = seq![InstV::<VirtualReg>::CallTo(function)];
        let close = seq![
            Inst::<VirtualReg>::AddImm {
                a: EitherReg::Phys(Register::SP),
                imm: AddImmVal::Fixed(size),
                dest: EitherReg::Phys(Register::SP),
            },
            Inst::<VirtualReg>::EndFnCall,
        ];
        let fetch = match dest {
            Some(dest) => arm::plain_insts(
                seq![
                    Inst::Mov { src: EitherReg::Phys(Register::X0), dest: EitherReg::Virt(dest) },
                ],
            ),
            None => Seq::empty(),
        };
        let p0 = arm::plain_insts(begin);
        let p1 = arm::plain_insts(stores);
        let p3 = arm::plain_insts(close);
        assert(code == p0 + p1 + jump + p3 + fetch);
        let c0 = laws::run(b, at, p0, 0, cpu);
        laws::lemma_run2(b, at, p0, cpu);
        assert(c0.regs[Loc::Phys(Register::SP)] == low);
        law_run_in_parts(b, at, p0, p1, cpu);
        lemma_stores(b, args, values, 0, cpu.mem, c0);
        let c1 = laws::run(b, at, p1, 0, c0);
        law_run_in_parts(b, at, p0 + p1, jump, cpu);
        laws::lemma_run1(b, at, jump, c1);
        let c2 = laws::run(b, at, jump, 0, c1);
        law_run_in_parts(b, at, p0 + p1 + jump, p3, cpu);
        laws::lemma_run2(b, at, p3, c2);
        let c3 = laws::run(b, at, p3, 0, c2);
        meaning::law_wrapped(sp - room, room);
        meaning::law_wrapped(sp as int, 0);
        assert(c3.regs[Loc::Phys(Register::SP)] == sp);
        law_run_in_parts(b, at, p0 + p1 + jump + p3, fetch, cpu);
        if dest is Some {
            laws::lemma_run1(b, at, fetch, c3);
        }
    }
}

/// What a function does first: it saves the frame pointer and the link register in front of its arguments,
/// the frame pointer leads to them, and the stack pointer is as much lower as its values need.
pub proof fn law_prologue(b: Board, stack: U12, cpu: Cpu)
    requires
        cpu.branch is None,
    ensures
        ({
            let sp = cpu.regs[Loc::Phys(Register::SP)];
            let fp = meaning::wrapped(sp - 16);
            let end = laws::run(b, laws::phys(), arm::prologue(stack), 0, cpu);
            &&& end.branch is None
            &&& end.regs[Loc::Phys(Register::FP)] == fp
            &&& meaning::sum(fp, 16) == sp
            &&& end.regs[Loc::Phys(Register::SP)] == meaning::wrapped(sp - 16 - stack.0)
            &&& end.mem == (b.store)(
                (b.store)(cpu.mem, fp, ValSize::Doubleword, cpu.regs[Loc::Phys(Register::FP)]),
                meaning::sum(fp, 8),
                ValSize::Doubleword,
                cpu.regs[Loc::Phys(Register::LR)],
            )
        }),
{
    let at = laws::phys();
    let code = arm::prologue(stack);
    let sp = cpu.regs[Loc::Phys(Register::SP)];
    meaning::law_wrapped(sp - 16, 16);
    meaning::law_wrapped(sp - 16, -(stack.0 as int));
    meaning::law_wrapped(sp as int, 0);
    reveal_with_fuel(laws::run, 4);
    assert(sp + 8 * (-2i8) == sp - 16);
}

/// What a function does last: if what was saved is still there, the stack pointer, the frame pointer and the
/// link register are what they were when the function began, and its value is left in the first register.
pub proof fn law_epilogue(b: Board, stack: U12, first: Cpu, last: Cpu)
    requires
        first.branch is None,
        last.branch is None,
        last.regs[Loc::Phys(Register::SP)] == laws::run(
            b,
            laws::phys(),
            arm::prologue(stack),
            0,
            first,
        ).regs[Loc::Phys(Register::SP)],
        ({
            let fp = meaning::wrapped(first.regs[Loc::Phys(Register::SP)] - 16);
            &&& (b.load)(last.mem, fp, ValSize::Doubleword) == first.regs[Loc::Phys(Register::FP)]
            &&& (b.load)(last.mem, meaning::sum(fp, 8), ValSize::Doubleword) == first.regs[Loc::Phys(
                Register::LR,
            )]
        }),
    ensures
        ({
            let end = laws::run(b, laws::phys(), arm::epilogue(stack), 0, last);
            &&& end.mem == last.mem
            &&& end.regs[Loc::Phys(Register::SP)] == first.regs[Loc::Phys(Register::SP)]
            &&& end.regs[Loc::Phys(Register::FP)] == first.regs[Loc::Phys(Register::FP)]
            &&& end.regs[Loc::Phys(Register::LR)] == first.regs[Loc::Phys(Register::LR)]
            &&& end.regs[Loc::Phys(Register::X0)] == last.regs[Loc::Phys(Register::X0)]
        }),
{
    let sp = first.regs[Loc::Phys(Register::SP)];
    let fp = meaning::wrapped(sp - 16);
    law_prologue(b, stack, first);
    meaning::law_wrapped(sp - 16 - stack.0, stack.0 as int);
    meaning::law_wrapped(sp - 16, 16);
    meaning::law_wrapped(sp as int, 0);
    reveal_with_fuel(laws::run, 4);
    assert(sp - 16 - stack.0 + stack.0 == sp - 16);
}

/// The number at a place among the arguments of the function that runs.
pub open spec fn arg_at(b: Board, cpu: Cpu, place: int) -> u64 {
    (b.load)(
        cpu.mem,
        meaning::wrapped(cpu.regs[Loc::Phys(Register::SP)] + 8 * place),
        ValSize::Doubleword,
    )
}

/// One instruction after the other.
proof fn lemma_step<R>(b: Board, at: spec_fn(R) -> Loc, code: Seq<InstV<R>>, i: int, cpu: Cpu)
    requires
        0 <= i < code.len(),
        cpu.branch is None,
    ensures
        laws::run(b, at, code, i, cpu) == laws::run(
            b,
            at,
            code,
            i + 1,
            laws::effect_of(b, at, code[i], cpu),
        ),
{
}

proof fn lemma_load_arg(b: Board, place: u16, dest: Register, cpu: Cpu)
    requires
        place < 4096,
        dest != Register::SP,
    ensures
        laws::effect_of(b, laws::phys(), builtin::load_arg_code(place, dest), cpu) == cpu.set(
            Loc::Phys(dest),
            arg_at(b, cpu, place as int),
        ),
        forall|p: int| #[trigger]
            arg_at(b, cpu.set(Loc::Phys(dest), arg_at(b, cpu, place as int)), p) == arg_at(b, cpu, p),
{
    assert(U12(place).0 * ir::val_bytes(ValSize::Doubleword) == 8 * place);
}

proof fn lemma_number(b: Board, n: u16, cpu: Cpu)
    ensures
        laws::effect_of(
            b,
            laws::phys(),
            InstV::Plain(Inst::Movz { shift: ImmShift16::L0, value: n, dest: Register::X16 }),
            cpu,
        ) == cpu.set(Loc::Phys(Register::X16), n as u64),
{
    assert(n * laws::shift_of(ImmShift16::L0) == n);
    meaning::law_wrapped(n as int, 0);
}

proof fn lemma_exit(b: Board, cpu: Cpu)
    requires
        cpu.branch is None,
    ensures
        ({
            let end = laws::run(b, laws::phys(), builtin::exit_code(), 0, cpu);
            &&& end.regs[Loc::Phys(Register::X16)] == 1
            &&& end.regs[Loc::Phys(Register::X0)] == arg_at(b, cpu, 0)
        }),
        builtin::exit_code()[2] == InstV::<Register>::Plain(Inst::Syscall),
{
    let at = laws::phys();
    let code = builtin::exit_code();
    assert(code.len() == 3);
    let c0 = cpu;
    lemma_step(b, at, code, 0, c0);
    let c1 = laws::effect_of(b, at, code[0], c0);
    assert(code[0] == builtin::load_arg_code(0, Register::X0));
    lemma_load_arg(b, 0, Register::X0, c0);
    lemma_step(b, at, code, 1, c1);
    let c2 = laws::effect_of(b, at, code[1], c1);
    lemma_number(b, 1, c1);
    lemma_step(b, at, code, 2, c2);
    let c3 = laws::effect_of(b, at, code[2], c2);
    assert(laws::run(b, at, code, 3, c3) == c3);
}

proof fn lemma_write(b: Board, cpu: Cpu)
    requires
        cpu.branch is None,
    ensures
        ({
            let end = laws::run(b, laws::phys(), builtin::write_code(), 0, cpu);
            &&& end.regs[Loc::Phys(Register::X16)] == 4
            &&& end.regs[Loc::Phys(Register::X0)] == arg_at(b, cpu, 0)
            &&& end.regs[Loc::Phys(Register::X1)] == arg_at(b, cpu, 1)
            &&& end.regs[Loc::Phys(Register::X2)] == arg_at(b, cpu, 2)
        }),
        builtin::write_code()[4] == InstV::<Register>::Plain(Inst::Syscall),
{
    let at = laws::phys();
    let code = builtin::write_code();
    assert(code.len() == 6);
    let c0 = cpu;
    lemma_step(b, at, code, 0, c0);
    let c1 = laws::effect_of(b, at, code[0], c0);
    assert(code[0] == builtin::load_arg_code(0, Register::X0));
    lemma_load_arg(b, 0, Register::X0, c0);
    lemma_step(b, at, code, 1, c1);
    let c2 = laws::effect_of(b, at, code[1], c1);
    assert(code[1] == builtin::load_arg_code(1, Register::X1));
    lemma_load_arg(b, 1, Register::X1, c1);
    lemma_step(b, at, code, 2, c2);
    let c3 = laws::effect_of(b, at, code[2], c2);
    assert(code[2] == builtin::load_arg_code(2, Register::X2));
    lemma_load_arg(b, 2, Register::X2, c2);
    lemma_step(b, at, code, 3, c3);
    let c4 = laws::effect_of(b, at, code[3], c3);
    lemma_number(b, 4, c3);
    lemma_step(b, at, code, 4, c4);
    let c5 = laws::effect_of(b, at, code[4], c4);
    lemma_step(b, at, code, 5, c5);
    let c6 = laws::effect_of(b, at, code[5], c5);
    assert(laws::run(b, at, code, 6, c6) == c6);
}

proof fn lemma_mmap(b: Board, cpu: Cpu)
    requires
        cpu.branch is None,
    ensures
        ({
            let end = laws::run(b, laws::phys(), builtin::mmap_code(), 0, cpu);
            &&& end.regs[Loc::Phys(Register::X16)] == 197
            &&& end.regs[Loc::Phys(Register::X0)] == arg_at(b, cpu, 0)
            &&& end.regs[Loc::Phys(Register::X1)] == arg_at(b, cpu, 1)
            &&& end.regs[Loc::Phys(Register::X2)] == arg_at(b, cpu, 2)
            &&& end.regs[Loc::Phys(Register::X3)] == arg_at(b, cpu, 3)
            &&& end.regs[Loc::Phys(Register::X4)] == arg_at(b, cpu, 4)
            &&& end.regs[Loc::Phys(Register::X5)] == arg_at(b, cpu, 5)
        }),
        builtin::mmap_code()[7] == InstV::<Register>::Plain(Inst::Syscall),
{
    let at = laws::phys();
    let code = builtin::mmap_code();
    assert(code.len() == 9);
    let c0 = cpu;
    lemma_step(b, at, code, 0, c0);
    let c1 = laws::effect_of(b, at, code[0], c0);
    assert(code[0] == builtin::load_arg_code(0, Register::X0));
    lemma_load_arg(b, 0, Register::X0, c0);
    lemma_step(b, at, code, 1, c1);
    let c2 = laws::effect_of(b, at, code[1], c1);
    assert(code[1] == builtin::load_arg_code(1, Register::X1));
    lemma_load_arg(b, 1, Register::X1, c1);
    lemma_step(b, at, code, 2, c2);
    let c3 = laws::effect_of(b, at, code[2], c2);
    assert(code[2] == builtin::load_arg_code(2, Register::X2));
    lemma_load_arg(b, 2, Register::X2, c2);
    lemma_step(b, at, code, 3, c3);
    let c4 = laws::effect_of(b, at, code[3], c3);
    assert(code[3] == builtin::load_arg_code(3, Register::X3));
    lemma_load_arg(b, 3, Register::X3, c3);
    lemma_step(b, at, code, 4, c4);
    let c5 = laws::effect_of(b, at, code[4], c4);
    assert(code[4] == builtin::load_arg_code(4, Register::X4));
    lemma_load_arg(b, 4, Register::X4, c4);
    lemma_step(b, at, code, 5, c5);
    let c6 = laws::effect_of(b, at, code[5], c5);
    assert(code[5] == builtin::load_arg_code(5, Register::X5));
    lemma_load_arg(b, 5, Register::X5, c5);
    lemma_step(b, at, code, 6, c6);
    let c7 = laws::effect_of(b, at, code[6], c6);
    lemma_number(b, 197, c6);
    lemma_step(b, at, code, 7, c7);
    let c8 = laws::effect_of(b, at, code[7], c7);
    lemma_step(b, at, code, 8, c8);
    let c9 = laws::effect_of(b, at, code[8], c8);
    assert(laws::run(b, at, code, 9, c9) == c9);
}

/// The built-in functions ask the system for what they are named after, with their arguments in order.
pub proof fn law_builtins(b: Board, cpu: Cpu)
    requires
        cpu.branch is None,
    ensures
        ({
            let end = laws::run(b, laws::phys(), builtin::exit_code(), 0, cpu);
            &&& end.regs[Loc::Phys(Register::X16)] == 1
            &&& end.regs[Loc::Phys(Register::X0)] == arg_at(b, cpu, 0)
        }),
        ({
            let end = laws::run(b, laws::phys(), builtin::write_code(), 0, cpu);
            &&& end.regs[Loc::Phys(Register::X16)] == 4
            &&& end.regs[Loc::Phys(Register::X0)] == arg_at(b, cpu, 0)
            &&& end.regs[Loc::Phys(Register::X1)] == arg_at(b, cpu, 1)
            &&& end.regs[Loc::Phys(Register::X2)] == arg_at(b, cpu, 2)
        }),
        ({
            let end = laws::run(b, laws::phys(), builtin::mmap_code(), 0, cpu);
            &&& end.regs[Loc::Phys(Register::X16)] == 197
            &&& end.regs[Loc::Phys(Register::X0)] == arg_at(b, cpu, 0)
            &&& end.regs[Loc::Phys(Register::X1)] == arg_at(b, cpu, 1)
            &&& end.regs[Loc::Phys(Register::X2)] == arg_at(b, cpu, 2)
            &&& end.regs[Loc::Phys(Register::X3)] == arg_at(b, cpu, 3)
            &&& end.regs[Loc::Phys(Register::X4)] == arg_at(b, cpu, 4)
            &&& end.regs[Loc::Phys(Register::X5)] == arg_at(b, cpu, 5)
        }),
        builtin::exit_code()[2] == InstV::<Register>::Plain(Inst::Syscall),
        builtin::write_code()[4] == InstV::<Register>::Plain(Inst::Syscall),
        builtin::mmap_code()[7] == InstV::<Register>::Plain(Inst::Syscall),
{
    lemma_exit(b, cpu);
    lemma_write(b, cpu);
    lemma_mmap(b, cpu);
}

/// Whether code stands at the place of a function.
pub open spec fn stands_at(program: AsmV, name: Seq<char>, code: Seq<InstV<Register>>) -> bool {
    &&& program.functions.contains_key(name)
    &&& program.functions[name] + code.len() <= program.code.len()
    &&& program.code.subrange(
        program.functions[name] as int,
        program.functions[name] + code.len(),
    ) == code
}

/// The code of the built-in functions stands where calls of them lead.
pub proof fn law_builtins_stand(st: AsmV)
    requires
        st.code.len() + 20 <= usize::MAX,
    ensures
        builtin::with_builtins(st) matches Some(r) ==> {
            &&& stands_at(r, "std::syscall::exit"@, builtin::exit_code())
            &&& stands_at(r, "std::syscall::write"@, builtin::write_code())
            &&& stands_at(r, "std::syscall::mmap"@, builtin::mmap_code())
            &&& r.code.len() == st.code.len() + 18
            &&& r.code.subrange(0, st.code.len() as int) == st.code
        },
{
    if let Some(r) = builtin::with_builtins(st) {
        reveal_strlit("std::syscall::exit");
        reveal_strlit("std::syscall::write");
        reveal_strlit("std::syscall::mmap");
        let n = st.code.len() as int;
        assert("std::syscall::exit"@.len() == 18);
        assert("std::syscall::write"@.len() == 19);
        assert("std::syscall::mmap"@.len() == 18);
        assert("std::syscall::exit"@[14] != "std::syscall::mmap"@[14]);
        assert(r.functions["std::syscall::exit"@] == n);
        assert(r.functions["std::syscall::write"@] == n + 3);
        assert(r.functions["std::syscall::mmap"@] == n + 9);
        assert(r.code.subrange(n, n + 3) =~= builtin::exit_code());
        assert(r.code.subrange(n + 3, n + 9) =~= builtin::write_code());
        assert(r.code.subrange(n + 9, n + 18) =~= builtin::mmap_code());
        assert(r.code.subrange(0, n) =~= st.code);
    }
}

/// The code of a function stands where calls of it lead, behind the code that was there.
pub proof fn law_function_stands(st: AsmV, f: ir::FunctionV)
    requires
        st.code.len() <= usize::MAX,
    ensures
        st.with_item(f) matches Some(r) ==> {
            &&& arm::procedure(
                f.body,
                f.stack_size,
                arm::Surroundings {
                    strings: st.string_offsets,
                    sizes: f.sizes,
                    stack: f.stack,
                },
            ) matches Some(code)
            &&& stands_at(r, f.name, code)
            &&& r.code.subrange(0, st.code.len() as int) == st.code
            &&& forall|name: Seq<char>|
                name != f.name && #[trigger] st.functions.contains_key(name)
                    ==> r.functions.contains_key(name) && r.functions[name] == st.functions[name]
        },
{
    if let Some(r) = st.with_item(f) {
        let n = st.code.len() as int;
        assert(r.code.subrange(n, r.code.len() as int) =~= arm::procedure(
            f.body,
            f.stack_size,
            arm::Surroundings { strings: st.string_offsets, sizes: f.sizes, stack: f.stack },
        )->0);
        assert(r.code.subrange(0, n) =~= st.code);
    }
}

/// A program begins with a call of its main function, whose value the system then gets with the request to
/// end the program.
pub proof fn law_entry(st: AsmV, main_fn: Seq<char>)
    requires
        st.code.len() < 0x8000_0000,
        st.functions.contains_key(main_fn) ==> st.functions[main_fn] < 0x8000_0000,
    ensures
        st.with_entry(main_fn) matches Some(r) ==> {
            let n = st.code.len() as int;
            &&& r.entry_point == 4 * n
            &&& r.code.len() == n + 3
            &&& r.code.subrange(0, n) == st.code
            &&& r.code[n] matches InstV::Plain(Inst::BranchLink { offset: FnOffset::Fixed(distance) })
            &&& n + distance == st.functions[main_fn]
            &&& r.code[n + 1] == InstV::Plain(
                Inst::Movz { shift: ImmShift16::L0, value: 1, dest: Register::X16 },
            )
            &&& r.code[n + 2] == InstV::<Register>::Plain(Inst::Syscall)
        },
{
    if let Some(r) = st.with_entry(main_fn) {
        assert(r.code.subrange(0, st.code.len() as int) =~= st.code);
    }
}

} // verus!
