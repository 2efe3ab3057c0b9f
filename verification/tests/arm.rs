use blang::ir::{
    BasicBlock, Condition, Item, Label, Operation, RegSet, SizeMap, SourceVal, Terminator, ValSize,
    VirtualReg, IR,
};
use blang::synthesize::arch::arm::builtin;
use blang::synthesize::arch::arm::builtin::SyscallType;
use blang::synthesize::arch::arm::instr::{
    AddImmVal, BranchOffset, EitherOffset, EitherReg, FnOffset, ImmShift16, Inst, Instruction,
    LabelMap, Neg, Nop, PageAddr, I12, I21, I7, U12,
};
use blang::synthesize::arch::arm::reg::{allocate, try_allocate, Reg, Register, RegisterGuard};
use blang::synthesize::arch::arm::{ArmAssembler, InstMarker};
use blang::synthesize::arch::{Assembler, MachineCode};
use std::collections::HashMap;

fn phys(r: Register) -> EitherReg {
    EitherReg::Phys(r)
}

fn virt(n: u32) -> EitherReg {
    EitherReg::Virt(VirtualReg(n))
}

#[test]
fn arithmetic_encodings() {
    let (a, b, dest) = (Register::X1, Register::X2, Register::X3);
    assert_eq!(Inst::Add { a, b, dest }.encode(), 0x8b02_0023);
    assert_eq!(Inst::Sub { a, b, dest }.encode(), 0xcb02_0023);
    assert_eq!(Inst::Mul { a, b, dest }.encode(), 0x9b02_7c23);
    assert_eq!(Inst::Div { a, b, dest, signed: true }.encode(), 0x9ac2_0c23);
    assert!(!Inst::Div { a, b, dest, signed: false }.is_encodable());
    assert_eq!(Inst::Neg { val: a, dest }.encode(), 0xcb01_03e3);
    assert_eq!(Neg { src: a, dest }.encode(), 0xcb01_03e3);
    assert_eq!(Inst::Cmp { a, b }.encode(), 0xeb02_003f);
    assert_eq!(Inst::CmpImm { val: a, imm: I12(0) }.encode(), 0xf100_003f);
    assert_eq!(Inst::CmpImm { val: a, imm: I12(-1) }.encode(), 0xf13f_fc3f);
    let inv_cond = Condition::NotEqual;
    assert_eq!(Inst::Cset { inv_cond, dest }.encode(), 0x9a9f_17e3);
    let imm = AddImmVal::Fixed(U12::new(16));
    let sp = phys(Register::SP);
    assert_eq!(Inst::AddImm::<Register> { a: sp, imm, dest: sp }.encode(), 0x9100_43ff);
    let imm = U12::new(32);
    assert_eq!(Inst::SubImm::<Register> { a: sp, imm, dest: sp }.encode(), 0xd100_83ff);
}

#[test]
fn memory_encodings() {
    let dest = Register::X4;
    let base = phys(Register::SP);
    let offset = EitherOffset::Imm(U12::new(3));
    let load = |size| Inst::Load { base, offset, dest, size }.encode();
    assert_eq!(load(ValSize::Doubleword), 0xf940_0fe4);
    assert_eq!(load(ValSize::Word), 0xb940_0fe4);
    assert_eq!(load(ValSize::Halfword), 0x7940_0fe4);
    assert_eq!(load(ValSize::Byte), 0x3940_0fe4);
    let store = Inst::Store { source: dest, base, offset, size: ValSize::Doubleword };
    assert_eq!(store.encode(), 0xf900_0fe4);
    let offset = EitherOffset::Reg(phys(Register::X9));
    let base = phys(Register::X1);
    let size = ValSize::Doubleword;
    assert_eq!(Inst::Load { base, offset, dest, size }.encode(), 0xf869_e824);
    assert!(!Inst::Store { source: dest, base, offset, size }.is_encodable());
    let pair = Inst::StorePair {
        base: Register::SP,
        first: Register::FP,
        second: Register::LR,
        offset: I7::new(-2),
    };
    assert_eq!(pair.encode(), 0xa9bf_7bfd);
    let pair = Inst::LoadPair {
        base: Register::SP,
        first: Register::FP,
        second: Register::LR,
        offset: I7::new(2),
    };
    assert_eq!(pair.encode(), 0xa8c1_7bfd);
}

#[test]
fn move_encodings() {
    let mov = |src, dest| Inst::Mov::<Register> { src: phys(src), dest: phys(dest) }.encode();
    assert_eq!(mov(Register::SP, Register::FP), 0x9100_03fd);
    assert_eq!(mov(Register::FP, Register::SP), 0x9100_03bf);
    assert_eq!(mov(Register::X1, Register::X0), 0xaa01_03e0);
    let dest = Register::X16;
    assert_eq!(Inst::Movz { shift: ImmShift16::L0, value: 1, dest }.encode(), 0xd280_0030);
    assert_eq!(Inst::Movk { shift: ImmShift16::L48, value: 0xffff, dest }.encode(), 0xf2ff_fff0);
    let page_addr = PageAddr::Fixed(I21::new(5));
    assert_eq!(Inst::Adrp { page_addr, dest: Register::X0 }.encode(), 0xb000_0020);
    let page_addr = PageAddr::Fixed(I21::new(-1));
    assert_eq!(Inst::Adrp { page_addr, dest: Register::X0 }.encode(), 0xf0ff_ffe0);
}

#[test]
fn branch_encodings() {
    let offset = BranchOffset::Fixed(2);
    assert_eq!(Inst::Branch::<Register> { offset }.encode(), 0x1400_0002);
    let offset = BranchOffset::Fixed(-1);
    assert_eq!(Inst::Branch::<Register> { offset }.encode(), 0x17ff_ffff);
    let reg = Register::X5;
    assert_eq!(Inst::BranchZero { offset, reg }.encode(), 0xb4ff_ffe5);
    assert_eq!(Inst::BranchNotZero { offset, reg }.encode(), 0xb5ff_ffe5);
    let cond = Condition::Equal;
    assert_eq!(Inst::BranchCond::<Register> { offset, cond }.encode(), 0x54ff_ffe0);
    let offset = BranchOffset::Fixed(2);
    assert_eq!(Inst::BranchCond::<Register> { offset, cond }.encode(), 0x5400_0040);
    let call = Inst::BranchLink::<Register> { offset: FnOffset::Fixed(-3) };
    assert_eq!(call.encode(), 0x97ff_fffd);
    assert_eq!(Inst::Ret { value: Register::X0 }.encode(), 0xd65f_03c0);
    assert_eq!(Inst::Svc::<Register> { imm: 0x80 }.encode(), 0xd400_1001);
    assert_eq!(Inst::Syscall::<Register>.encode(), 0xd400_1001);
    assert_eq!(Nop.encode(), 0xd503_201f);
    assert_eq!(7u32.encode(), 7);
}

#[test]
fn what_has_no_encoding() {
    assert!(!Inst::<Register>::EndFnCall.is_encodable());
    assert!(!Inst::<Register>::BeginFnCall { reserved_stack_size: 16 }.is_encodable());
    let term = Terminator::Branch { label: Label::End };
    assert!(!Inst::<Register>::Placeholder(term).is_encodable());
    let offset = FnOffset::Dynamic("f".to_string());
    assert!(!Inst::<Register>::BranchLink { offset }.is_encodable());
    let offset = BranchOffset::Dynamic(Label::Entry);
    assert!(!Inst::<Register>::Branch { offset }.is_encodable());
    assert!(!Inst::<Register>::Mov { src: virt(1), dest: phys(Register::X0) }.is_encodable());
    let imm = AddImmVal::Bss(8);
    let x0 = phys(Register::X0);
    assert!(!Inst::<Register>::AddImm { a: x0, imm, dest: x0 }.is_encodable());
}

#[test]
fn lowest_bits() {
    assert_eq!(BranchOffset::Fixed(5).encode_bits(26), 5);
    assert_eq!(BranchOffset::Fixed(-5).encode_bits(26), 0x3ff_fffb);
    assert_eq!(BranchOffset::Fixed(-1).encode_bits(31), 0x7fff_ffff);
    assert_eq!(BranchOffset::Fixed(-1).encode_bits(0), 0);
    assert_eq!(FnOffset::Fixed(0x1234_5678).encode_bits(19), 0x4_5678);
}

#[test]
fn labels_become_distances() {
    let mut labels = LabelMap::new();
    labels.insert(Label::Anon(1), 10);
    labels.insert(Label::Anon(1), 12);
    labels.insert(Label::End, 3);
    let offset = BranchOffset::Dynamic(Label::Anon(1));
    assert!(offset.to_fixed(4, &labels) == BranchOffset::Fixed(8));
    let mut inst = Inst::BranchZero { offset: BranchOffset::Dynamic(Label::End), reg: Register::X1 };
    inst.fix_labels(5, &labels);
    assert!(matches!(inst, Inst::BranchZero { offset: BranchOffset::Fixed(-2), .. }));
    let mut inst = Inst::<Register>::Branch { offset: BranchOffset::Dynamic(Label::Entry) };
    assert!(!inst.try_fix_labels(5, &labels));
    assert!(BranchOffset::Fixed(9).try_to_fixed(1, &labels) == Some(BranchOffset::Fixed(9)));
}

#[test]
fn addresses_are_linked() {
    let mut page = PageAddr::String(0x1001);
    page.link(0, 0x2000, 0x9000);
    assert!(page == PageAddr::Fixed(I21(3)));
    let mut imm = AddImmVal::String(0x1001);
    imm.link(0, 0x2000, 0x9000);
    assert!(imm == AddImmVal::Fixed(U12(1)));
    let mut page = PageAddr::Bss(0x10);
    page.link(0, 0x2000, 0x9000);
    assert_eq!(page.get().0, 9);
    let mut imm = AddImmVal::Bss(0x10);
    imm.link(0, 0x2000, 0x9000);
    assert_eq!(imm.get().0, 0x10);
    assert!(PageAddr::Bss(0).try_link(0, 0x1_0000_0000).is_none());
    assert!(PageAddr::Bss(1).try_link(0, u64::MAX).is_none());
    assert!(AddImmVal::String(1).try_link(usize::MAX, 0).is_none());
}

#[test]
fn registers_of_operands() {
    let inst: Inst<VirtualReg> = Inst::Store {
        source: VirtualReg(1),
        base: virt(2),
        offset: EitherOffset::Reg(virt(3)),
        size: ValSize::Byte,
    };
    let regs = inst.regs_to_alloc();
    assert!(regs == (Some(VirtualReg(1)), Some(VirtualReg(2)), Some(VirtualReg(3)), None));
    let placed = inst.alloc_regs((
        Some(Register::X4),
        Some(Register::X5),
        Some(Register::X6),
        None,
    ));
    match placed {
        Inst::Store { source, base, offset, size } => {
            assert!(source == Register::X4);
            assert!(base == phys(Register::X5));
            assert!(offset == EitherOffset::Reg(phys(Register::X6)));
            assert!(size == ValSize::Byte);
        }
        _ => panic!(),
    }
    assert!(virt(7).to_virtual() == Some(VirtualReg(7)));
    assert!(phys(Reg::X2).to_virtual().is_none());
    assert!(phys(Reg::X2).expect_phys() == Register::X2);
}

fn marked(inst: Inst<VirtualReg>) -> (Inst<VirtualReg>, InstMarker) {
    (inst, InstMarker::Unmarked)
}

fn movz(n: u32) -> Inst<VirtualReg> {
    Inst::Movz { shift: ImmShift16::L0, value: n as u16, dest: VirtualReg(n) }
}

fn sizes(count: u32) -> SizeMap {
    let mut map = SizeMap::new(0);
    for _ in 0..count {
        map.push(ValSize::Doubleword);
    }
    map
}

#[test]
fn registers_are_taken_and_given_back() {
    let insts = vec![
        marked(movz(0)),
        marked(movz(1)),
        marked(Inst::Add { a: VirtualReg(0), b: VirtualReg(1), dest: VirtualReg(2) }),
        marked(movz(3)),
        marked(Inst::Mov { src: virt(2), dest: phys(Register::X0) }),
    ];
    let (code, extra) = allocate(insts, 0, &sizes(4));
    assert_eq!(extra, 0);
    assert!(matches!(code[0].0, Inst::Movz { dest: Register::X0, .. }));
    assert!(matches!(code[1].0, Inst::Movz { dest: Register::X1, .. }));
    assert!(matches!(
        code[2].0,
        Inst::Add { a: Register::X0, b: Register::X1, dest: Register::X2 }
    ));
    // The first two registers are free again, the lowest is taken.
    assert!(matches!(code[3].0, Inst::Movz { dest: Register::X0, .. }));
    assert!(matches!(code[4].0, Inst::Mov { src: EitherReg::Phys(Register::X2), .. }));
}

#[test]
fn what_registers_hold_is_saved_for_a_call() {
    let insts = vec![
        marked(movz(0)),
        marked(Inst::BeginFnCall { reserved_stack_size: 16 }),
        marked(Inst::Svc { imm: 0 }),
        marked(Inst::EndFnCall),
        (
            Inst::Ret { value: VirtualReg(0) },
            InstMarker::FirstInBB(Label::Anon(3)),
        ),
    ];
    let (code, extra) = allocate(insts, 2, &sizes(1));
    assert_eq!(extra, 24);
    assert_eq!(code.len(), 5);
    match &code[1].0 {
        Inst::Store { source, base, offset, size } => {
            assert!(*source == Register::X0 && *base == phys(Register::SP));
            assert!(*offset == EitherOffset::Imm(U12(2)) && *size == ValSize::Doubleword);
        }
        _ => panic!(),
    }
    match &code[3].0 {
        Inst::Load { base, offset, dest, .. } => {
            assert!(*base == phys(Register::SP) && *dest == Register::X0);
            assert!(*offset == EitherOffset::Imm(U12(2)));
        }
        _ => panic!(),
    }
    assert!(code[4].1 == InstMarker::FirstInBB(Label::Anon(3)));
}

#[test]
fn the_stack_is_seen_from_a_call() {
    let insts = vec![
        marked(movz(0)),
        marked(Inst::BeginFnCall { reserved_stack_size: 16 }),
        marked(Inst::Load {
            base: phys(Register::SP),
            offset: EitherOffset::Imm(U12(1)),
            dest: VirtualReg(1),
            size: ValSize::Doubleword,
        }),
        marked(Inst::EndFnCall),
    ];
    let (code, _) = allocate(insts, 0, &sizes(2));
    match &code[2].0 {
        Inst::Load { offset, .. } => assert!(*offset == EitherOffset::Imm(U12(3))),
        _ => panic!(),
    }
}

#[test]
fn too_many_registers() {
    let mut insts = Vec::new();
    for n in 0..17 {
        insts.push(marked(movz(n)));
    }
    assert!(try_allocate(insts, 0, &sizes(17)).is_none());
    // One that no register holds and that is not on the stack cannot be read.
    let insts = vec![marked(Inst::Ret { value: VirtualReg(0) })];
    assert!(try_allocate(insts, 0, &sizes(1)).is_none());
}

/// A program of one function that returns a number.
fn program(value: u64) -> IR {
    let mut ir = IR::new();
    let ops = vec![Operation::Assign { src: SourceVal::Immediate(value), dest: VirtualReg(0) }];
    ir.items.push(function("app::main", ops, VirtualReg(0), 1));
    ir
}

fn function(name: &str, ops: Vec<Operation>, value: VirtualReg, count: u32) -> Item {
    Item::Function {
        name: name.to_string(),
        args: Vec::new(),
        stack: HashMap::new(),
        stack_size: 0,
        size_map: sizes(count),
        body: vec![BasicBlock {
            label: Label::Entry,
            args: RegSet::new(),
            ops,
            decls: Vec::new(),
            terminator: Terminator::Return { value },
        }],
    }
}

fn words(code: &MachineCode) -> Vec<u32> {
    code.instructions
        .chunks(4)
        .map(|b| u32::from_le_bytes([b[0], b[1], b[2], b[3]]))
        .collect()
}

#[test]
fn a_whole_program() {
    let code = ArmAssembler::assemble(program(7), "app::main");
    assert_eq!(code.size(), 4 * (7 + 3 + 6 + 9 + 3));
    assert_eq!(code.str_literals().len(), 0);
    let code = code.link(0, 0);
    let words = words(&code);
    // The function: it saves what it has to, sets its result, and returns.
    assert_eq!(
        words[..7].to_vec(),
        vec![
            0xa9bf_7bfd, 0x9100_03fd, 0xd280_00e0, 0xaa00_03e0, 0x1400_0001, 0xa8c1_7bfd, 0xd65f_03c0
        ]
    );
    // The entry point calls it and ends the program.
    assert_eq!(code.entry_point_offset, 4 * 25);
    assert_eq!(words[25..].to_vec(), vec![0x97ff_ffe7, 0xd280_0030, 0xd400_1001]);
    let symbols: Vec<(&str, u64)> = code.symbols.iter().map(|s| (s.0.as_str(), s.1)).collect();
    assert_eq!(
        symbols,
        vec![("app::main", 0), ("exit", 28), ("write", 40), ("mmap", 64), ("_entry_point", 100)]
    );
}

#[test]
fn long_numbers_come_in_pieces() {
    let code = ArmAssembler::assemble(program(0x1234_5678_9abc_def0), "app::main").link(0, 0);
    let words = words(&code);
    assert_eq!(
        words[2..6].to_vec(),
        vec![0xd29b_de00, 0xf2b3_5780, 0xf2ca_cf00, 0xf2e2_4680]
    );
}

#[test]
fn calls_pass_arguments_on_the_stack() {
    let mut ir = IR::new();
    let ops = vec![
        Operation::Assign { src: SourceVal::Immediate(5), dest: VirtualReg(0) },
        Operation::Call {
            function: "std::syscall::exit".to_string(),
            args: vec![VirtualReg(0)],
            dest: Some(VirtualReg(1)),
        },
    ];
    ir.items.push(function("app::main", ops, VirtualReg(1), 2));
    let code = ArmAssembler::assemble(ir, "app::main").link(0, 0);
    let words = words(&code);
    assert_eq!(
        words[..11].to_vec(),
        vec![
            0xa9bf_7bfd, // save the frame pointer and the link register
            0x9100_03fd, // the frame begins here
            0xd100_43ff, // take 16 bytes of the stack
            0xd280_00a0, // the argument
            0xf900_03e0, // is saved
            0xd100_43ff, // room for the arguments
            0xf900_03e0, // the argument
            0x9400_0008, // the call
            0x9100_43ff, // give the room back
            0xaa00_03e0, // the result
            0xaa00_03e0, // is the result of the function
        ]
    );
}

#[test]
fn strings_are_found_behind_the_code() {
    let mut ir = IR::new();
    let first = ir.insert_str_literal("hello");
    let second = ir.insert_str_literal("bye");
    let ops = vec![
        Operation::Assign { src: SourceVal::String(first), dest: VirtualReg(0) },
        Operation::Assign { src: SourceVal::String(second), dest: VirtualReg(1) },
        Operation::Assign { src: SourceVal::StaticMem(8), dest: VirtualReg(2) },
    ];
    ir.items.push(function("app::main", ops, VirtualReg(1), 3));
    let code = ArmAssembler::assemble(ir, "app::main");
    assert_eq!(code.str_literals().to_vec(), vec!["hello".to_string(), "bye".to_string()]);
    let code = code.link(0x1ffe, 0x8000);
    let words = words(&code);
    assert_eq!(
        words[2..8].to_vec(),
        vec![0xb000_0000, 0x913f_f800, 0xd000_0000, 0x9100_1000, 0x9000_0041, 0x9100_2021]
    );
}

#[test]
fn programs_that_cannot_be_assembled() {
    assert!(ArmAssembler::try_assemble(program(0), "app::other").is_none());
    let mut ir = IR::new();
    let ops = vec![Operation::Assign { src: SourceVal::String(3), dest: VirtualReg(0) }];
    ir.items.push(function("app::main", ops, VirtualReg(0), 1));
    assert!(ArmAssembler::try_assemble(ir, "app::main").is_none());
    // A call of a function that is not there is found out when the code is linked.
    let mut ir = IR::new();
    let ops = vec![Operation::Call {
        function: "nothing".to_string(),
        args: Vec::new(),
        dest: Some(VirtualReg(0)),
    }];
    ir.items.push(function("app::main", ops, VirtualReg(0), 1));
    let code = ArmAssembler::assemble(ir, "app::main");
    assert!(code.try_link(0, 0).is_none());
}

#[test]
fn guards_save_and_load() {
    let reg = Register::X3;
    let (save, load) = (U12(1), U12(2));
    let code_of = |guard: RegisterGuard| {
        let mut assembler = ArmAssembler::default();
        let unwrapped = guard.unwrap(&mut assembler);
        assert!(guard.inner_reg() == unwrapped);
        assert!(unwrapped == reg);
        words(&assembler.into_machine_code(0, 0))
    };
    assert!(code_of(RegisterGuard::Ready(reg)).is_empty());
    assert_eq!(code_of(RegisterGuard::Load { load, reg }), vec![0xf940_0be3]);
    assert_eq!(code_of(RegisterGuard::Save { save, reg }), vec![0xf900_07e3]);
    assert_eq!(
        code_of(RegisterGuard::SaveAndLoad { save, load, reg }),
        vec![0xf900_07e3, 0xf940_0be3]
    );
}

#[test]
fn an_assembler_begins_with_nothing() {
    let assembler = ArmAssembler::default();
    assert_eq!(assembler.code_size(), 0);
    assert_eq!(assembler.try_code_size(), Some(0));
    assert!(assembler.str_literals().is_empty());
    let mut assembler = ArmAssembler::default();
    assembler.emit(Inst::Syscall);
    assembler.emit_many(vec![Inst::Ret { value: Register::X0 }, Inst::Syscall]);
    assert_eq!(assembler.try_code_size(), Some(12));
    let code = assembler.into_machine_code(0, 0);
    assert_eq!(words(&code), vec![0xd400_1001, 0xd65f_03c0, 0xd400_1001]);
    let mut assembler = ArmAssembler::default();
    builtin::assemble(&mut assembler);
    let code = assembler.into_machine_code(0, 0);
    let names: Vec<&str> = code.symbols.iter().map(|s| s.0.as_str()).collect();
    assert_eq!(names, vec!["exit", "write", "mmap"]);
}

#[test]
fn system_calls_and_registers_have_numbers() {
    assert_eq!(SyscallType::Exit.number(), 1);
    assert_eq!(SyscallType::Write.number(), 4);
    assert_eq!(SyscallType::MUnmap.number(), 73);
    assert_eq!(SyscallType::MMap.number(), 197);
    assert_eq!(Register::X0.number(), 0);
    assert_eq!(Register::FP.number(), 29);
    assert_eq!(Register::SP.number(), 31);
    for n in 0..32 {
        assert_eq!(Register::with_number(n).number(), n);
    }
}
