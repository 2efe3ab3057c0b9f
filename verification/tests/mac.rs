use blang::ir::{
    BasicBlock, Item, Label, Operation, RegSet, SizeMap, SourceVal, Terminator, ValSize, VirtualReg,
    IR,
};
use blang::synthesize::arch::arm::ArmAssembler;
use blang::synthesize::arch::{Assembler, LinkableCode, MachineCode};
use blang::synthesize::bytes::{push_cstring, push_le, push_zeros};
use blang::synthesize::exe::mac::{align, build_image, page_align, write_file, AppleExecutable};
use blang::synthesize::exe::ExecutableError;
use std::collections::HashMap;

fn code(text: &str) -> LinkableCode<ArmAssembler> {
    let mut ir = IR::new();
    let id = ir.insert_str_literal(text);
    let mut size_map = SizeMap::new(0);
    size_map.push(ValSize::Doubleword);
    ir.items.push(Item::Function {
        name: "app::main".to_string(),
        args: Vec::new(),
        stack: HashMap::new(),
        stack_size: 0,
        size_map,
        body: vec![BasicBlock {
            label: Label::Entry,
            args: RegSet::new(),
            ops: vec![Operation::Assign { src: SourceVal::String(id), dest: VirtualReg(0) }],
            decls: Vec::new(),
            terminator: Terminator::Return { value: VirtualReg(0) },
        }],
    });
    ArmAssembler::assemble(ir, "app::main")
}

fn word(image: &[u8], at: usize) -> u32 {
    u32::from_le_bytes([image[at], image[at + 1], image[at + 2], image[at + 3]])
}

fn long(image: &[u8], at: usize) -> u64 {
    word(image, at) as u64 + ((word(image, at + 4) as u64) << 32)
}

#[test]
fn numbers_are_aligned() {
    assert_eq!(align(25, 8), 32);
    assert_eq!(align(32, 8), 32);
    assert_eq!(align(0, 8), 0);
    assert_eq!(page_align(1), 0x4000);
    assert_eq!(page_align(0x4000), 0x4000);
    assert_eq!(page_align(0x4001), 0x8000);
}

#[test]
fn bytes_of_numbers_and_texts() {
    let mut out = Vec::new();
    push_le(&mut out, 0x0102_0304_0506, 4);
    push_cstring(&mut out, "ab");
    push_zeros(&mut out, 2);
    assert_eq!(out, vec![6, 5, 4, 3, 97, 98, 0, 0, 0]);
}

#[test]
fn the_parts_of_a_file() {
    let code = code("hello");
    let size = code.size();
    let image = build_image(code).unwrap();
    // The header.
    assert_eq!(word(&image, 0), 0xfeed_facf);
    assert_eq!(word(&image, 4), 0x0100_000c);
    assert_eq!(word(&image, 12), 2);
    assert_eq!(word(&image, 16), 9);
    assert_eq!(word(&image, 20), 704);
    assert_eq!(word(&image, 24), 0x20_0004);
    // The first segment.
    assert_eq!(word(&image, 32), 0x19);
    assert_eq!(&image[40..56], b"__PAGEZERO\0\0\0\0\0\0");
    assert_eq!(long(&image, 64), 0x1_0000_0000);
    // The text segment and its sections.
    assert_eq!(&image[112..128], b"__TEXT\0\0\0\0\0\0\0\0\0\0");
    assert_eq!(long(&image, 128), 0x1_0000_0000);
    assert_eq!(long(&image, 136), 0x4000);
    assert_eq!(&image[176..192], b"__text\0\0\0\0\0\0\0\0\0\0");
    assert_eq!(long(&image, 216), size as u64);
    assert_eq!(word(&image, 224), 736);
    assert_eq!(&image[256..272], b"__cstring\0\0\0\0\0\0\0");
    assert_eq!(long(&image, 296), 6);
    assert_eq!(word(&image, 304), 736 + size as u32);
    // The path of the linker.
    assert_eq!(word(&image, 512), 0xe);
    assert_eq!(&image[524..544], b"/usr/lib/dyld\0\0\0\0\0\0\0");
    // The code begins with that of the first function.
    assert_eq!(word(&image, 736), 0xa9bf_7bfd);
    assert_eq!(&image[736 + size..736 + size + 6], b"hello\0");
    // The entry point lies in the code.
    assert_eq!(word(&image, 488), 0x8000_0028);
    assert_eq!(long(&image, 496), 736 + size as u64 - 12);
    // The symbols, their names, and the empty signature.
    let symbols = 5;
    let names = 1 + 10 + 5 + 6 + 5 + 13;
    assert_eq!(word(&image, 712 + 12), symbols);
    assert_eq!(word(&image, 712 + 8), 0x4000);
    assert_eq!(image.len(), 0x4000 + 16 * symbols as usize + names + 16);
    assert_eq!(word(&image, 0x4000), 1);
    assert_eq!(long(&image, 0x4008), 0x1_0000_0000);
    assert_eq!(&image[0x4050..0x405b], b"\0app::main\0");
    assert_eq!(word(&image, image.len() - 16), 0xfade_0cc0);
    assert_eq!(word(&image, image.len() - 12), 12);
}

#[test]
fn files_that_cannot_be_built() {
    // The string literals reach beyond the text segment.
    assert!(build_image(code(&"x".repeat(0x4000))).is_none());
    // A text ends at its first zero byte.
    assert!(build_image(code("a\0b")).is_none());
    let mut machine_code = MachineCode::default();
    machine_code.symbols.push(("a\0b".to_string(), 0));
    assert!(write_file(0, 0, machine_code).is_none());
    let mut machine_code = MachineCode::default();
    machine_code.symbols.push(("a".to_string(), u64::MAX));
    assert!(write_file(0, 0, machine_code).is_none());
    assert!(write_file(0, 0, MachineCode::default()).is_some());
}

#[test]
fn files_are_signed() {
    let unsigned = build_image(code("hello")).unwrap();
    let executable = AppleExecutable::default().with_binary_identifier("test");
    let signed = executable.build(code("hello")).unwrap();
    assert!(signed.len() > unsigned.len());
    // Signing changes the commands that speak of the signature, and not the code.
    assert_eq!(signed[736..0x4000], unsigned[736..0x4000]);
    let identifier = b"com.test\0";
    assert!(signed.windows(identifier.len()).any(|w| w == identifier));
    // The magic number of a signature lies in the file with its highest byte first.
    let at = word(&signed, 616 + 8) as usize;
    assert_eq!(signed[at..at + 4], [0xfa, 0xde, 0x0c, 0xc0]);
    let again = executable.build(code("hello")).unwrap();
    assert_eq!(signed, again);
    let other = AppleExecutable::default().with_binary_identifier("other");
    assert_ne!(other.build(code("hello")).unwrap(), signed);
}

#[test]
fn an_executable_needs_an_identifier() {
    assert!(AppleExecutable::default().build(code("hello")).is_none());
}

#[test]
fn only_what_was_built_is_run() {
    let mut executable = AppleExecutable::default();
    assert!(executable.run_path() == Err(ExecutableError::NoBuildPath));
    executable.set_path("out".to_string());
    assert_eq!(executable.run_path().unwrap(), "out");
}
