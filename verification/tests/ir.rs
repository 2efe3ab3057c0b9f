use blang::analyze::ast::parse::Parser;
use blang::analyze::ast::CompareOp;
use blang::analyze::lex::Lexer;
use blang::analyze::semantics::analyze;
use blang::analyze::semantics::types::resolve::Resolver;
use blang::analyze::semantics::types::TypeId;
use blang::analyze::ErrorContext;
use blang::ir::ssa::verify_ssa;
use blang::ir::{
    BasicBlock, Condition, Item, Label, Operation, RegSet, SizeMap, SourceVal, StaticMemory, Terminator,
    ValSize, VirtualReg, IR,
};
use blang::names::{NameMap, Names};
use blang::text::{join_all, join_path, path_root, path_split_last, to_decimal};

fn generate(src: &str) -> IR {
    let mut errs = ErrorContext::new();
    let tokens = Lexer::lex(src, 0, &mut errs).unwrap();
    let mut tree = Parser::parse(tokens, src, 0, &mut errs).unwrap();
    tree.mangle("app");
    let (tree, types) = Resolver::new().resolve_and_combine(&vec![tree], &mut errs);
    assert!(errs.is_empty());
    let (valid, analyzer) = analyze(tree, types, "app::main").ok().unwrap();
    IR::generate(&valid, &analyzer)
}

const LOOP: &str = "package app; fn main() -> i64 { x := 0; while x < 10 { x = x + 1; } return x; }";

#[test]
fn a_loop() {
    let shown = generate(LOOP).show();
    let body = &shown[shown.find(" {\n").unwrap()..];
    let expected = " {\n\
        .entry ()  # \n    %0 = 0\n    store %0 => stack 0\n    goto .L0\n\n\
        .L0 (%0)  # .entry, .L1\n    %1 = load stack 0\n    %2 = 10\n    \
        %3 = cmp %1 SignedLess %2\n    br cond %3 [\n      true => .L1\n      false => .L2\n    ]\n\n\
        .L1 (%0)  # .L0\n    %4 = load stack 0\n    %5 = 1\n    %6 = %4 + %5\n    %0 = %6\n    \
        store %0 => stack 0\n    goto .L0\n\n\
        .L2 ()  # .L0\n    %7 = load stack 0\n    ret %7\n\n\
        .L3 ()  # \n    goto .end\n\n}\n\n";
    assert_eq!(body, expected);
}

#[test]
fn calls_and_conditions() {
    let ir = generate(
        "package app;\n\
         fn f(a: i64, b: i64) -> i64 { if a == b && a < 3 { return a * b; } return f(a - 1, -b); }\n\
         fn main() -> i64 { return f(4, 5); }",
    );
    let shown = ir.show();
    assert!(shown.starts_with("fn app::f("));
    assert!(shown.contains(
        ".L0 ()  # .entry\n    load arg fp + 0 => %6\n    %7 = 3\n    %8 = cmp %6 SignedLess %7\n"
    ));
    assert!(shown.contains(".L1 ()  # .L0\n    %2 = 1\n    goto .L3\n"));
    assert!(shown.contains(".L2 ()  # .entry, .L0\n    %2 = 0\n    goto .L3\n"));
    assert!(shown.contains(".L3 (%2)  # .L1, .L2\n    br cond %2 [\n"));
    assert!(shown.contains("    %16 = neg %15\n    %17 = call app::f(%14, %16)\n    ret %17\n"));
}

#[test]
fn registers_that_are_assigned_twice() {
    assert!(verify_ssa(&generate("package app; fn main() -> i64 { return 1; }")).is_ok());
    let (name, twice) = verify_ssa(&generate(LOOP)).err().unwrap();
    assert_eq!(name, "app::main");
    assert!(twice.contains(VirtualReg(0)));
    assert!(!twice.contains(VirtualReg(1)));
}

#[test]
fn registers_of_operations() {
    let op = Operation::StorePointer {
        src: VirtualReg(1),
        ptr: VirtualReg(2),
        size: ValSize::Byte,
        offset: 0,
    };
    let (used, set) = op.vregs_used();
    assert!(used.contains(VirtualReg(1)) && used.contains(VirtualReg(2)));
    assert!(set.is_none());
    let op = Operation::Call {
        function: "f".to_string(),
        args: vec![VirtualReg(4), VirtualReg(5)],
        dest: Some(VirtualReg(6)),
    };
    let (used, set) = op.vregs_used();
    assert!(used.contains(VirtualReg(4)) && used.contains(VirtualReg(5)));
    assert!(!used.contains(VirtualReg(6)));
    assert!(set == Some(VirtualReg(6)));
    let (val, dest) = (VirtualReg(7), VirtualReg(8));
    let (used, set) = Operation::AddressOf { val, dest }.vregs_used();
    assert!(used.contains(val) && !used.contains(dest));
    assert!(set == Some(dest));
    let (used, set) = Operation::AddressOfArg { offset: 1, dest }.vregs_used();
    assert!(!used.contains(dest));
    assert!(set == Some(dest));
    assert!(SourceVal::VReg(VirtualReg(3)).reg() == Some(VirtualReg(3)));
    assert!(SourceVal::Immediate(3).reg().is_none());
}

#[test]
fn successors_of_blocks() {
    let block = |terminator| BasicBlock {
        label: Label::Entry,
        args: RegSet::new(),
        ops: Vec::new(),
        decls: Vec::new(),
        terminator,
    };
    let cond = VirtualReg(1);
    let if_true = Label::Anon(1);
    let if_false = Label::Anon(2);
    let branch = Terminator::BranchCond { cond, if_true, if_false };
    assert!(branch.vreg_used() == Some(cond));
    assert!(block(branch).successors() == vec![if_true, if_false]);
    assert!(block(Terminator::Branch { label: if_true }).successors() == vec![if_true]);
    assert!(block(Terminator::Return { value: cond }).successors() == vec![Label::End]);
}

#[test]
fn sizes_of_values() {
    for (bytes, size) in [
        (1, ValSize::Byte),
        (2, ValSize::Halfword),
        (4, ValSize::Word),
        (8, ValSize::Doubleword),
    ] {
        assert!(ValSize::from_bytes(bytes) == Some(size));
        assert_eq!(size.to_bytes(), bytes);
    }
    assert!(ValSize::from_bytes(3).is_none());
    let mut sizes = SizeMap::new(5);
    sizes.push(ValSize::Byte);
    assert!(sizes.get(VirtualReg(5)) == Some(ValSize::Byte));
    assert!(sizes.get(VirtualReg(4)).is_none());
    assert!(sizes.get(VirtualReg(6)).is_none());
}

#[test]
fn conditions_and_their_opposites() {
    assert!(Condition::from_ast_op(CompareOp::Less, true) == Condition::SignedLess);
    assert!(Condition::from_ast_op(CompareOp::Less, false) == Condition::UnsignedLess);
    assert!(Condition::from_ast_op(CompareOp::Equal, true) == Condition::Equal);
    assert!(Condition::SignedLess.inverted() == Condition::SignedGreaterOrEqual);
    assert!(Condition::UnsignedGreater.inverted() == Condition::UnsignedLessOrEqual);
    assert!(Condition::Always.inverted() == Condition::Never);
}

#[test]
fn static_memory_lies_one_behind_the_other() {
    let mut memory = StaticMemory::new();
    assert_eq!(memory.alloc_segment("a", TypeId::u64(), 8), 0);
    assert_eq!(memory.alloc_segment("b", TypeId::bool(), 1), 8);
    assert_eq!(memory.size(), 9);
    assert!(*memory.get("b").unwrap() == (8, TypeId::bool()));
    assert!(memory.get("c").is_none());
}

#[test]
fn equal_strings_are_kept_once() {
    let mut ir = IR::new();
    assert_eq!(ir.insert_str_literal("a"), 0);
    assert_eq!(ir.insert_str_literal("b"), 1);
    assert_eq!(ir.insert_str_literal("a"), 0);
    assert_eq!(ir.strings, vec!["a", "b"]);
}

#[test]
fn paths_and_numbers() {
    assert_eq!(join_path("a::b", "c"), "a::b::c");
    assert_eq!(path_root("a::b::c"), "a");
    assert_eq!(path_root("a"), "a");
    assert_eq!(
        path_split_last("a::b::c"),
        Some(("a::b".to_string(), "c".to_string()))
    );
    assert!(path_split_last("a").is_none());
    assert_eq!(to_decimal(0), "0");
    assert_eq!(to_decimal(u64::MAX), "18446744073709551615");
    let items = vec!["x".to_string(), "y".to_string()];
    assert_eq!(join_all(&items, ", "), "x, y");
}

#[test]
fn sets_of_names() {
    let mut names = Names::new();
    names.insert("a");
    names.insert("a");
    assert!(names.contains("a") && !names.contains("b"));
    let mut map = NameMap::new();
    map.insert("f".to_string(), names);
    assert!(map.get("f").unwrap().contains("a"));
    assert!(map.get("g").is_none());
}

#[test]
fn the_blocks_of_a_function_hang_together() {
    let ir = generate(LOOP);
    let Item::Function { body, .. } = &ir.items[0];
    assert!(body[0].label == Label::Entry);
    let labels: Vec<Label> = body.iter().map(|block| block.label).collect();
    for (i, label) in labels.iter().enumerate() {
        assert!(!labels[i + 1..].contains(label));
    }
    for block in body {
        for label in block.successors() {
            assert!(label == Label::End || labels.contains(&label));
        }
    }
}
