use blang::analyze::make_span;
use blang::compile::{Compiler, Refusal, Step};
use blang::synthesize::arch::arm::ArmAssembler;
use blang::synthesize::arch::LinkableCode;

fn messages(compiler: &mut Compiler) -> Vec<String> {
    compiler.errors().take_errors().0.into_iter().map(|e| e.message).collect()
}

/// Imports a package whose modules are given by the names of their files.
fn import(compiler: &mut Compiler, main: &str, modules: &[(&str, &str)]) -> Result<String, Refusal> {
    let span = make_span(0, 0, 1);
    compiler.import_package(Some((0, main)), span)?;
    loop {
        match compiler.next_step() {
            Step::Done { package } => return Ok(package),
            Step::Idle => panic!("nothing is imported"),
            Step::Read { file_name, module, span, .. } => {
                let found = modules.iter().position(|m| m.0 == file_name);
                let source = found.map(|i| (i + 1, modules[i].1));
                compiler.import_module(source, &module, span)?;
            }
        }
    }
}

fn compile(main: &str, modules: &[(&str, &str)]) -> Result<LinkableCode<ArmAssembler>, Vec<String>> {
    let mut compiler = Compiler::new();
    match import(&mut compiler, main, modules) {
        Ok(package) => match compiler.try_compile(&package, 0) {
            Ok(code) => Ok(code),
            Err(Refusal::Error) => Err(messages(&mut compiler)),
            Err(Refusal::Abort) => panic!("cannot go on"),
        },
        Err(Refusal::Error) => Err(messages(&mut compiler)),
        Err(Refusal::Abort) => panic!("cannot go on"),
    }
}

#[test]
fn a_program_of_one_file() {
    let code = compile("package app; fn main() -> i64 { return 3; }", &[]).ok().unwrap();
    let linked = code.link(0, 0);
    assert_eq!(linked.symbols[0].0, "app::main");
    assert_eq!(linked.instructions[8..12], [0x60, 0x00, 0x80, 0xd2]);
}

#[test]
fn modules_are_imported_in_order() {
    let mut compiler = Compiler::new();
    let main = "package app; mod a; mod b; fn main() -> i64 { return 0; }";
    assert!(compiler.import_package(Some((4, main)), make_span(0, 0, 1)).is_ok());
    match compiler.next_step() {
        Step::Read { parent, file_name, module, span } => {
            assert_eq!(parent, 4);
            assert_eq!(file_name, "a.bl");
            assert_eq!(module, "app::a");
            assert_eq!(span.file, 4);
            assert!(compiler.import_module(Some((5, "mod c;")), &module, span).is_ok());
        }
        _ => panic!(),
    }
    match compiler.next_step() {
        Step::Read { parent, file_name, module, span } => {
            assert_eq!((parent, file_name.as_str(), module.as_str()), (5, "c.bl", "app::a::c"));
            assert!(compiler.import_module(Some((6, "")), &module, span).is_ok());
        }
        _ => panic!(),
    }
    match compiler.next_step() {
        Step::Read { parent, file_name, module, span } => {
            assert_eq!((parent, file_name.as_str(), module.as_str()), (4, "b.bl", "app::b"));
            assert!(compiler.import_module(Some((7, "")), &module, span).is_ok());
        }
        _ => panic!(),
    }
    assert!(matches!(compiler.next_step(), Step::Done { package } if package == "app"));
    assert!(matches!(compiler.next_step(), Step::Idle));
}

#[test]
fn functions_of_modules_are_called_by_their_paths() {
    let code = compile(
        "package app; mod util; fn main() -> i64 { return util::two(); }",
        &[("util.bl", "fn two() -> i64 { return 2; }")],
    );
    let code = code.ok().unwrap();
    let linked = code.link(0, 0);
    let names: Vec<&str> = linked.symbols.iter().map(|s| s.0.as_str()).collect();
    assert_eq!(names[..2].to_vec(), vec!["app::util::two", "app::main"]);
}

#[test]
fn a_package_that_cannot_be_read() {
    let mut compiler = Compiler::new();
    let span = make_span(2, 0, 1);
    assert!(compiler.import_package(None, span) == Err(Refusal::Error));
    let errors = compiler.errors().take_errors().0;
    assert_eq!(errors.len(), 1);
    assert_eq!(errors[0].message, "failed to import package");
    assert_eq!(errors[0].labels[0].1, "package imported here");
    assert!(errors[0].span == span);
}

#[test]
fn a_module_that_cannot_be_read() {
    let mut compiler = Compiler::new();
    let main = "package app; mod a;";
    assert!(import(&mut compiler, main, &[]) == Err(Refusal::Error));
    let errors = compiler.errors().take_errors().0;
    assert_eq!(errors.len(), 1);
    assert_eq!(errors[0].message, "failed to locate module app::a");
    assert_eq!(errors[0].labels[0].1, "module defined here");
}

#[test]
fn a_main_file_without_a_package() {
    let found = compile("fn main() -> i64 { return 0; }", &[]);
    assert_eq!(found.err().unwrap(), vec!["main file needs to contain a package statement"]);
}

#[test]
fn a_package_without_a_main_function() {
    let found = compile("package app; fn f() -> i64 { return 0; }", &[]);
    assert_eq!(found.err().unwrap(), vec!["package must contain a main function at root level"]);
}

#[test]
fn a_text_that_has_no_tokens() {
    let found = compile("package app; $", &[]);
    assert_eq!(found.err().unwrap().len(), 0);
}

#[test]
fn errors_of_the_program_are_reported() {
    let found = compile("package app; fn main() -> i64 { return x; }", &[]);
    assert_eq!(found.err().unwrap(), vec!["undeclared variable"]);
}

#[test]
fn a_program_that_the_compiler_cannot_handle() {
    let mut compiler = Compiler::new();
    let main = "package app; fn main() -> i64 { return 18446744073709551616; }";
    assert!(compiler.import_package(Some((0, main)), make_span(0, 0, 1)) == Err(Refusal::Abort));
}

#[test]
fn the_type_of_a_string_has_to_be_known() {
    let mut compiler = Compiler::new();
    let main = "package app; fn main() -> i64 { s := \"text\"; return 0; }";
    let package = import(&mut compiler, main, &[]).ok().unwrap();
    let found: Result<LinkableCode<ArmAssembler>, Refusal> = compiler.try_compile(&package, 0);
    assert!(matches!(found, Err(Refusal::Abort)));
}

#[test]
fn strings_and_loops() {
    let code = compile(
        "package app;\n\
         fn first(s: *char) -> i64 { return 1; }\n\
         fn main() -> i64 {\n\
             x := 0;\n\
             while x < 10 { x = x + 1; }\n\
             s := \"text\";\n\
             return first(s);\n\
         }",
        &[],
    );
    let code = code.ok().unwrap();
    assert_eq!(code.str_literals().to_vec(), vec!["text".to_string()]);
    assert!(code.try_link(0x1000, 0x4000).is_some());
}
