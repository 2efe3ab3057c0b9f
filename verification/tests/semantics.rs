use blang::analyze::ast::parse::Parser;
use blang::analyze::ast::{ArithmeticOp, ExprInner, Expression, Item, Statement, AST};
use blang::analyze::lex::Lexer;
use blang::analyze::semantics::types::resolve::Resolver;
use blang::analyze::semantics::types::{Sign, TypeId, TypeMap};
use blang::analyze::semantics::{analyze, try_analyze, Analyzer};
use blang::analyze::{make_span, Error, ErrorContext};

/// Resolves a program of one file.
fn resolve(src: &str) -> (AST<TypeId>, TypeMap, Vec<Error>) {
    let mut errs = ErrorContext::new();
    let tokens = Lexer::lex(src, 0, &mut errs).unwrap();
    let mut tree = Parser::parse(tokens, src, 0, &mut errs).unwrap();
    assert!(errs.is_empty());
    tree.mangle("app");
    let (tree, types) = Resolver::new().resolve_and_combine(&vec![tree], &mut errs);
    (tree, types, errs.take_errors().0)
}

/// The messages of the errors in a program, and their first labels.
fn errors(src: &str) -> Vec<(String, String)> {
    let (tree, types, found) = resolve(src);
    let mut all: Vec<Error> = found;
    if all.is_empty() {
        match try_analyze(tree, types, "app::main") {
            Some(Ok(_)) => {}
            Some(Err(e)) => all = e.0,
            None => panic!("cannot go on"),
        }
    }
    all.into_iter()
        .map(|e| {
            let label = if e.labels.is_empty() {
                String::new()
            } else {
                e.labels[0].1.clone()
            };
            (e.message, label)
        })
        .collect()
}

fn one_error(body: &str) -> (String, String) {
    let src = format!("package app; fn main() -> i64 {{ {} return 0; }}", body);
    let mut all = errors(&src);
    assert_eq!(all.len(), 1, "{:?}", all);
    all.pop().unwrap()
}

fn check(body: &str, message: &str, label: &str) {
    assert_eq!(one_error(body), (message.to_string(), label.to_string()));
}

fn function_names(tree: &AST<TypeId>) -> Vec<String> {
    let mut names = Vec::new();
    for item in &tree.items {
        match item {
            Item::Function(def) => names.push(def.name.clone()),
            Item::Impl { struct_name, functions } => {
                for def in functions {
                    names.push(format!("{}.{}", struct_name, def.name));
                }
            }
            _ => {}
        }
    }
    names
}

#[test]
fn a_valid_program() {
    let (tree, types, errs) = resolve(
        "package app; fn main() -> i64 { x := 1; while x < 10 { x = x * 2; } return x; }",
    );
    assert!(errs.is_empty());
    let (valid, _) = analyze(tree, types, "app::main").ok().unwrap();
    assert_eq!(function_names(&valid.0), vec!["app::main"]);
}

#[test]
fn functions_that_are_not_used_are_left_out() {
    let (tree, types, errs) = resolve(
        "package app;\n\
         fn a() -> i64 { return b(); }\n\
         fn b() -> i64 { return 1; }\n\
         fn c() -> i64 { return c(); }\n\
         fn main() -> i64 { return a(); }",
    );
    assert!(errs.is_empty());
    let (valid, _) = analyze(tree, types, "app::main").ok().unwrap();
    assert_eq!(function_names(&valid.0), vec!["app::a", "app::b", "app::main"]);
}

#[test]
fn undeclared_variable() {
    check("x := y;", "undeclared variable", "this guy doesn't exist");
}

#[test]
fn duplicate_variable() {
    check("x := 1; x := 2;", "duplicate variable declaration", "variable already defined");
}

#[test]
fn mismatched_types() {
    check("x := 1 == true;", "mismatched types", "this is of type i64");
}

#[test]
fn arithmetic_on_no_integers() {
    let all = errors("package app; fn main() -> i64 { x := true + false; return 0; }");
    assert_eq!(
        all,
        vec![
            (
                "mismatched arithmetic types".to_string(),
                "arithmetic only allowed on integer types".to_string()
            ),
            ("mismatched types".to_string(), "this is of type bool".to_string()),
        ]
    );
}

#[test]
fn logic_on_no_truth_values() {
    check("x := 1 && true;", "expected bool for logical operation", "expected bool");
}

#[test]
fn guard_is_no_truth_value() {
    check("if 1 { x := 2; }", "unexpected type", "expected type 'bool', got 'i64'");
}

#[test]
fn assigned_type_is_wrong() {
    check("x := 1; x = true;", "mismatched types", "this is of type bool");
}

#[test]
fn call_of_no_function() {
    let all = errors("package app; fn main() -> i64 { return nothing(); }");
    assert_eq!(all.len(), 1);
}

#[test]
fn call_with_wrong_arguments() {
    let all = errors(
        "package app; fn f(a: i64) -> i64 { return a; } fn main() -> i64 { return f(1, 2); }",
    );
    assert_eq!(
        all,
        vec![("invalid argument count".to_string(), "expected 1 arguments, got 2".to_string())]
    );
    let all = errors(
        "package app; fn f(a: i64) -> i64 { return a; } fn main() -> i64 { return f(true); }",
    );
    assert_eq!(
        all,
        vec![("incompatible types".to_string(), "this is of type bool".to_string())]
    );
}

#[test]
fn returned_type_is_wrong() {
    let all = errors("package app; fn main() -> i64 { return true; }");
    assert_eq!(
        all,
        vec![("incompatible types".to_string(), "this is of type bool".to_string())]
    );
}

#[test]
fn missing_return() {
    let all = errors("package app; fn f() -> i64 { x := 1; } fn main() -> i64 { return f(); }");
    assert_eq!(
        all,
        vec![(
            "no return statement found in function main".to_string(),
            "main must return a value".to_string()
        )]
    );
    let all = errors(
        "package app; struct S { a: i64 } impl S { fn f() -> i64 { x := 1; } } fn main() -> i64 { return 0; }",
    );
    assert_eq!(
        all,
        vec![(
            "no return statement found in function".to_string(),
            "function must return a value".to_string()
        )]
    );
}

#[test]
fn a_return_in_a_loop_counts() {
    assert_eq!(errors("package app; fn main() -> i64 { while true { return 1; } }"), vec![]);
    assert_eq!(errors("package app; fn main() -> i64 { if true { if false { return 1; } } }"), vec![]);
}

#[test]
fn duplicate_function() {
    let all = errors(
        "package app; fn f() -> i64 { return 1; } fn f() -> i64 { return 2; } fn main() -> i64 { return 0; }",
    );
    assert_eq!(
        all,
        vec![("duplicate function definition".to_string(), "defined here".to_string())]
    );
}

#[test]
fn casts() {
    assert_eq!(errors("package app; fn main() -> i64 { x := 1 as u64; return 0; }"), vec![]);
}

#[test]
fn structs_are_laid_out_in_order() {
    let (_, types, errs) = resolve(
        "package app;\n\
         struct P { a: bool, b: u64, c: bool }\n\
         fn main() -> i64 { return 0; }",
    );
    assert!(errs.is_empty());
    let p = TypeId::from_path("app::P");
    let a = types.offset_of_member(p, "a").unwrap();
    let b = types.offset_of_member(p, "b").unwrap();
    let c = types.offset_of_member(p, "c").unwrap();
    assert!(a < b && b < c && c < types.size_of(p));
    assert!(types.offset_of_member(p, "d").is_none());
    assert!(types.find_member(p, "b").unwrap().0 == TypeId::u64());
}

#[test]
fn a_program_in_error_is_pruned_as_well() {
    let (mut tree, types, errs) = resolve(
        "package app;\n\
         fn a() -> i64 { return 1; }\n\
         fn b() -> i64 { return x; }\n\
         fn main() -> i64 { return a(); }",
    );
    assert!(errs.is_empty());
    let mut analyzer = Analyzer::new("app::main", types);
    let found = analyzer.analyze(&mut tree).err().unwrap();
    assert_eq!(found.0.len(), 1);
    assert_eq!(found.0[0].message, "undeclared variable");
    assert_eq!(function_names(&tree), vec!["app::a", "app::main"]);
}

#[test]
fn what_an_analyzer_knows_stays_known() {
    let (mut tree, types, _) = resolve("package app; fn main() -> i64 { return 1; }");
    let mut analyzer = Analyzer::new("app::main", types);
    assert!(analyzer.analyze(&mut tree).is_ok());
    let found = analyzer.analyze(&mut tree).err().unwrap();
    assert_eq!(found.0.len(), 1);
    assert_eq!(found.0[0].message, "duplicate function definition");
}

#[test]
fn a_value_for_two_fields_is_checked_for_both() {
    let (mut tree, types, errs) = resolve(
        "package app;\n\
         struct P { a: u64, a: i64 }\n\
         fn main() -> i64 { x := 1u64; p := [P]{}; return 0; }",
    );
    assert!(errs.is_empty());
    let span = make_span(0, 0, 1);
    let plain = |inner| Box::new(Expression { inner, typ: None, span });
    let one = plain(ExprInner::Const(1, None));
    let x = plain(ExprInner::Ident("x".to_string()));
    let sum = *plain(ExprInner::Arithmetic(one, x, ArithmeticOp::Add, None));
    constructed(&mut tree).push(("a".to_string(), sum));
    let mut analyzer = Analyzer::new("app::main", types);
    let found = analyzer.analyze(&mut tree).err().unwrap();
    assert_eq!(found.0.len(), 1);
    assert_eq!(found.0[0].message, "mismatched types");
    match &constructed(&mut tree)[0].1.inner {
        ExprInner::Arithmetic(one, _, _, sign) => {
            assert!(one.typ == Some(TypeId::i64()));
            assert!(*sign == Some(Sign::Unsigned));
        }
        _ => panic!(),
    }
}

/// The values in the second statement of the last item.
fn constructed(tree: &mut AST<TypeId>) -> &mut Vec<(String, Expression<TypeId>)> {
    match tree.items.last_mut() {
        Some(Item::Function(def)) => match &mut def.body[1] {
            Statement::Declare { expr, .. } => match &mut expr.inner {
                ExprInner::Construct { fields, .. } => fields,
                _ => panic!(),
            },
            _ => panic!(),
        },
        _ => panic!(),
    }
}
