use blang::analyze::ast::parse::{Fail, Parsed, Parser};
use blang::analyze::ast::{
    ArithmeticOp, Assignable, CompareOp, ExprInner, Expression, FnPtr, Item, LogicalOp, Statement,
    AST,
};
use blang::analyze::lex::Lexer;
use blang::analyze::{Error, ErrorContext};

/// An expression with a bracket around each operation.
fn show(e: &Expression<Parsed>) -> String {
    match &e.inner {
        ExprInner::Const(n, None) => format!("{}", n),
        ExprInner::Const(n, Some(t)) => format!("{}{}", n, t.name()),
        ExprInner::Character(c) => format!("{:?}", c),
        ExprInner::String(s) => format!("{:?}", s),
        ExprInner::Bool(b) => format!("{}", b),
        ExprInner::Ident(s) => s.clone(),
        ExprInner::Pointer(s) => format!("&{}", s),
        ExprInner::Deref(s, _) => format!("*{}", s),
        ExprInner::Arithmetic(a, b, op, None) => {
            let sign = match op {
                ArithmeticOp::Add => "+",
                ArithmeticOp::Sub => "-",
                ArithmeticOp::Mul => "*",
                ArithmeticOp::Div => "/",
                ArithmeticOp::Mod => "%",
            };
            format!("({} {} {})", show(a), sign, show(b))
        }
        ExprInner::Comparison(a, b, op, None) => {
            let sign = match op {
                CompareOp::Equal => "==",
                CompareOp::NotEqual => "!=",
                CompareOp::Less => "<",
                CompareOp::LessOrEqual => "<=",
                CompareOp::Greater => ">",
                CompareOp::GreaterOrEqual => ">=",
            };
            format!("({} {} {})", show(a), sign, show(b))
        }
        ExprInner::Logical(a, b, LogicalOp::And) => format!("({} and {})", show(a), show(b)),
        ExprInner::Logical(a, b, LogicalOp::Or) => format!("({} or {})", show(a), show(b)),
        ExprInner::Not(a) => format!("!{}", show(a)),
        ExprInner::Negate(a) => format!("-{}", show(a)),
        ExprInner::Cast(a, t) => format!("({} as {})", show(a), t.0.show()),
        ExprInner::Index { data, index, .. } => format!("{}[{}]", show(data), show(index)),
        ExprInner::MemberAccess(a, member, _) => format!("{}.{}", show(a), member),
        ExprInner::FnCall(FnPtr::Expr(f), args) => {
            let args: Vec<String> = args.iter().map(show).collect();
            format!("{}({})", show(f), args.join(", "))
        }
        ExprInner::SizeOf(t) => format!("sizeof {}", t.0.show()),
        _ => "?".to_string(),
    }
}

fn parse_expr(src: &str) -> Result<Expression<Parsed>, Fail> {
    let tokens = Lexer::try_lex(src, 0).unwrap().unwrap();
    Parser::new(tokens, src, 0).parse_expr()
}

fn shown(src: &str) -> String {
    match parse_expr(src) {
        Ok(e) => show(&e),
        Err(_) => panic!("no expression: {}", src),
    }
}

fn wrong(src: &str) -> Error {
    match parse_expr(src) {
        Err(Fail::Error(e)) => e,
        _ => panic!("no error: {}", src),
    }
}

fn parse(src: &str) -> (AST<Parsed>, Vec<Error>) {
    let mut errs = ErrorContext::new();
    let tokens = Lexer::lex(src, 3, &mut errs).unwrap();
    let tree = Parser::parse(tokens, src, 3, &mut errs).unwrap();
    (tree, errs.take_errors().0)
}

#[test]
fn expr_addsub() {
    assert_eq!(shown("2 + 3 - 4"), "(2 + (3 - 4))");
}

#[test]
fn expr_muldiv() {
    assert_eq!(shown("2 * 3 / 4"), "(2 * (3 / 4))");
}

#[test]
fn expr_precedence_add_mul() {
    assert_eq!(shown("2 + 3 * 4"), "(2 + (3 * 4))");
}

#[test]
fn expr_precedence_mul_add() {
    assert_eq!(shown("2 * 3 + 4"), "((2 * 3) + 4)");
}

#[test]
fn expr_parenthesis() {
    assert_eq!(shown("2 * (3 + 4)"), "(2 * (3 + 4))");
}

#[test]
fn expr_combo() {
    assert_eq!(shown("1 + 2 * 3 - (4 + 5) / 6"), "(1 + ((2 * 3) - ((4 + 5) / 6)))");
}

#[test]
fn expr_ident() {
    assert_eq!(shown("2 + pi * 4"), "(2 + (pi * 4))");
}

#[test]
fn expressions_of_each_kind() {
    assert_eq!(shown("a == b"), "(a == b)");
    assert_eq!(shown("a < 2"), "(a < 2)");
    assert_eq!(shown("f(1, x)"), "f(1, x)");
    assert_eq!(shown("std::io::print(1)"), "std::io::print(1)");
    assert_eq!(shown("!x"), "!x");
    assert_eq!(shown("'a'"), "'a'");
    assert_eq!(shown("\"text\""), "\"text\"");
    assert_eq!(shown("true"), "true");
    assert_eq!(shown("a.b"), "a.b");
}

#[test]
fn expression_span_reaches_from_first_to_last() {
    let e = match parse_expr("12 + 345") {
        Ok(e) => e,
        Err(_) => panic!(),
    };
    assert_eq!((e.span.range.start, e.span.range.end), (0, 8));
}

#[test]
fn expression_that_ends_too_early() {
    assert!(matches!(parse_expr("2 +"), Err(Fail::Abort)));
    let mut errs = ErrorContext::new();
    let tokens = Lexer::lex("package", 0, &mut errs).unwrap();
    assert!(Parser::try_parse(tokens, "package", 0, &mut errs).is_none());
    assert!(errs.is_empty());
}

#[test]
fn expression_that_begins_wrongly() {
    assert_eq!(wrong("2 + ]").message, "unexpected token");
}

#[test]
fn function_with_statements() {
    let (tree, errs) = parse(
        "package app;\n\
         fn main(a: i64, b: u64) -> i64 {\n\
             x := 1;\n\
             x = x + a;\n\
             if x == 2 { return x; }\n\
             while x < 3 { x += 1; }\n\
             f(x);\n\
             return 0;\n\
         }",
    );
    assert_eq!(errs.len(), 0);
    assert_eq!(tree.package.as_deref(), Some("app"));
    assert_eq!(tree.items.len(), 1);
    let def = match &tree.items[0] {
        Item::Function(def) => def,
        _ => panic!(),
    };
    assert_eq!(def.name, "main");
    assert_eq!(def.args.len(), 2);
    assert_eq!(def.args[1].0, "b");
    assert_eq!(def.args[1].1 .0.show(), "u64");
    assert_eq!(def.ret_type.0.show(), "i64");
    assert_eq!(def.body.len(), 6);
    assert!(matches!(&def.body[0], Statement::Declare { var, .. } if var == "x"));
    assert!(matches!(&def.body[1], Statement::Assign { var: Assignable::Var(v), .. } if v == "x"));
    assert!(matches!(&def.body[2], Statement::If { body, .. } if body.len() == 1));
    match &def.body[3] {
        Statement::WhileLoop { guard, body } => {
            assert_eq!(show(guard), "(x < 3)");
            match &body[0] {
                Statement::Assign { expr, .. } => assert_eq!(show(expr), "(x + 1)"),
                _ => panic!(),
            }
        }
        _ => panic!(),
    }
    assert!(matches!(&def.body[4], Statement::Expr(_)));
    assert!(matches!(&def.body[5], Statement::Return(_)));
}

#[test]
fn items_of_each_kind() {
    let (tree, errs) = parse(
        "package p;\n\
         mod sub;\n\
         extern lib;\n\
         memory buf: u64;\n\
         struct Point { x: i64, y: i64 }\n\
         impl Point { fn len(p: i64) -> i64 { return p; } }\n",
    );
    let messages: Vec<&String> = errs.iter().map(|e| &e.message).collect();
    assert_eq!(messages.len(), 0, "{:?}", messages);
    assert_eq!(tree.modules.len(), 1);
    assert_eq!(tree.modules[0].0, "sub");
    let mut kinds = Vec::new();
    for item in &tree.items {
        kinds.push(match item {
            Item::Function(_) => "fn",
            Item::ForwardDecl { .. } => "decl",
            Item::ExternLib(_) => "extern",
            Item::MemorySegment { .. } => "memory",
            Item::Struct { .. } => "struct",
            Item::Impl { .. } => "impl",
        });
    }
    assert_eq!(kinds, vec!["extern", "memory", "struct", "impl"]);
}

#[test]
fn errors_are_reported_and_parsing_goes_on() {
    let (tree, errs) = parse("package p; 5 fn main() -> i64 { return 0; }");
    assert_eq!(errs.len(), 1);
    assert_eq!(errs[0].span.file, 3);
    assert_eq!(tree.package.as_deref(), Some("p"));
}

#[test]
fn mangling_puts_the_path_in_front() {
    let (mut tree, _) = parse("package p; extern lib; fn f() -> i64 { return 0; } struct S { x: i64 }");
    tree.mangle("a::b");
    assert_eq!(tree.mangled_path.as_deref(), Some("a::b"));
    assert!(matches!(&tree.items[0], Item::ExternLib(name) if name == "lib"));
    assert!(matches!(&tree.items[1], Item::Function(def) if def.name == "a::b::f"));
    assert!(matches!(&tree.items[2], Item::Struct { name, .. } if name == "a::b::S"));
}

#[test]
fn operators_that_bind_tighter_come_first() {
    assert_eq!(shown("a == b && c"), "((a == b) and c)");
    assert_eq!(shown("a && b == c"), "(a and (b == c))");
    assert_eq!(shown("a - b - c"), "(a - (b - c))");
}
