use blang::analyze::lex::token::{Keyword, Operator, Token};
use blang::analyze::lex::{slice_bytes, CharIter, Lexed, Lexer, Tokens};
use blang::analyze::semantics::types::Primitive;
use blang::analyze::{make_span, Error, ErrorCode, ErrorContext, TextRange};

fn lex(src: &str) -> Vec<(Token, (usize, usize))> {
    let mut errs = ErrorContext::new();
    let mut tokens = Lexer::lex(src, 0, &mut errs).unwrap();
    let mut all = Vec::new();
    while let Some((token, range)) = tokens.take_current() {
        all.push((token, (range.start, range.end)));
    }
    all
}

fn check(src: &str, expected: Vec<(Token, (usize, usize))>) {
    let found = lex(src);
    assert_eq!(found.len(), expected.len());
    for (f, e) in found.iter().zip(expected.iter()) {
        assert!(f.0.same(&e.0));
        assert_eq!(f.1, e.1);
    }
}

/// The error at the first token that cannot be read.
fn error_in(src: &str) -> Error {
    let mut lexer = Lexer::new(src, 7);
    loop {
        match lexer.lex_next() {
            Lexed::Token(_, _) => {}
            Lexed::Failed(e) => return e,
            _ => panic!("no error: {}", src),
        }
    }
}

fn ident(s: &str) -> Token {
    Token::Ident(s.to_string())
}

#[test]
fn words_and_signs() {
    check(
        "fn f() -> i64 { x := 12u64; }",
        vec![
            (Token::Keyword(Keyword::Function), (0, 2)),
            (ident("f"), (3, 4)),
            (Token::LeftParenthesis, (4, 5)),
            (Token::RightParenthesis, (5, 6)),
            (Token::Arrow, (7, 9)),
            (ident("i64"), (10, 13)),
            (Token::LeftCurlyBracket, (14, 15)),
            (ident("x"), (16, 17)),
            (Token::Declare, (18, 20)),
            (Token::Number(12, Some(Primitive::U64)), (21, 26)),
            (Token::Semicolon, (26, 27)),
            (Token::RightCurlyBracket, (28, 29)),
        ],
    );
}

#[test]
fn operators_of_one_and_two_characters() {
    check(
        "== = != ! <= < && & +=",
        vec![
            (Token::Operator(Operator::Equal), (0, 2)),
            (Token::Assign(None), (3, 4)),
            (Token::Operator(Operator::NotEqual), (5, 7)),
            (Token::Operator(Operator::Not), (8, 9)),
            (Token::Operator(Operator::LessOrEqual), (10, 12)),
            (Token::Operator(Operator::Less), (13, 14)),
            (Token::Operator(Operator::And), (15, 17)),
            (Token::Reference, (18, 19)),
            (Token::Assign(Some(Operator::Plus)), (20, 22)),
        ],
    );
}

#[test]
fn texts_and_characters() {
    check(
        "\"a\\n\\\"b\" 'x' true",
        vec![
            (Token::String("a\n\"b".to_string()), (0, 8)),
            (Token::Character('x'), (9, 12)),
            (Token::Bool(true), (13, 17)),
        ],
    );
}

#[test]
fn numbers() {
    check(
        "0 18446744073709551615 7i64",
        vec![
            (Token::Number(0, None), (0, 1)),
            (Token::Number(u64::MAX, None), (2, 22)),
            (Token::Number(7, Some(Primitive::I64)), (23, 27)),
        ],
    );
    assert!(Lexer::try_lex("18446744073709551616", 0).is_none());
}

#[test]
fn comments_are_passed_over() {
    check(
        "a // b c\nd",
        vec![(ident("a"), (0, 1)), (ident("d"), (9, 10))],
    );
}

#[test]
fn token_ranges_follow_each_other() {
    let mut end = 0;
    for (_, range) in lex("package app; fn main() { return 1 + 2 * x.y[3]; }") {
        assert!(end <= range.0 && range.0 < range.1);
        end = range.1;
    }
}

#[test]
fn errors_of_each_kind() {
    let e = error_in("a $");
    assert_eq!(e.message, "unexpected token");
    assert_eq!(e.labels[0].1, "unexpected character");
    assert_eq!((e.span.file, e.span.range.start, e.span.range.end), (7, 2, 3));

    let e = error_in("'ab'");
    assert_eq!(e.labels[0].1, "expected ' (quote), got 'Some('b')'");
    let e = error_in("'a\n");
    assert_eq!(e.labels[0].1, "expected ' (quote), got 'Some('\\n')'");
    let e = error_in("'a");
    assert_eq!(e.labels[0].1, "expected ' (quote), got 'None'");

    assert_eq!(error_in("'").message, "unexpected end of file");
    assert_eq!(error_in("\"abc").message, "unexpected end of file");
    assert_eq!(error_in("\"a\\").message, "unexpected end of file");
    assert_eq!(error_in("\"a\\q\"").message, "invalid escape character");
    assert_eq!(error_in("\"\u{e9}\"").message, "invalid string");
    assert_eq!(error_in("1u32").message, "invalid number type specifier");
    assert_eq!(error_in("1u").message, "unexpected end of file");
}

#[test]
fn an_error_ends_lexing_and_is_not_reported() {
    let mut errs = ErrorContext::new();
    assert!(Lexer::lex("a $ b", 0, &mut errs).is_err());
    assert!(errs.is_empty());
}

#[test]
fn keywords_and_their_spellings() {
    let all = [
        ("package", Keyword::Package),
        ("mod", Keyword::Module),
        ("use", Keyword::Use),
        ("extern", Keyword::Extern),
        ("memory", Keyword::Memory),
        ("fn", Keyword::Function),
        ("struct", Keyword::Struct),
        ("impl", Keyword::Impl),
        ("if", Keyword::If),
        ("while", Keyword::While),
        ("for", Keyword::For),
        ("in", Keyword::In),
        ("return", Keyword::Return),
        ("as", Keyword::As),
        ("sizeof", Keyword::SizeOf),
    ];
    for (word, keyword) in all {
        assert!(Keyword::parse(word) == Some(keyword));
    }
    assert!(Keyword::parse("main").is_none());
    assert!(Keyword::parse("").is_none());
}

#[test]
fn precedences() {
    assert_eq!(Operator::Or.precedence(), 0);
    assert_eq!(Operator::And.precedence(), 1);
    assert_eq!(Operator::Equal.precedence(), 2);
    assert_eq!(Operator::Minus.precedence(), 3);
    assert_eq!(Operator::Modulo.precedence(), 4);
    assert_eq!(Operator::Not.precedence(), 5);
    assert_eq!(Operator::Dot.precedence(), 6);
    assert!(Operator::Dot.as_arithmetic().is_none());
    assert!(Operator::Star.as_arithmetic().is_some());
    assert!(Operator::parse('|', Some('|')) == Some((Operator::Or, true)));
    assert!(Operator::parse('|', Some('x')).is_none());
    assert!(Token::parse_atom('x', None).is_none());
}

#[test]
fn tokens_move_on() {
    let range = |n: usize| TextRange { start: n, end: n + 1 };
    let mut tokens = Tokens::new(vec![(Token::Comma, range(0)), (Token::Colon, range(2))]);
    assert_eq!(tokens.cur_token_start(), 0);
    assert!(tokens.last().is_none());
    assert!(tokens.peek().unwrap().0.same(&Token::Colon));
    tokens.move_one();
    assert_eq!(tokens.last_token_end(), 1);
    assert_eq!(tokens.cur_token_start(), 2);
    assert!(tokens.peek().is_none());
    tokens.move_one();
    assert!(tokens.current().is_none());
    assert!(tokens.last().unwrap().0.same(&Token::Colon));
    tokens.move_one();
    assert!(tokens.last().is_none());
    assert!(tokens.take_current().is_none());
}

#[test]
fn characters_ahead() {
    let mut chars = CharIter::new("abcde".chars().collect());
    assert_eq!(chars.look(0), Some('a'));
    assert_eq!(chars.look(2), Some('c'));
    assert_eq!(chars.look(5), None);
    assert_eq!(chars.next(), Some('b'));
    assert_eq!(chars.next2(), Some(('c', 'd')));
    assert_eq!(chars.next3(), None);
}

#[test]
fn slices_by_bytes() {
    assert_eq!(slice_bytes("abc", 1, 3).as_deref(), Some("bc"));
    assert_eq!(slice_bytes("\u{e9}bc", 2, 3).as_deref(), Some("b"));
    assert!(slice_bytes("\u{e9}bc", 1, 3).is_none());
    assert!(slice_bytes("abc", 2, 4).is_none());
    assert!(slice_bytes("abc", 2, 1).is_none());
}

#[test]
fn errors_are_collected() {
    let here = make_span(3, 4, 5);
    let there = make_span(3, 8, 9);
    let mut first = ErrorContext::new();
    assert!(first.is_empty());
    first.report(
        Error::at(here)
            .with_message("wrong")
            .with_label(here, "this")
            .with_note(there, "because of that")
            .with_code(ErrorCode::MissingSemicolon),
    );
    let mut second = ErrorContext::new();
    second.report(Error::unexpected_eof(there));
    first.absorb(&mut second);
    assert!(second.is_empty());
    let errors = first.take_errors();
    assert!(first.is_empty());
    assert_eq!(errors.0.len(), 2);
    assert_eq!(errors.0[0].message, "wrong");
    assert_eq!(errors.0[0].labels.len(), 1);
    assert_eq!(errors.0[0].notes[0].1, "because of that");
    assert!(matches!(errors.0[0].code, Some(ErrorCode::MissingSemicolon)));
    assert!(errors.0[1].span.range.start == 8);
}
