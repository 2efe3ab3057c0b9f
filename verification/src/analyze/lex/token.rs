//! The tokens of the language.

use vstd::prelude::*;

use crate::analyze::ast::ArithmeticOp;
use crate::analyze::semantics::types::Primitive;
use crate::text::str_eq;

verus! {

pub enum Token {
    Keyword(Keyword),
    Number(u64, Option<Primitive>),
    Character(char),
    String(String),
    Bool(bool),
    Ident(String),
    Semicolon,
    Colon,
    Comma,
    LeftParenthesis,
    RightParenthesis,
    LeftCurlyBracket,
    RightCurlyBracket,
    LeftBracket,
    RightBracket,
    Reference,
    Declare,
    Assign(Option<Operator>),
    Arrow,
    PathSeparator,
    Operator(Operator),
}

/// What a [`Token`] stands for.
pub enum TokenV {
    Keyword(Keyword),
    Number(u64, Option<Primitive>),
    Character(char),
    String(Seq<char>),
    Bool(bool),
    Ident(Seq<char>),
    Semicolon,
    Colon,
    Comma,
    LeftParenthesis,
    RightParenthesis,
    LeftCurlyBracket,
    RightCurlyBracket,
    LeftBracket,
    RightBracket,
    Reference,
    Declare,
    Assign(Option<Operator>),
    Arrow,
    PathSeparator,
    Operator(Operator),
}

impl View for Token {
    type V = TokenV;

    open spec fn view(&self) -> TokenV {
        match self {
            Token::Keyword(k) => TokenV::Keyword(*k),
            Token::Number(n, t) => TokenV::Number(*n, *t),
            Token::Character(c) => TokenV::Character(*c),
            Token::String(s) => TokenV::String(s@),
            Token::Bool(b) => TokenV::Bool(*b),
            Token::Ident(s) => TokenV::Ident(s@),
            Token::Semicolon => TokenV::Semicolon,
            Token::Colon => TokenV::Colon,
            Token::Comma => TokenV::Comma,
            Token::LeftParenthesis => TokenV::LeftParenthesis,
            Token::RightParenthesis => TokenV::RightParenthesis,
            Token::LeftCurlyBracket => TokenV::LeftCurlyBracket,
            Token::RightCurlyBracket => TokenV::RightCurlyBracket,
            Token::LeftBracket => TokenV::LeftBracket,
            Token::RightBracket => TokenV::RightBracket,
            Token::Reference => TokenV::Reference,
            Token::Declare => TokenV::Declare,
            Token::Assign(op) => TokenV::Assign(*op),
            Token::Arrow => TokenV::Arrow,
            Token::PathSeparator => TokenV::PathSeparator,
            Token::Operator(op) => TokenV::Operator(*op),
        }
    }
}

/// The token that the characters `current` and `lookahead` spell, and whether it takes both.
pub open spec fn atom(current: char, lookahead: Option<char>) -> Option<(TokenV, bool)> {
    if current == ':' && lookahead == Some('=') {
        Some((TokenV::Declare, true))
    } else if current == ':' && lookahead == Some(':') {
        Some((TokenV::PathSeparator, true))
    } else if current == '-' && lookahead == Some('>') {
        Some((TokenV::Arrow, true))
    } else if current == '+' && lookahead == Some('=') {
        Some((TokenV::Assign(Some(Operator::Plus)), true))
    } else if current == '-' && lookahead == Some('=') {
        Some((TokenV::Assign(Some(Operator::Minus)), true))
    } else if current == '*' && lookahead == Some('=') {
        Some((TokenV::Assign(Some(Operator::Star)), true))
    } else if current == '/' && lookahead == Some('=') {
        Some((TokenV::Assign(Some(Operator::Slash)), true))
    } else if current == '=' {
        Some((TokenV::Assign(None), false))
    } else if current == ';' {
        Some((TokenV::Semicolon, false))
    } else if current == ':' {
        Some((TokenV::Colon, false))
    } else if current == ',' {
        Some((TokenV::Comma, false))
    } else if current == '(' {
        Some((TokenV::LeftParenthesis, false))
    } else if current == ')' {
        Some((TokenV::RightParenthesis, false))
    } else if current == '{' {
        Some((TokenV::LeftCurlyBracket, false))
    } else if current == '}' {
        Some((TokenV::RightCurlyBracket, false))
    } else if current == '[' {
        Some((TokenV::LeftBracket, false))
    } else if current == ']' {
        Some((TokenV::RightBracket, false))
    } else if current == '&' {
        Some((TokenV::Reference, false))
    } else {
        None
    }
}

impl Token {
    /// The token that `current` and `lookahead` spell, and whether it takes both characters.
    pub fn parse_atom(current: char, lookahead: Option<char>) -> (r: Option<(Token, bool)>)
        ensures
            match r {
                Some((t, two)) => atom(current, lookahead) == Some((t@, two)),
                None => atom(current, lookahead) is None,
            },
    {
        let token = match (current, lookahead) {
            (':', Some('=')) => (Token::Declare, true),
            (':', Some(':')) => (Token::PathSeparator, true),
            ('-', Some('>')) => (Token::Arrow, true),
            ('+', Some('=')) => (Token::Assign(Some(Operator::Plus)), true),
            ('-', Some('=')) => (Token::Assign(Some(Operator::Minus)), true),
            ('*', Some('=')) => (Token::Assign(Some(Operator::Star)), true),
            ('/', Some('=')) => (Token::Assign(Some(Operator::Slash)), true),
            ('=', _) => (Token::Assign(None), false),
            (';', _) => (Token::Semicolon, false),
            (':', _) => (Token::Colon, false),
            (',', _) => (Token::Comma, false),
            ('(', _) => (Token::LeftParenthesis, false),
            (')', _) => (Token::RightParenthesis, false),
            ('{', _) => (Token::LeftCurlyBracket, false),
            ('}', _) => (Token::RightCurlyBracket, false),
            ('[', _) => (Token::LeftBracket, false),
            (']', _) => (Token::RightBracket, false),
            ('&', _) => (Token::Reference, false),
            _ => {
                return None;
            },
        };
        Some(token)
    }

    /// A token that stands for the same.
    pub fn duplicate(&self) -> (r: Token)
        ensures
            r@ == self@,
    {
        match self {
            Token::Keyword(k) => Token::Keyword(*k),
            Token::Number(n, t) => Token::Number(*n, *t),
            Token::Character(c) => Token::Character(*c),
            Token::String(s) => Token::String(s.clone()),
            Token::Bool(b) => Token::Bool(*b),
            Token::Ident(s) => Token::Ident(s.clone()),
            Token::Semicolon => Token::Semicolon,
            Token::Colon => Token::Colon,
            Token::Comma => Token::Comma,
            Token::LeftParenthesis => Token::LeftParenthesis,
            Token::RightParenthesis => Token::RightParenthesis,
            Token::LeftCurlyBracket => Token::LeftCurlyBracket,
            Token::RightCurlyBracket => Token::RightCurlyBracket,
            Token::LeftBracket => Token::LeftBracket,
            Token::RightBracket => Token::RightBracket,
            Token::Reference => Token::Reference,
            Token::Declare => Token::Declare,
            Token::Assign(op) => Token::Assign(*op),
            Token::Arrow => Token::Arrow,
            Token::PathSeparator => Token::PathSeparator,
            Token::Operator(op) => Token::Operator(*op),
        }
    }

    /// Whether two tokens stand for the same.
    pub fn same(&self, other: &Token) -> (r: bool)
        ensures
            r == (self@ == other@),
    {
        match (self, other) {
            (Token::Keyword(a), Token::Keyword(b)) => *a == *b,
            (Token::Number(a, t), Token::Number(b, u)) => *a == *b && match (t, u) {
                (Some(t), Some(u)) => *t == *u,
                (None, None) => true,
                _ => false,
            },
            (Token::Character(a), Token::Character(b)) => *a == *b,
            (Token::String(a), Token::String(b)) => str_eq(a.as_str(), b.as_str()),
            (Token::Bool(a), Token::Bool(b)) => *a == *b,
            (Token::Ident(a), Token::Ident(b)) => str_eq(a.as_str(), b.as_str()),
            (Token::Semicolon, Token::Semicolon) => true,
            (Token::Colon, Token::Colon) => true,
            (Token::Comma, Token::Comma) => true,
            (Token::LeftParenthesis, Token::LeftParenthesis) => true,
            (Token::RightParenthesis, Token::RightParenthesis) => true,
            (Token::LeftCurlyBracket, Token::LeftCurlyBracket) => true,
            (Token::RightCurlyBracket, Token::RightCurlyBracket) => true,
            (Token::LeftBracket, Token::LeftBracket) => true,
            (Token::RightBracket, Token::RightBracket) => true,
            (Token::Reference, Token::Reference) => true,
            (Token::Declare, Token::Declare) => true,
            (Token::Assign(a), Token::Assign(b)) => match (a, b) {
                (Some(a), Some(b)) => *a == *b,
                (None, None) => true,
                _ => false,
            },
            (Token::Arrow, Token::Arrow) => true,
            (Token::PathSeparator, Token::PathSeparator) => true,
            (Token::Operator(a), Token::Operator(b)) => *a == *b,
            _ => false,
        }
    }
}

#[derive(Debug, Clone, Copy, PartialEq, Eq, Structural)]
pub enum Operator {
    Equal,
    NotEqual,
    Less,
    LessOrEqual,
    Greater,
    GreaterOrEqual,
    Plus,
    Minus,
    Star,
    Slash,
    Modulo,
    Not,
    And,
    Or,
    Dot,
}

/// The operator that the characters `current` and `lookahead` spell, and whether it takes both.
pub open spec fn operator_at(current: char, lookahead: Option<char>) -> Option<(Operator, bool)> {
    if current == '=' && lookahead == Some('=') {
        Some((Operator::Equal, true))
    } else if current == '!' && lookahead == Some('=') {
        Some((Operator::NotEqual, true))
    } else if current == '<' && lookahead == Some('=') {
        Some((Operator::LessOrEqual, true))
    } else if current == '>' && lookahead == Some('=') {
        Some((Operator::GreaterOrEqual, true))
    } else if current == '&' && lookahead == Some('&') {
        Some((Operator::And, true))
    } else if current == '|' && lookahead == Some('|') {
        Some((Operator::Or, true))
    } else if current == '<' {
        Some((Operator::Less, false))
    } else if current == '>' {
        Some((Operator::Greater, false))
    } else if current == '+' {
        Some((Operator::Plus, false))
    } else if current == '-' {
        Some((Operator::Minus, false))
    } else if current == '*' {
        Some((Operator::Star, false))
    } else if current == '/' {
        Some((Operator::Slash, false))
    } else if current == '%' {
        Some((Operator::Modulo, false))
    } else if current == '!' {
        Some((Operator::Not, false))
    } else if current == '.' {
        Some((Operator::Dot, false))
    } else {
        None
    }
}

/// How tightly an operator binds: a greater number binds tighter.
pub open spec fn binding(op: Operator) -> int {
    match op {
        Operator::Or => 0,
        Operator::And => 1,
        Operator::Equal
        | Operator::NotEqual
        | Operator::Less
        | Operator::LessOrEqual
        | Operator::Greater
        | Operator::GreaterOrEqual => 2,
        Operator::Plus | Operator::Minus => 3,
        Operator::Star | Operator::Slash | Operator::Modulo => 4,
        Operator::Not => 5,
        Operator::Dot => 6,
    }
}

/// The arithmetic operation of an operator that may stand in a compound assignment.
pub open spec fn arithmetic_of(op: Operator) -> Option<ArithmeticOp> {
    match op {
        Operator::Plus => Some(ArithmeticOp::Add),
        Operator::Minus => Some(ArithmeticOp::Sub),
        Operator::Star => Some(ArithmeticOp::Mul),
        Operator::Slash => Some(ArithmeticOp::Div),
        _ => None,
    }
}

impl Operator {
    /// The operator that `current` and `lookahead` spell, and whether it takes both characters.
    pub fn parse(current: char, lookahead: Option<char>) -> (r: Option<(Operator, bool)>)
        ensures
            r == operator_at(current, lookahead),
    {
        let op = match (current, lookahead) {
            ('=', Some('=')) => (Operator::Equal, true),
            ('!', Some('=')) => (Operator::NotEqual, true),
            ('<', Some('=')) => (Operator::LessOrEqual, true),
            ('>', Some('=')) => (Operator::GreaterOrEqual, true),
            ('&', Some('&')) => (Operator::And, true),
            ('|', Some('|')) => (Operator::Or, true),
            ('<', _) => (Operator::Less, false),
            ('>', _) => (Operator::Greater, false),
            ('+', _) => (Operator::Plus, false),
            ('-', _) => (Operator::Minus, false),
            ('*', _) => (Operator::Star, false),
            ('/', _) => (Operator::Slash, false),
            ('%', _) => (Operator::Modulo, false),
            ('!', _) => (Operator::Not, false),
            ('.', _) => (Operator::Dot, false),
            _ => {
                return None;
            },
        };
        Some(op)
    }

    pub fn precedence(&self) -> (r: i32)
        ensures
            r == binding(*self),
    {
        match self {
            Operator::Or => 0,
            Operator::And => 1,
            Operator::Equal
            | Operator::NotEqual
            | Operator::Less
            | Operator::LessOrEqual
            | Operator::Greater
            | Operator::GreaterOrEqual => 2,
            Operator::Plus | Operator::Minus => 3,
            Operator::Star | Operator::Slash | Operator::Modulo => 4,
            Operator::Not => 5,
            Operator::Dot => 6,
        }
    }

    pub fn as_arithmetic(&self) -> (r: Option<ArithmeticOp>)
        ensures
            r == arithmetic_of(*self),
    {
        match self {
            Operator::Plus => Some(ArithmeticOp::Add),
            Operator::Minus => Some(ArithmeticOp::Sub),
            Operator::Star => Some(ArithmeticOp::Mul),
            Operator::Slash => Some(ArithmeticOp::Div),
            _ => None,
        }
    }
}

#[derive(Debug, Clone, Copy, PartialEq, Eq, Structural)]
pub enum Keyword {
    Package,
    Module,
    Use,
    Extern,
    Memory,
    Function,
    Struct,
    Impl,
    If,
    While,
    For,
    In,
    Return,
    As,
    SizeOf,
}

/// How a keyword is written.
pub open spec fn spelling(k: Keyword) -> Seq<char> {
    match k {
        Keyword::Function => "fn"@,
        Keyword::Return => "return"@,
        Keyword::If => "if"@,
        Keyword::Use => "use"@,
        Keyword::Extern => "extern"@,
        Keyword::As => "as"@,
        Keyword::While => "while"@,
        Keyword::For => "for"@,
        Keyword::In => "in"@,
        Keyword::Memory => "memory"@,
        Keyword::Struct => "struct"@,
        Keyword::Impl => "impl"@,
        Keyword::SizeOf => "sizeof"@,
        Keyword::Package => "package"@,
        Keyword::Module => "mod"@,
    }
}

/// The keyword that a word is, if it is one.
pub open spec fn keyword_of(word: Seq<char>) -> Option<Keyword> {
    if exists|k: Keyword| #[trigger] spelling(k) == word {
        Some(choose|k: Keyword| #[trigger] spelling(k) == word)
    } else {
        None
    }
}

/// No two keywords are written alike.
pub proof fn law_spelling_injective(a: Keyword, b: Keyword)
    requires
        spelling(a) == spelling(b),
    ensures
        a == b,
{
    reveal_strlit("fn");
    reveal_strlit("return");
    reveal_strlit("if");
    reveal_strlit("use");
    reveal_strlit("extern");
    reveal_strlit("as");
    reveal_strlit("while");
    reveal_strlit("for");
    reveal_strlit("in");
    reveal_strlit("memory");
    reveal_strlit("struct");
    reveal_strlit("impl");
    reveal_strlit("sizeof");
    reveal_strlit("package");
    reveal_strlit("mod");
    let x = spelling(a);
    let y = spelling(b);
    assert(x.len() == y.len());
    assert(x[0] == y[0]);
    assert(x[1] == y[1]);
}

/// A keyword is read from its own spelling.
pub proof fn law_keyword_of_spelling(k: Keyword)
    ensures
        keyword_of(spelling(k)) == Some(k),
{
    assert(exists|j: Keyword| #[trigger] spelling(j) == spelling(k));
    let c = choose|j: Keyword| #[trigger] spelling(j) == spelling(k);
    law_spelling_injective(c, k);
}

impl Keyword {
    /// The keyword that `value` is, if it is one.
    pub fn parse(value: &str) -> (r: Option<Keyword>)
        ensures
            r == keyword_of(value@),
    {
        let k = if str_eq(value, "fn") {
            Keyword::Function
        } else if str_eq(value, "return") {
            Keyword::Return
        } else if str_eq(value, "if") {
            Keyword::If
        } else if str_eq(value, "use") {
            Keyword::Use
        } else if str_eq(value, "extern") {
            Keyword::Extern
        } else if str_eq(value, "as") {
            Keyword::As
        } else if str_eq(value, "while") {
            Keyword::While
        } else if str_eq(value, "for") {
            Keyword::For
        } else if str_eq(value, "in") {
            Keyword::In
        } else if str_eq(value, "memory") {
            Keyword::Memory
        } else if str_eq(value, "struct") {
            Keyword::Struct
        } else if str_eq(value, "impl") {
            Keyword::Impl
        } else if str_eq(value, "sizeof") {
            Keyword::SizeOf
        } else if str_eq(value, "package") {
            Keyword::Package
        } else if str_eq(value, "mod") {
            Keyword::Module
        } else {
            proof {
                assert forall|k: Keyword| #[trigger] spelling(k) != value@ by {
                    match k {
                        Keyword::Function => {},
                        _ => {},
                    }
                }
            }
            return None;
        };
        proof {
            law_keyword_of_spelling(k);
        }
        Some(k)
    }
}

} // verus!
