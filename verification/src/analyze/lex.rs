//! Splits source text into tokens.

use vstd::prelude::*;
use vstd::string::*;

use crate::analyze::lex::token::{Keyword, Operator, Token, TokenV};
use crate::analyze::semantics::types::Primitive;
use crate::analyze::{make_span, Error, ErrorContext, ErrorV, FileId, Span, TextRange};
use crate::text;

pub mod spelled;
pub mod token;

verus! {

pub open spec fn text_range(start: int, end: int) -> TextRange {
    TextRange { start: start as usize, end: end as usize }
}

/// The element at a position, if the position lies inside the sequence.
pub open spec fn at<A>(s: Seq<A>, i: int) -> Option<A> {
    if 0 <= i < s.len() {
        Some(s[i])
    } else {
        None
    }
}

/// Tokens and a position among them.
pub struct Tokens {
    tokens: Vec<(Token, TextRange)>,
    pos: usize,
}

/// What [`Tokens`] hold: the tokens and the position of the current one.
#[verifier::ext_equal]
pub struct TokensV {
    pub toks: Seq<(TokenV, TextRange)>,
    pub pos: int,
}

pub open spec fn token_views(v: Seq<(Token, TextRange)>) -> Seq<(TokenV, TextRange)> {
    v.map_values(|t: (Token, TextRange)| (t.0@, t.1))
}

impl TokensV {
    pub open spec fn last(self) -> Option<(TokenV, TextRange)> {
        at(self.toks, self.pos - 1)
    }

    pub open spec fn current(self) -> Option<(TokenV, TextRange)> {
        at(self.toks, self.pos)
    }

    pub open spec fn next(self) -> Option<(TokenV, TextRange)> {
        at(self.toks, self.pos + 1)
    }

    /// One token further. One step behind the end the position no longer changes.
    pub open spec fn moved(self) -> TokensV {
        TokensV { pos: if self.pos <= self.toks.len() { self.pos + 1 } else { self.pos }, ..self }
    }

    pub open spec fn wf(self) -> bool {
        &&& 0 <= self.pos <= self.toks.len() + 1
        &&& self.toks.len() + 1 <= usize::MAX
    }

    /// How many steps are left until the position no longer changes.
    pub open spec fn left(self) -> nat {
        if self.pos <= self.toks.len() {
            (self.toks.len() + 1 - self.pos) as nat
        } else {
            0
        }
    }
}

impl View for Tokens {
    type V = TokensV;

    closed spec fn view(&self) -> TokensV {
        TokensV { toks: token_views(self.tokens@), pos: self.pos as int }
    }
}

impl Tokens {
    /// All tokens are ahead: the first one is the current one.
    pub fn new(tokens: Vec<(Token, TextRange)>) -> (r: Tokens)
        requires
            tokens@.len() < usize::MAX,
        ensures
            r@ == (TokensV { toks: token_views(tokens@), pos: 0 }),
            r@.wf(),
    {
        Tokens { tokens, pos: 0 }
    }

    pub fn cur_token_start(&self) -> (r: usize)
        requires
            self@.current() is Some,
        ensures
            r == (self@.current()->0).1.start,
    {
        self.tokens[self.pos].1.start
    }

    pub fn last_token_end(&self) -> (r: usize)
        requires
            self@.last() is Some,
        ensures
            r == (self@.last()->0).1.end,
    {
        self.tokens[self.pos - 1].1.end
    }

    /// The current token.
    pub fn current(&self) -> (r: Option<&(Token, TextRange)>)
        ensures
            match r {
                Some(t) => self@.current() == Some((t.0@, t.1)),
                None => self@.current() is None,
            },
    {
        if self.pos < self.tokens.len() {
            Some(&self.tokens[self.pos])
        } else {
            None
        }
    }

    /// The token behind the current one.
    pub fn peek(&self) -> (r: Option<&(Token, TextRange)>)
        requires
            self@.wf(),
        ensures
            match r {
                Some(t) => self@.next() == Some((t.0@, t.1)),
                None => self@.next() is None,
            },
    {
        if self.pos < self.tokens.len() && self.pos + 1 < self.tokens.len() {
            Some(&self.tokens[self.pos + 1])
        } else {
            None
        }
    }

    /// The token in front of the current one.
    pub fn last(&self) -> (r: Option<&(Token, TextRange)>)
        ensures
            match r {
                Some(t) => self@.last() == Some((t.0@, t.1)),
                None => self@.last() is None,
            },
    {
        if 0 < self.pos && self.pos - 1 < self.tokens.len() {
            Some(&self.tokens[self.pos - 1])
        } else {
            None
        }
    }

    /// Move on from the current token to the next.
    pub fn move_one(&mut self)
        requires
            old(self)@.wf(),
        ensures
            final(self)@.wf(),
            final(self)@ == old(self)@.moved(),
    {
        if self.pos <= self.tokens.len() {
            self.pos = self.pos + 1;
        }
    }

    /// Hand out the current token and move on.
    pub fn take_current(&mut self) -> (r: Option<(Token, TextRange)>)
        requires
            old(self)@.wf(),
        ensures
            final(self)@.wf(),
            final(self)@ == old(self)@.moved(),
            match r {
                Some(t) => old(self)@.current() == Some((t.0@, t.1)),
                None => old(self)@.current() is None,
            },
    {
        let r = match self.current() {
            Some(t) => Some((t.0.duplicate(), t.1)),
            None => None,
        };
        self.move_one();
        r
    }
}

/// What lexing one token gives.
pub enum Lexed {
    /// A token, and the characters it was read from.
    Token(Token, TextRange),
    /// There is no further token.
    End,
    /// The text is not a token.
    Failed(Error),
    /// A number does not fit, or a name cannot be cut out of the text.
    Abort,
}

/// What a [`Lexed`] says.
pub enum LexedV {
    Token(TokenV, TextRange),
    End,
    Failed(ErrorV),
    Abort,
}

impl View for Lexed {
    type V = LexedV;

    open spec fn view(&self) -> LexedV {
        match self {
            Lexed::Token(t, r) => LexedV::Token(t@, *r),
            Lexed::End => LexedV::End,
            Lexed::Failed(e) => LexedV::Failed(e@),
            Lexed::Abort => LexedV::Abort,
        }
    }
}

/// How an optional character is written by `{:?}`.
pub uninterp spec fn debug_char(c: Option<char>) -> Seq<char>;

/// `format!` of the standard library with `{:?}`, applied to an optional character. The text is
/// the one that `Debug` documents; only for `None` is it spelled out here.
#[verifier::external_body]
fn format_debug_char(c: Option<char>) -> (r: String)
    ensures
        r@ == debug_char(c),
        c is None ==> r@ == "None"@,
{
    format!("{:?}", c)
}

/// Where a comment that begins at `i` ends: at the line break, or at the last character.
pub open spec fn comment_end(s: Seq<char>, i: int) -> int
    decreases s.len() - i,
{
    if i + 1 >= s.len() {
        i
    } else if s[i + 1] == '\n' {
        i + 1
    } else {
        comment_end(s, i + 1)
    }
}

proof fn lemma_comment_end(s: Seq<char>, i: int)
    requires
        0 <= i < s.len(),
    ensures
        i <= comment_end(s, i) < s.len(),
        i + 1 < s.len() ==> i < comment_end(s, i),
    decreases s.len() - i,
{
    if i + 1 < s.len() && s[i + 1] != '\n' {
        lemma_comment_end(s, i + 1);
    }
}

pub open spec fn starts_comment(s: Seq<char>, i: int) -> bool {
    at(s, i) == Some('/') && at(s, i + 1) == Some('/')
}

/// The first position from `i` on that is neither white space nor inside a comment.
pub open spec fn lexable(s: Seq<char>, i: int) -> int
    decreases s.len() - i,
{
    if i < 0 || i >= s.len() {
        i
    } else if starts_comment(s, i) {
        let j = comment_end(s, i);
        if i < j <= s.len() {
            lexable(s, j)
        } else {
            i
        }
    } else if text::is_white(s[i]) {
        lexable(s, i + 1)
    } else {
        i
    }
}

pub(crate) proof fn lemma_lexable(s: Seq<char>, i: int)
    requires
        0 <= i <= s.len(),
    ensures
        i <= lexable(s, i) <= s.len(),
    decreases s.len() - i,
{
    if i < s.len() {
        if starts_comment(s, i) {
            lemma_comment_end(s, i);
            lemma_lexable(s, comment_end(s, i));
        } else if text::is_white(s[i]) {
            lemma_lexable(s, i + 1);
        }
    }
}

/// The end of the word that reaches to `i` at least.
pub open spec fn word_end(s: Seq<char>, i: int) -> int
    decreases s.len() - i,
{
    if 0 <= i < s.len() && text::is_word_char(s[i]) {
        word_end(s, i + 1)
    } else {
        i
    }
}

/// The end of the digits that reach to `i` at least.
pub open spec fn digits_end(s: Seq<char>, i: int) -> int
    decreases s.len() - i,
{
    if 0 <= i < s.len() && text::is_digit(s[i]) {
        digits_end(s, i + 1)
    } else {
        i
    }
}

/// The text between two byte positions, where both lie between characters.
pub open spec fn byte_slice(s: Seq<char>, start: int, end: int) -> Option<Seq<char>> {
    let b = vstd::utf8::encode_utf8(s);
    if start <= end && vstd::utf8::is_char_boundary(b, start) && vstd::utf8::is_char_boundary(b, end) {
        Some(vstd::utf8::decode_utf8(b.subrange(start, end)))
    } else {
        None
    }
}

/// The token that a word is.
pub open spec fn word_token(w: Seq<char>) -> TokenV {
    match token::keyword_of(w) {
        Some(k) => TokenV::Keyword(k),
        None => if w == "true"@ {
            TokenV::Bool(true)
        } else if w == "false"@ {
            TokenV::Bool(false)
        } else {
            TokenV::Ident(w)
        },
    }
}

pub open spec fn lexed_word(s: Seq<char>, i: int) -> LexedV {
    let end = word_end(s, i);
    match byte_slice(s, i, end) {
        Some(w) => LexedV::Token(word_token(w), text_range(i, end)),
        None => LexedV::Abort,
    }
}

pub open spec fn number_suffix(c: Option<char>) -> Option<Primitive> {
    if c == Some('i') {
        Some(Primitive::I64)
    } else if c == Some('u') {
        Some(Primitive::U64)
    } else {
        None
    }
}

pub open spec fn lexed_number(s: Seq<char>, file: FileId, i: int) -> LexedV {
    let end = digits_end(s, i);
    let value = text::digits_value(s.subrange(i, end));
    if value > u64::MAX {
        LexedV::Abort
    } else {
        match number_suffix(at(s, end)) {
            None => LexedV::Token(TokenV::Number(value as u64, None), text_range(i, end)),
            Some(p) => if end + 2 >= s.len() {
                LexedV::Failed(ErrorV::unexpected_eof(span_of(file, end, end + 1)))
            } else if s[end + 1] == '6' && s[end + 2] == '4' {
                LexedV::Token(TokenV::Number(value as u64, Some(p)), text_range(i, end + 3))
            } else {
                LexedV::Failed(
                    ErrorV::simple(
                        span_of(file, end, end + 2),
                        "invalid number type specifier"@,
                        "expected u64 or i64"@,
                    ),
                )
            },
        }
    }
}

pub open spec fn span_of(file: FileId, start: int, end: int) -> Span {
    Span { file, range: text_range(start, end) }
}

/// The character that an escape stands for.
pub open spec fn unescaped(c: char) -> Option<char> {
    if c == '\\' || c == '"' || c == '\'' {
        Some(c)
    } else if c == 'n' {
        Some('\n')
    } else if c == '0' {
        Some('\0')
    } else {
        None
    }
}

/// The character written at `i`, with the position of its last character, or what is wrong.
pub open spec fn full_char(s: Seq<char>, file: FileId, i: int) -> Result<(char, int), ErrorV> {
    if s[i] == '\\' {
        match at(s, i + 1) {
            None => Err(ErrorV::unexpected_eof(span_of(file, i, i + 1))),
            Some(e) => match unescaped(e) {
                Some(c) => Ok((c, i + 1)),
                None => Err(
                    ErrorV::simple(
                        span_of(file, i, i + 1),
                        "invalid escape character"@,
                        "this is not a valid escape character"@,
                    ),
                ),
            },
        }
    } else if (s[i] as u32) < 128 {
        Ok((s[i], i))
    } else {
        Err(ErrorV::simple(span_of(file, i - 1, i), "invalid string"@, "not a valid character"@))
    }
}

/// A string whose first quote is at `start` and of which `read` was read up to `i`.
pub open spec fn lexed_string(
    s: Seq<char>,
    file: FileId,
    start: int,
    i: int,
    read: Seq<char>,
) -> LexedV
    decreases s.len() - i,
{
    if i < 0 || i >= s.len() {
        LexedV::Failed(ErrorV::unexpected_eof(span_of(file, start, i)))
    } else if s[i] == '"' {
        LexedV::Token(TokenV::String(read), text_range(start, i + 1))
    } else {
        match full_char(s, file, i) {
            Err(e) => LexedV::Failed(e),
            Ok((c, j)) => if j == i || j == i + 1 {
                lexed_string(s, file, start, j + 1, read.push(c))
            } else {
                LexedV::Abort
            },
        }
    }
}

/// A character literal whose first quote is at `i`.
pub open spec fn lexed_char(s: Seq<char>, file: FileId, i: int) -> LexedV {
    if i + 1 >= s.len() {
        LexedV::Failed(ErrorV::unexpected_eof(span_of(file, i, i + 1)))
    } else {
        match full_char(s, file, i + 1) {
            Err(e) => LexedV::Failed(e),
            Ok((c, j)) => if at(s, j + 1) == Some('\'') {
                LexedV::Token(TokenV::Character(c), text_range(j - 1, j + 2))
            } else {
                LexedV::Failed(
                    ErrorV::unexpected_token(
                        span_of(file, j + 1, j + 2),
                        "expected ' (quote), got '"@ + debug_char(at(s, j + 1)) + "'"@,
                    ),
                )
            },
        }
    }
}

/// The first token from `from` on.
pub open spec fn lexed(s: Seq<char>, file: FileId, from: int) -> LexedV {
    let i = lexable(s, from);
    if i >= s.len() {
        LexedV::End
    } else {
        let c = s[i];
        let atom = token::atom(c, at(s, i + 1));
        let op = token::operator_at(c, at(s, i + 1));
        if atom is Some && (atom->0).1 {
            LexedV::Token((atom->0).0, text_range(i, i + 2))
        } else if op is Some && (op->0).1 {
            LexedV::Token(TokenV::Operator((op->0).0), text_range(i, i + 2))
        } else if atom is Some {
            LexedV::Token((atom->0).0, text_range(i, i + 1))
        } else if op is Some {
            LexedV::Token(TokenV::Operator((op->0).0), text_range(i, i + 1))
        } else if text::is_word_start(c) {
            lexed_word(s, i)
        } else if text::is_digit(c) {
            lexed_number(s, file, i)
        } else if c == '\'' {
            lexed_char(s, file, i)
        } else if c == '"' {
            lexed_string(s, file, i, i + 1, Seq::empty())
        } else {
            LexedV::Failed(
                ErrorV::unexpected_token(span_of(file, i, i + 1), "unexpected character"@),
            )
        }
    }
}

/// What lexing a whole text gives.
pub enum LexOutcome {
    Tokens(Seq<(TokenV, TextRange)>),
    Failed(ErrorV),
    Abort,
}

/// The tokens from `from` on, behind those in `read`.
pub open spec fn lexed_all(
    s: Seq<char>,
    file: FileId,
    from: int,
    read: Seq<(TokenV, TextRange)>,
) -> LexOutcome
    decreases s.len() - from,
{
    match lexed(s, file, from) {
        LexedV::End => LexOutcome::Tokens(read),
        LexedV::Failed(e) => LexOutcome::Failed(e),
        LexedV::Abort => LexOutcome::Abort,
        LexedV::Token(t, r) => if from < r.end <= s.len() {
            lexed_all(s, file, r.end as int, read.push((t, r)))
        } else {
            LexOutcome::Abort
        },
    }
}

/// What lexing a source text gives.
pub open spec fn lexing(s: Seq<char>, file: FileId) -> LexOutcome {
    lexed_all(s, file, 0, Seq::empty())
}

/// The length of a text that can be lexed: positions behind its end must still be numbers.
pub open spec fn lexable_len(s: Seq<char>) -> bool {
    s.len() + 4 <= usize::MAX
}

pub(crate) proof fn lemma_word_end(s: Seq<char>, i: int)
    requires
        0 <= i <= s.len(),
    ensures
        i <= word_end(s, i) <= s.len(),
    decreases s.len() - i,
{
    if i < s.len() && text::is_word_char(s[i]) {
        lemma_word_end(s, i + 1);
    }
}

proof fn lemma_digits_end(s: Seq<char>, i: int)
    requires
        0 <= i <= s.len(),
    ensures
        i <= digits_end(s, i) <= s.len(),
    decreases s.len() - i,
{
    if i < s.len() && text::is_digit(s[i]) {
        lemma_digits_end(s, i + 1);
    }
}

proof fn lemma_lexed_string(s: Seq<char>, file: FileId, start: int, i: int, read: Seq<char>)
    requires
        lexable_len(s),
        0 <= start < i <= s.len(),
    ensures
        match lexed_string(s, file, start, i, read) {
            LexedV::Token(_, r) => start == r.start && start < r.end <= s.len(),
            LexedV::Failed(_) => true,
            _ => false,
        },
    decreases s.len() - i,
{
    if i < s.len() && s[i] != '"' {
        match full_char(s, file, i) {
            Err(e) => {},
            Ok((c, j)) => {
                lemma_lexed_string(s, file, start, j + 1, read.push(c));
            },
        }
    }
}

/// A token is read from characters of the text that lie behind the point where lexing began, and
/// behind them lexing goes on. Only an escaped character literal, whose range leaves out its
/// first quote, begins later than its first character.
pub proof fn law_token_range(s: Seq<char>, file: FileId, from: int)
    requires
        lexable_len(s),
        0 <= from <= s.len(),
    ensures
        lexed(s, file, from) matches LexedV::Token(t, r) ==> from <= r.start < r.end <= s.len(),
{
    lemma_lexable(s, from);
    let i = lexable(s, from);
    if i < s.len() {
        lemma_word_end(s, i);
        lemma_digits_end(s, i);
        if text::is_word_start(s[i]) {
            assert(text::is_word_char(s[i]));
            lemma_word_end(s, i + 1);
        }
        if text::is_digit(s[i]) {
            lemma_digits_end(s, i + 1);
        }
        if s[i] == '"' {
            lemma_lexed_string(s, file, i, i + 1, Seq::empty());
        }
    }
}

/// Tokens in the order of the text, none of which overlaps another or reaches behind `bound`.
pub open spec fn in_order(ts: Seq<(TokenV, TextRange)>, bound: int) -> bool {
    &&& forall|i: int| 0 <= i < ts.len() ==> (#[trigger] ts[i]).1.start < ts[i].1.end <= bound
    &&& forall|i: int, j: int|
        0 <= i < j < ts.len() ==> (#[trigger] ts[i]).1.end <= (#[trigger] ts[j]).1.start
}

proof fn lemma_lexed_all(s: Seq<char>, file: FileId, from: int, read: Seq<(TokenV, TextRange)>)
    requires
        lexable_len(s),
        0 <= from <= s.len(),
        in_order(read, from),
    ensures
        lexed_all(s, file, from, read) matches LexOutcome::Tokens(ts) ==> in_order(
            ts,
            s.len() as int,
        ),
    decreases s.len() - from,
{
    law_token_range(s, file, from);
    match lexed(s, file, from) {
        LexedV::Token(t, r) => {
            lemma_lexed_all(s, file, r.end as int, read.push((t, r)));
        },
        _ => {},
    }
}

/// The tokens of a text come in the order of the text, do not overlap, and lie inside it.
pub proof fn law_tokens_in_order(s: Seq<char>, file: FileId)
    requires
        lexable_len(s),
    ensures
        lexing(s, file) matches LexOutcome::Tokens(ts) ==> in_order(ts, s.len() as int),
{
    lemma_lexed_all(s, file, 0, Seq::empty());
}

/// Characters and a position among them.
pub struct CharIter {
    pub chars: Vec<char>,
    pub index: usize,
}

impl CharIter {
    /// The characters that are walked.
    pub open spec fn text(self) -> Seq<char> {
        self.chars@
    }

    /// The current character.
    pub open spec fn cur(self) -> Option<char> {
        at(self.text(), self.index as int)
    }

    pub fn new(chars: Vec<char>) -> (r: CharIter)
        ensures
            r.text() == chars@,
            r.index == 0,
    {
        CharIter { chars, index: 0 }
    }

    /// The character `ahead` places behind the current one.
    pub fn look(&self, ahead: usize) -> (r: Option<char>)
        requires
            self.index + ahead <= usize::MAX,
        ensures
            r == at(self.text(), self.index + ahead),
    {
        if self.index + ahead < self.chars.len() {
            Some(self.chars[self.index + ahead])
        } else {
            None
        }
    }

    /// Move on by one character, and give the one that is reached.
    pub fn next(&mut self) -> (r: Option<char>)
        requires
            old(self).index < usize::MAX,
        ensures
            final(self).text() == old(self).text(),
            final(self).index == old(self).index + 1,
            r == final(self).cur(),
    {
        self.index = self.index + 1;
        self.look(0)
    }

    /// Move on by two characters, and give them if both exist.
    pub fn next2(&mut self) -> (r: Option<(char, char)>)
        requires
            old(self).index + 2 <= usize::MAX,
        ensures
            final(self).text() == old(self).text(),
            final(self).index == old(self).index + 2,
            r == if old(self).index + 2 < old(self).text().len() {
                Some((old(self).text()[old(self).index + 1], old(self).text()[old(self).index + 2]))
            } else {
                None
            },
    {
        let a = self.next();
        let b = self.next();
        match (a, b) {
            (Some(a), Some(b)) => Some((a, b)),
            _ => None,
        }
    }

    /// Move on by three characters, and give them if all exist.
    pub fn next3(&mut self) -> (r: Option<(char, char, char)>)
        requires
            old(self).index + 3 <= usize::MAX,
        ensures
            final(self).text() == old(self).text(),
            final(self).index == old(self).index + 3,
            r == if old(self).index + 3 < old(self).text().len() {
                Some(
                    (
                        old(self).text()[old(self).index + 1],
                        old(self).text()[old(self).index + 2],
                        old(self).text()[old(self).index + 3],
                    ),
                )
            } else {
                None
            },
    {
        let a = self.next();
        let b = self.next();
        let c = self.next();
        match (a, b, c) {
            (Some(a), Some(b), Some(c)) => Some((a, b, c)),
            _ => None,
        }
    }
}

/// Reads tokens from a source text.
pub struct Lexer<'s> {
    chars: CharIter,
    source: &'s str,
    file: FileId,
}

impl<'s> Lexer<'s> {
    pub closed spec fn text(self) -> Seq<char> {
        self.source@
    }

    pub closed spec fn file(self) -> FileId {
        self.file
    }

    /// The position of the next character to be read.
    pub closed spec fn index(self) -> int {
        self.chars.index as int
    }

    pub closed spec fn wf(self) -> bool {
        &&& self.chars.text() == self.source@
        &&& lexable_len(self.source@)
        &&& self.chars.index <= self.source@.len()
    }

    spec fn same(self, other: Self) -> bool {
        &&& self.source == other.source
        &&& self.file == other.file
        &&& self.chars.text() == other.chars.text()
    }

    pub fn new(source: &'s str, file: FileId) -> (r: Lexer<'s>)
        requires
            lexable_len(source@),
        ensures
            r.wf(),
            r.text() == source@,
            r.file() == file,
            r.index() == 0,
    {
        Lexer { chars: CharIter::new(text::chars_of(source)), source, file }
    }

    /// Splits `source` into tokens. What is wrong with a text that cannot be split is told by
    /// [`Lexer::lex_next`] alone: nothing is reported.
    pub fn lex(source: &'s str, file: FileId, err_ctx: &mut ErrorContext) -> (r: Result<Tokens, ()>)
        requires
            lexable_len(source@),
            !(lexing(source@, file) is Abort),
        ensures
            final(err_ctx)@ == old(err_ctx)@,
            match r {
                Ok(tokens) => tokens@.wf() && tokens@.pos == 0 && lexing(source@, file) == LexOutcome::Tokens(
                    tokens@.toks,
                ),
                Err(_) => lexing(source@, file) is Failed,
            },
    {
        match Lexer::try_lex(source, file) {
            Some(r) => r,
            None => Err(()),
        }
    }

    /// As [`Lexer::lex`], for any source text: `None` where a number does not fit into 64 bits
    /// or a name cannot be cut out of the text.
    pub fn try_lex(source: &'s str, file: FileId) -> (r: Option<Result<Tokens, ()>>)
        requires
            lexable_len(source@),
        ensures
            match r {
                Some(Ok(tokens)) => tokens@.wf() && tokens@.pos == 0 && lexing(source@, file) == LexOutcome::Tokens(
                    tokens@.toks,
                ),
                Some(Err(_)) => lexing(source@, file) is Failed,
                None => lexing(source@, file) is Abort,
            },
    {
        let mut lexer = Lexer::new(source, file);
        let mut tokens: Vec<(Token, TextRange)> = Vec::new();
        proof {
            assert(token_views(tokens@) =~= Seq::empty());
        }
        loop
            invariant
                lexer.wf(),
                lexer.text() == source@,
                lexer.file() == file,
                tokens@.len() <= lexer.index(),
                lexing(source@, file) == lexed_all(
                    source@,
                    file,
                    lexer.index(),
                    token_views(tokens@),
                ),
            decreases source@.len() - lexer.index(),
        {
            let ghost from = lexer.index();
            let ghost read = token_views(tokens@);
            proof {
                law_token_range(source@, file, from);
            }
            match lexer.lex_next() {
                Lexed::Token(token, range) => {
                    tokens.push((token, range));
                    proof {
                        assert(token_views(tokens@) =~= read.push((token@, range)));
                    }
                },
                Lexed::End => {
                    return Some(Ok(Tokens::new(tokens)));
                },
                Lexed::Failed(_) => {
                    return Some(Err(()));
                },
                Lexed::Abort => {
                    return None;
                },
            }
        }
    }

    fn span(&self, start: usize, end: usize) -> (r: Span)
        ensures
            r == span_of(self.file, start as int, end as int),
    {
        make_span(self.file, start, end)
    }

    fn find_next_lexable(&mut self)
        requires
            old(self).wf(),
        ensures
            final(self).wf(),
            final(self).same(*old(self)),
            final(self).index() == lexable(old(self).text(), old(self).index()),
    {
        proof {
            lemma_lexable(self.text(), self.index());
        }
        loop
            invariant
                self.wf(),
                self.same(*old(self)),
                lexable(self.text(), self.index()) == lexable(old(self).text(), old(self).index()),
            ensures
                lexable(self.text(), self.index()) == self.index(),
            decreases self.text().len() - self.index(),
        {
            match self.chars.look(0) {
                None => {
                    break;
                },
                Some(c) => {
                    let slash = match self.chars.look(1) {
                        Some('/') => true,
                        _ => false,
                    };
                    if c == '/' && slash {
                        proof {
                            lemma_comment_end(self.text(), self.index());
                        }
                        self.lex_comment();
                    } else if text::is_whitespace(c) {
                        self.chars.next();
                    } else {
                        break;
                    }
                },
            }
        }
    }

    fn lex_comment(&mut self)
        requires
            old(self).wf(),
            old(self).index() < old(self).text().len(),
        ensures
            final(self).wf(),
            final(self).same(*old(self)),
            final(self).index() == comment_end(old(self).text(), old(self).index()),
    {
        loop
            invariant_except_break
                self.index() < self.text().len(),
                comment_end(self.text(), self.index()) == comment_end(
                    old(self).text(),
                    old(self).index(),
                ),
            invariant
                self.wf(),
                self.same(*old(self)),
            ensures
                self.index() == comment_end(old(self).text(), old(self).index()),
            decreases self.text().len() - self.index(),
        {
            match self.chars.look(1) {
                None => {
                    break;
                },
                Some(c) => {
                    self.chars.next();
                    if c == '\n' {
                        break;
                    }
                },
            }
        }
    }

    /// Reads the next token.
    pub fn lex_next(&mut self) -> (r: Lexed)
        requires
            old(self).wf(),
        ensures
            final(self).text() == old(self).text(),
            final(self).file() == old(self).file(),
            r@ == lexed(old(self).text(), old(self).file(), old(self).index()),
            r matches Lexed::Token(_, range) ==> final(self).wf() && final(self).index() == range.end,
    {
        self.find_next_lexable();
        proof {
            lemma_lexable(old(self).text(), old(self).index());
        }
        let ghost s = self.text();
        let ghost i = self.index();
        let c = match self.chars.look(0) {
            None => {
                return Lexed::End;
            },
            Some(c) => c,
        };
        let peek = self.chars.look(1);
        let atom = Token::parse_atom(c, peek);
        let op = Operator::parse(c, peek);
        let start = self.chars.index;
        match (atom, op) {
            (Some((token, true)), _) => {
                self.chars.next2();
                return Lexed::Token(token, TextRange { start, end: self.chars.index });
            },
            (_, Some((op, true))) => {
                self.chars.next2();
                return Lexed::Token(
                    Token::Operator(op),
                    TextRange { start, end: self.chars.index },
                );
            },
            (Some((token, false)), _) => {
                self.chars.next();
                return Lexed::Token(token, TextRange { start, end: self.chars.index });
            },
            (_, Some((op, false))) => {
                self.chars.next();
                return Lexed::Token(
                    Token::Operator(op),
                    TextRange { start, end: self.chars.index },
                );
            },
            _ => {},
        }
        if text::starts_word(c) {
            return self.lex_ascii();
        }
        if text::is_ascii_digit(c) {
            return self.lex_number();
        }
        if c == '\'' {
            return self.lex_char();
        }
        if c == '"' {
            return self.lex_string();
        }
        Lexed::Failed(Error::unexpected_token(self.span(start, start + 1), "unexpected character"))
    }

    fn lex_char(&mut self) -> (r: Lexed)
        requires
            old(self).wf(),
            old(self).index() < old(self).text().len(),
        ensures
            final(self).text() == old(self).text(),
            final(self).file() == old(self).file(),
            r@ == lexed_char(old(self).text(), old(self).file(), old(self).index()),
            r matches Lexed::Token(_, range) ==> final(self).wf() && final(self).index() == range.end,
    {
        self.chars.next();
        let index = self.chars.index;
        let character = match self.chars.look(0) {
            None => {
                return Lexed::Failed(Error::unexpected_eof(self.span(index - 1, index)));
            },
            Some(c) => c,
        };
        let character = match self.lex_full_char(character) {
            Ok(c) => c,
            Err(e) => {
                return Lexed::Failed(e);
            },
        };
        self.chars.next();
        let closing = self.chars.look(0);
        let closed = match closing {
            Some('\'') => true,
            _ => false,
        };
        if !closed {
            let index = self.chars.index;
            let got = format_debug_char(closing);
            let message = text::join3("expected ' (quote), got '", got.as_str(), "'");
            return Lexed::Failed(
                Error::unexpected_token(self.span(index, index + 1), message.as_str()),
            );
        }
        self.chars.next();
        Lexed::Token(
            Token::Character(character),
            TextRange { start: self.chars.index - 3, end: self.chars.index },
        )
    }

    fn lex_string(&mut self) -> (r: Lexed)
        requires
            old(self).wf(),
            old(self).index() < old(self).text().len(),
        ensures
            final(self).text() == old(self).text(),
            final(self).file() == old(self).file(),
            r@ == lexed_string(
                old(self).text(),
                old(self).file(),
                old(self).index(),
                old(self).index() + 1,
                Seq::empty(),
            ),
            r matches Lexed::Token(_, range) ==> final(self).wf() && final(self).index() == range.end,
    {
        let start = self.chars.index;
        self.chars.next();
        let mut string = String::new();
        loop
            invariant
                self.wf(),
                self.same(*old(self)),
                start < self.chars.index,
                lexed_string(self.text(), self.file(), start as int, self.index(), string@)
                    == lexed_string(
                    old(self).text(),
                    old(self).file(),
                    old(self).index(),
                    old(self).index() + 1,
                    Seq::empty(),
                ),
            decreases self.text().len() - self.index(),
        {
            match self.chars.look(0) {
                None => {
                    return Lexed::Failed(
                        Error::unexpected_eof(self.span(start, self.chars.index)),
                    );
                },
                Some(c) => {
                    if c == '"' {
                        self.chars.next();
                        return Lexed::Token(
                            Token::String(string),
                            TextRange { start, end: self.chars.index },
                        );
                    }
                    match self.lex_full_char(c) {
                        Ok(c) => {
                            string.push(c);
                        },
                        Err(e) => {
                            return Lexed::Failed(e);
                        },
                    }
                    self.chars.next();
                },
            }
        }
    }

    fn lex_full_char(&mut self, c: char) -> (r: Result<char, Error>)
        requires
            old(self).wf(),
            old(self).chars.cur() == Some(c),
            old(self).index() > 0,
        ensures
            final(self).same(*old(self)),
            match r {
                Ok(c) => {
                    &&& final(self).wf()
                    &&& final(self).index() < final(self).text().len()
                    &&& full_char(old(self).text(), old(self).file(), old(self).index()) == Ok::<
                        (char, int),
                        ErrorV,
                    >((c, final(self).index()))
                },
                Err(e) => full_char(old(self).text(), old(self).file(), old(self).index()) == Err::<
                    (char, int),
                    ErrorV,
                >(e@),
            },
    {
        let index = self.chars.index;
        if c == '\\' {
            self.chars.next();
            match self.chars.look(0) {
                None => Err(Error::unexpected_eof(self.span(index, index + 1))),
                Some(next) => match next {
                    '\\' => Ok('\\'),
                    '"' => Ok('"'),
                    '\'' => Ok('\''),
                    'n' => Ok('\n'),
                    '0' => Ok('\0'),
                    _ => Err(
                        Error::simple(
                            self.span(index, index + 1),
                            "invalid escape character",
                            "this is not a valid escape character",
                        ),
                    ),
                },
            }
        } else if (c as u32) < 128 {
            Ok(c)
        } else {
            Err(
                Error::simple(
                    self.span(index - 1, index),
                    "invalid string",
                    "not a valid character",
                ),
            )
        }
    }

    fn lex_ascii(&mut self) -> (r: Lexed)
        requires
            old(self).wf(),
        ensures
            final(self).text() == old(self).text(),
            final(self).file() == old(self).file(),
            r@ == lexed_word(old(self).text(), old(self).index()),
            r matches Lexed::Token(_, range) ==> final(self).wf() && final(self).index() == range.end,
    {
        let start = self.chars.index;
        loop
            invariant
                self.wf(),
                self.same(*old(self)),
                start <= self.chars.index,
                word_end(self.text(), self.index()) == word_end(old(self).text(), old(self).index()),
            ensures
                self.index() == word_end(old(self).text(), old(self).index()),
            decreases self.text().len() - self.index(),
        {
            match self.chars.look(0) {
                Some(c) => {
                    if !text::continues_word(c) {
                        break;
                    }
                    self.chars.next();
                },
                None => {
                    break;
                },
            }
        }
        let end = self.chars.index;
        match slice_bytes(self.source, start, end) {
            None => Lexed::Abort,
            Some(word) => Lexed::Token(read_word(word.as_str()), TextRange { start, end }),
        }
    }

    fn lex_number(&mut self) -> (r: Lexed)
        requires
            old(self).wf(),
        ensures
            final(self).text() == old(self).text(),
            final(self).file() == old(self).file(),
            r@ == lexed_number(old(self).text(), old(self).file(), old(self).index()),
            r matches Lexed::Token(_, range) ==> final(self).wf() && final(self).index() == range.end,
    {
        let start = self.chars.index;
        let mut value: Option<u64> = Some(0);
        proof {
            assert(self.text().subrange(start as int, start as int) =~= Seq::empty());
        }
        loop
            invariant
                self.wf(),
                self.same(*old(self)),
                start <= self.chars.index,
                start == old(self).index(),
                digits_end(self.text(), self.index()) == digits_end(
                    old(self).text(),
                    old(self).index(),
                ),
                value == ({
                    let v = text::digits_value(self.text().subrange(start as int, self.index()));
                    if v > u64::MAX {
                        None
                    } else {
                        Some(v as u64)
                    }
                }),
            ensures
                self.index() == digits_end(old(self).text(), old(self).index()),
            decreases self.text().len() - self.index(),
        {
            match self.chars.look(0) {
                Some(c) => {
                    if !text::is_ascii_digit(c) {
                        break;
                    }
                    let ghost before = self.text().subrange(start as int, self.index());
                    self.chars.next();
                    proof {
                        let after = self.text().subrange(start as int, self.index());
                        assert(after.drop_last() =~= before);
                        assert(after.last() == c);
                    }
                    let digit: u64 = c as u64 - '0' as u64;
                    value = match value {
                        None => None,
                        Some(v) => match v.checked_mul(10) {
                            None => None,
                            Some(v) => v.checked_add(digit),
                        },
                    };
                },
                None => {
                    break;
                },
            }
        }
        let value = match value {
            None => {
                return Lexed::Abort;
            },
            Some(v) => v,
        };
        let begin = self.chars.index;
        let explicit_type = match self.chars.look(0) {
            Some('i') => Primitive::I64,
            Some('u') => Primitive::U64,
            _ => {
                return Lexed::Token(Token::Number(value, None), TextRange { start, end: begin });
            },
        };
        let size = match self.chars.next2() {
            None => {
                return Lexed::Failed(Error::unexpected_eof(self.span(begin, begin + 1)));
            },
            Some(size) => size,
        };
        if size.0 != '6' || size.1 != '4' {
            return Lexed::Failed(
                Error::simple(
                    self.span(begin, self.chars.index),
                    "invalid number type specifier",
                    "expected u64 or i64",
                ),
            );
        }
        self.chars.next();
        Lexed::Token(
            Token::Number(value, Some(explicit_type)),
            TextRange { start, end: self.chars.index },
        )
    }
}

/// The text between two byte positions, where both lie between characters.
pub fn slice_bytes(source: &str, start: usize, end: usize) -> (r: Option<String>)
    ensures
        match r {
            Some(w) => byte_slice(source@, start as int, end as int) == Some(w@),
            None => byte_slice(source@, start as int, end as int) is None,
        },
{
    if start <= end && source.is_char_boundary(start) && source.is_char_boundary(end) {
        let ghost b = source.spec_bytes();
        proof {
            vstd::utf8::encode_utf8_valid_utf8(source@);
            lemma_boundary_inside(b, end as int);
            lemma_boundary_of_prefix(b, start as int, end as int);
        }
        let head = source.split_at(end).0;
        proof {
            vstd::utf8::encode_utf8_decode_utf8(head@);
        }
        let word = head.split_at(start).1;
        proof {
            assert(word.spec_bytes() =~= b.subrange(start as int, end as int));
            vstd::utf8::encode_utf8_decode_utf8(word@);
        }
        Some(word.to_owned())
    } else {
        None
    }
}

proof fn lemma_boundary_inside(b: Seq<u8>, i: int)
    requires
        vstd::utf8::valid_utf8(b),
        vstd::utf8::is_char_boundary(b, i),
    ensures
        0 <= i <= b.len(),
{
}

proof fn lemma_boundary_of_prefix(b: Seq<u8>, i: int, j: int)
    requires
        vstd::utf8::valid_utf8(b),
        vstd::utf8::is_char_boundary(b, i),
        vstd::utf8::is_char_boundary(b, j),
        i <= j,
    ensures
        vstd::utf8::valid_utf8(b.subrange(0, j)),
        vstd::utf8::is_char_boundary(b.subrange(0, j), i),
{
    lemma_boundary_inside(b, i);
    lemma_boundary_inside(b, j);
    vstd::utf8::valid_utf8_split(b, j);
    let p = b.subrange(0, j);
    if i == j {
        vstd::utf8::is_char_boundary_start_end_of_seq(p);
    } else {
        vstd::utf8::is_char_boundary_iff_not_is_continuation_byte(b, i);
        vstd::utf8::is_char_boundary_iff_not_is_continuation_byte(p, i);
        assert(p[i] == b[i]);
    }
}

fn read_word(word: &str) -> (r: Token)
    ensures
        r@ == word_token(word@),
{
    match Keyword::parse(word) {
        Some(keyword) => Token::Keyword(keyword),
        None => if text::str_eq(word, "true") {
            Token::Bool(true)
        } else if text::str_eq(word, "false") {
            Token::Bool(false)
        } else {
            Token::Ident(word.to_owned())
        },
    }
}

/// In a text of ASCII characters a name is made of exactly the characters it was read from, and
/// cutting it out never fails.
pub proof fn law_ascii_word(s: Seq<char>, i: int)
    requires
        vstd::utf8::is_ascii_chars(s),
        0 <= i <= s.len(),
    ensures
        lexed_word(s, i) == LexedV::Token(
            word_token(s.subrange(i, word_end(s, i))),
            text_range(i, word_end(s, i)),
        ),
{
    let end = word_end(s, i);
    lemma_word_end(s, i);
    let b = vstd::utf8::encode_utf8(s);
    vstd::utf8::is_ascii_chars_encode_utf8(s);
    vstd::utf8::encode_utf8_valid_utf8(s);
    assert(b.len() == s.len());
    lemma_ascii_boundary(s, i);
    lemma_ascii_boundary(s, end);
    let w = s.subrange(i, end);
    assert(vstd::utf8::is_ascii_chars(w));
    vstd::utf8::is_ascii_chars_encode_utf8(w);
    assert(vstd::utf8::encode_utf8(w) =~= b.subrange(i, end));
    vstd::utf8::encode_utf8_decode_utf8(w);
}

proof fn lemma_ascii_boundary(s: Seq<char>, i: int)
    requires
        vstd::utf8::is_ascii_chars(s),
        0 <= i <= s.len(),
    ensures
        vstd::utf8::is_char_boundary(vstd::utf8::encode_utf8(s), i),
{
    let b = vstd::utf8::encode_utf8(s);
    vstd::utf8::is_ascii_chars_encode_utf8(s);
    vstd::utf8::encode_utf8_valid_utf8(s);
    if i == s.len() {
        vstd::utf8::is_char_boundary_start_end_of_seq(b);
    } else {
        vstd::utf8::is_char_boundary_iff_not_is_continuation_byte(b, i);
        let x = b[i];
        assert(x == s[i] as u8);
        assert((s[i] as u32) < 128);
        assert(x < 128 ==> !(0x80 <= x <= 0xbf));
    }
}

} // verus!
