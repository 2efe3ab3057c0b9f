//! How tokens are written as text, and that lexing such text gives the tokens back.

use vstd::prelude::*;

use crate::analyze::lex;
use crate::analyze::lex::token;
use crate::analyze::lex::token::{Keyword, Operator, TokenV};
use crate::analyze::lex::{LexOutcome, LexedV};
use crate::analyze::semantics::types::Primitive;
use crate::analyze::{FileId, TextRange};
use crate::text;

verus! {

/// How a character is written between quotes.
pub open spec fn escaped(c: char) -> Seq<char> {
    if c == '\\' {
        seq!['\\', '\\']
    } else if c == '"' {
        seq!['\\', '"']
    } else if c == '\'' {
        seq!['\\', '\'']
    } else if c == '\n' {
        seq!['\\', 'n']
    } else if c == '\0' {
        seq!['\\', '0']
    } else {
        seq![c]
    }
}

/// How the characters from `k` on are written between quotes.
pub open spec fn escaped_from(t: Seq<char>, k: nat) -> Seq<char>
    decreases t.len() - k,
{
    if k >= t.len() {
        Seq::empty()
    } else {
        escaped(t[k as int]) + escaped_from(t, k + 1)
    }
}

pub open spec fn operator_text(op: Operator) -> Seq<char> {
    match op {
        Operator::Equal => seq!['=', '='],
        Operator::NotEqual => seq!['!', '='],
        Operator::Less => seq!['<'],
        Operator::LessOrEqual => seq!['<', '='],
        Operator::Greater => seq!['>'],
        Operator::GreaterOrEqual => seq!['>', '='],
        Operator::Plus => seq!['+'],
        Operator::Minus => seq!['-'],
        Operator::Star => seq!['*'],
        Operator::Slash => seq!['/'],
        Operator::Modulo => seq!['%'],
        Operator::Not => seq!['!'],
        Operator::And => seq!['&', '&'],
        Operator::Or => seq!['|', '|'],
        Operator::Dot => seq!['.'],
    }
}

pub open spec fn keyword_text(k: Keyword) -> Seq<char> {
    match k {
        Keyword::Function => seq!['f', 'n'],
        Keyword::Return => seq!['r', 'e', 't', 'u', 'r', 'n'],
        Keyword::If => seq!['i', 'f'],
        Keyword::Use => seq!['u', 's', 'e'],
        Keyword::Extern => seq!['e', 'x', 't', 'e', 'r', 'n'],
        Keyword::As => seq!['a', 's'],
        Keyword::While => seq!['w', 'h', 'i', 'l', 'e'],
        Keyword::For => seq!['f', 'o', 'r'],
        Keyword::In => seq!['i', 'n'],
        Keyword::Memory => seq!['m', 'e', 'm', 'o', 'r', 'y'],
        Keyword::Struct => seq!['s', 't', 'r', 'u', 'c', 't'],
        Keyword::Impl => seq!['i', 'm', 'p', 'l'],
        Keyword::SizeOf => seq!['s', 'i', 'z', 'e', 'o', 'f'],
        Keyword::Package => seq!['p', 'a', 'c', 'k', 'a', 'g', 'e'],
        Keyword::Module => seq!['m', 'o', 'd'],
    }
}

/// How a token is written.
pub open spec fn token_text(t: TokenV) -> Seq<char> {
    match t {
        TokenV::Keyword(k) => keyword_text(k),
        TokenV::Number(n, None) => text::decimal(n as nat),
        TokenV::Number(n, Some(p)) => text::decimal(n as nat) + (if p == Primitive::I64 {
            seq!['i', '6', '4']
        } else {
            seq!['u', '6', '4']
        }),
        TokenV::Character(c) => seq!['\''] + (escaped(c) + seq!['\'']),
        TokenV::String(t) => seq!['"'] + (escaped_from(t, 0) + seq!['"']),
        TokenV::Bool(b) => if b {
            seq!['t', 'r', 'u', 'e']
        } else {
            seq!['f', 'a', 'l', 's', 'e']
        },
        TokenV::Ident(w) => w,
        TokenV::Semicolon => seq![';'],
        TokenV::Colon => seq![':'],
        TokenV::Comma => seq![','],
        TokenV::LeftParenthesis => seq!['('],
        TokenV::RightParenthesis => seq![')'],
        TokenV::LeftCurlyBracket => seq!['{'],
        TokenV::RightCurlyBracket => seq!['}'],
        TokenV::LeftBracket => seq!['['],
        TokenV::RightBracket => seq![']'],
        TokenV::Reference => seq!['&'],
        TokenV::Declare => seq![':', '='],
        TokenV::Assign(None) => seq!['='],
        TokenV::Assign(Some(op)) => operator_text(op) + seq!['='],
        TokenV::Arrow => seq!['-', '>'],
        TokenV::PathSeparator => seq![':', ':'],
        TokenV::Operator(op) => operator_text(op),
    }
}

pub open spec fn is_word(w: Seq<char>) -> bool {
    &&& w.len() > 0
    &&& text::is_word_start(w[0])
    &&& forall|k: int| 0 <= k < w.len() ==> text::is_word_char(#[trigger] w[k])
}

/// Whether there is a text for a token.
pub open spec fn has_text(t: TokenV) -> bool {
    match t {
        TokenV::Number(_, Some(p)) => p == Primitive::I64 || p == Primitive::U64,
        TokenV::Character(c) => (c as u32) < 128,
        TokenV::String(t) => forall|k: int| 0 <= k < t.len() ==> (#[trigger] t[k] as u32) < 128,
        TokenV::Ident(w) => is_word(w) && token::keyword_of(w) is None && w != "true"@ && w
            != "false"@,
        TokenV::Assign(Some(op)) => op == Operator::Plus || op == Operator::Minus || op
            == Operator::Star || op == Operator::Slash,
        _ => true,
    }
}

/// A text stands at a place of another.
pub open spec fn stands(s: Seq<char>, i: int, w: Seq<char>) -> bool {
    &&& 0 <= i
    &&& i + w.len() <= s.len()
    &&& forall|k: int| 0 <= k < w.len() ==> s[i + k] == #[trigger] w[k]
}

/// White space stands at a place, or the text is at its end.
pub open spec fn is_gap(s: Seq<char>, i: int) -> bool {
    i == s.len() || (0 <= i < s.len() && text::is_white(s[i]))
}

pub open spec fn gave(out: LexedV, t: TokenV, end: int) -> bool {
    out matches LexedV::Token(u, r) && u == t && r.end == end
}

proof fn lemma_word_reads_back(s: Seq<char>, i: int, w: Seq<char>, k: nat)
    requires
        stands(s, i, w),
        k <= w.len(),
        forall|k: int| 0 <= k < w.len() ==> text::is_word_char(#[trigger] w[k]),
        is_gap(s, i + w.len()),
    ensures
        lex::word_end(s, i + k) == i + w.len(),
    decreases w.len() - k,
{
    if k < w.len() {
        assert(s[i + k] == w[k as int]);
        lemma_word_reads_back(s, i, w, k + 1);
    }
}

proof fn lemma_digits_read_back(s: Seq<char>, i: int, w: Seq<char>, k: nat)
    requires
        stands(s, i, w),
        k <= w.len(),
        forall|k: int| 0 <= k < w.len() ==> text::is_digit(#[trigger] w[k]),
        i + w.len() < s.len() ==> !text::is_digit(s[i + w.len()]),
    ensures
        lex::digits_end(s, i + k) == i + w.len(),
    decreases w.len() - k,
{
    if k < w.len() {
        assert(s[i + k] == w[k as int]);
        lemma_digits_read_back(s, i, w, k + 1);
    }
}

proof fn lemma_split(s: Seq<char>, i: int, a: Seq<char>, b: Seq<char>)
    requires
        stands(s, i, a + b),
    ensures
        stands(s, i, a),
        stands(s, i + a.len(), b),
{
    let w = a + b;
    assert forall|k: int| 0 <= k < a.len() implies s[i + k] == #[trigger] a[k] by {
        assert(w[k] == a[k]);
    }
    assert forall|k: int| 0 <= k < b.len() implies s[i + a.len() + k] == #[trigger] b[k] by {
        assert(w[a.len() + k] == b[k]);
    }
}

/// A character between quotes is read back.
proof fn lemma_char_reads_back(s: Seq<char>, file: FileId, i: int, c: char)
    requires
        stands(s, i, escaped(c)),
        (c as u32) < 128,
    ensures
        lex::full_char(s, file, i) == Ok::<(char, int), crate::analyze::ErrorV>(
            (c, i + escaped(c).len() - 1),
        ),
        1 <= escaped(c).len() <= 2,
        s[i] == escaped(c)[0],
{
    assert(s[i + 0] == escaped(c)[0]);
    if escaped(c).len() == 2 {
        assert(s[i + 1] == escaped(c)[1]);
    }
}

proof fn lemma_string_reads_back(
    s: Seq<char>,
    file: FileId,
    start: int,
    i: int,
    t: Seq<char>,
    k: nat,
)
    requires
        k <= t.len(),
        0 <= start,
        lex::lexable_len(s),
        stands(s, i, escaped_from(t, k) + seq!['"']),
        forall|k: int| 0 <= k < t.len() ==> (#[trigger] t[k] as u32) < 128,
    ensures
        gave(
            lex::lexed_string(s, file, start, i, t.take(k as int)),
            TokenV::String(t),
            i + escaped_from(t, k).len() + 1,
        ),
    decreases t.len() - k,
{
    let quote = seq!['"'];
    if k < t.len() {
        let c = t[k as int];
        let rest = escaped_from(t, k + 1);
        assert(escaped_from(t, k) + quote =~= escaped(c) + (rest + quote));
        lemma_split(s, i, escaped(c), rest + quote);
        lemma_char_reads_back(s, file, i, c);
        lemma_string_reads_back(s, file, start, i + escaped(c).len(), t, k + 1);
        assert(t.take(k as int).push(c) =~= t.take(k as int + 1));
        assert(s[i] != '"');
    } else {
        assert((escaped_from(t, k) + quote)[0] == '"');
        assert(s[i + 0] == '"');
        assert(t.take(k as int) =~= t);
    }
}

proof fn lemma_keyword_text(k: Keyword)
    ensures
        keyword_text(k) == token::spelling(k),
        is_word(keyword_text(k)),
{
    reveal_strlit("fn");
    reveal_strlit("return");
    reveal_strlit("if");
    reveal_strlit("use");
    reveal_strlit("extern");
    reveal_strlit("as");
    reveal_strlit("while");
    reveal_strlit("for");
    reveal_strlit("in");
    reveal_strlit("memory");
    reveal_strlit("struct");
    reveal_strlit("impl");
    reveal_strlit("sizeof");
    reveal_strlit("package");
    reveal_strlit("mod");
    assert(keyword_text(k) =~= token::spelling(k));
}

proof fn lemma_bool_text(b: bool)
    ensures
        is_word(token_text(TokenV::Bool(b))),
        lex::word_token(token_text(TokenV::Bool(b))) == TokenV::Bool(b),
{
    reveal_strlit("true");
    reveal_strlit("false");
    let w = token_text(TokenV::Bool(b));
    assert(w =~= if b {
        "true"@
    } else {
        "false"@
    });
    assert(token::keyword_of(w) is None) by {
        assert forall|k: Keyword| #[trigger] token::spelling(k) != w by {
            lemma_keyword_text(k);
            assert(keyword_text(k).len() == w.len() ==> keyword_text(k)[0] != w[0]);
        }
    }
    assert("true"@.len() != "false"@.len());
}

proof fn lemma_words(s: Seq<char>, file: FileId, i: int, t: TokenV)
    requires
        has_text(t),
        t is Keyword || t is Bool || t is Ident,
        vstd::utf8::is_ascii_chars(s),
        lex::lexable_len(s),
        stands(s, i, token_text(t)),
        is_gap(s, i + token_text(t).len()),
    ensures
        gave(lex::lexed(s, file, i), t, i + token_text(t).len()),
{
    let w = token_text(t);
    assert(is_word(w) && lex::word_token(w) == t) by {
        match t {
            TokenV::Keyword(k) => {
                lemma_keyword_text(k);
                token::law_keyword_of_spelling(k);
            },
            TokenV::Bool(b) => lemma_bool_text(b),
            _ => {},
        }
    }
    assert(s[i + 0] == w[0]);
    lemma_word_reads_back(s, i, w, 0);
    lex::law_ascii_word(s, i);
    assert(s.subrange(i, i + w.len()) =~= w);
    assert(text::is_word_start(s[i]));
    assert(lex::lexable(s, i) == i);
}

proof fn lemma_numbers(s: Seq<char>, file: FileId, i: int, t: TokenV)
    requires
        has_text(t),
        t is Number,
        lex::lexable_len(s),
        stands(s, i, token_text(t)),
        is_gap(s, i + token_text(t).len()),
    ensures
        gave(lex::lexed(s, file, i), t, i + token_text(t).len()),
{
    if let TokenV::Number(n, typ) = t {
        let d = text::decimal(n as nat);
        text::law_decimal_reads_back(n as nat);
        assert(d.len() > 0);
        let tail = match typ {
            None => Seq::<char>::empty(),
            Some(p) => if p == Primitive::I64 {
                seq!['i', '6', '4']
            } else {
                seq!['u', '6', '4']
            },
        };
        assert(token_text(t) =~= d + tail);
        lemma_split(s, i, d, tail);
        let end = i + d.len();
        if typ is Some {
            assert(s[end + 0] == tail[0]);
            assert(s[end + 1] == tail[1]);
            assert(s[end + 2] == tail[2]);
        }
        lemma_digits_read_back(s, i, d, 0);
        assert(s.subrange(i, end) =~= d);
        assert(s[i + 0] == d[0]);
        assert(text::is_digit(s[i]));
        assert(lex::lexable(s, i) == i);
    }
}

proof fn lemma_quoted(s: Seq<char>, file: FileId, i: int, t: TokenV)
    requires
        has_text(t),
        t is Character || t is String,
        lex::lexable_len(s),
        stands(s, i, token_text(t)),
    ensures
        gave(lex::lexed(s, file, i), t, i + token_text(t).len()),
{
    let w = token_text(t);
    assert(s[i + 0] == w[0]);
    assert(lex::lexable(s, i) == i);
    match t {
        TokenV::Character(c) => {
            let quote = seq!['\''];
            lemma_split(s, i, quote, escaped(c) + quote);
            lemma_split(s, i + 1, escaped(c), quote);
            lemma_char_reads_back(s, file, i + 1, c);
            let end = i + 1 + escaped(c).len();
            assert(s[end + 0] == quote[0]);
        },
        TokenV::String(u) => {
            let quote = seq!['"'];
            lemma_split(s, i, quote, escaped_from(u, 0) + quote);
            lemma_string_reads_back(s, file, i, i + 1, u, 0);
            assert(u.take(0) =~= Seq::<char>::empty());
        },
        _ => {},
    }
}

proof fn lemma_signs(s: Seq<char>, file: FileId, i: int, t: TokenV)
    requires
        has_text(t),
        !(t is Keyword || t is Bool || t is Ident || t is Number || t is Character || t is String),
        lex::lexable_len(s),
        stands(s, i, token_text(t)),
        is_gap(s, i + token_text(t).len()),
    ensures
        gave(lex::lexed(s, file, i), t, i + token_text(t).len()),
{
    let w = token_text(t);
    assert(1 <= w.len() <= 2);
    assert(s[i + 0] == w[0]);
    if w.len() == 2 {
        assert(s[i + 1] == w[1]);
    }
    assert(lex::lexable(s, i) == i);
}

/// A token that is written down is read back, if white space follows.
pub proof fn law_token_reads_back(s: Seq<char>, file: FileId, i: int, t: TokenV)
    requires
        has_text(t),
        vstd::utf8::is_ascii_chars(s),
        lex::lexable_len(s),
        stands(s, i, token_text(t)),
        is_gap(s, i + token_text(t).len()),
    ensures
        gave(lex::lexed(s, file, i), t, i + token_text(t).len()),
{
    match t {
        TokenV::Keyword(_) | TokenV::Bool(_) | TokenV::Ident(_) => lemma_words(s, file, i, t),
        TokenV::Number(..) => lemma_numbers(s, file, i, t),
        TokenV::Character(_) | TokenV::String(_) => lemma_quoted(s, file, i, t),
        _ => lemma_signs(s, file, i, t),
    }
}

/// White space makes no difference to what is read.
pub proof fn law_white_space(s: Seq<char>, file: FileId, i: int)
    requires
        0 <= i < s.len(),
        text::is_white(s[i]),
    ensures
        lex::lexed(s, file, i) == lex::lexed(s, file, i + 1),
{
    assert(lex::lexable(s, i) == lex::lexable(s, i + 1));
}

/// A comment makes no difference to what is read, up to the end of its line.
pub proof fn law_comment(s: Seq<char>, file: FileId, i: int, end: int)
    requires
        0 <= i,
        i + 2 <= end < s.len(),
        s[i] == '/' && s[i + 1] == '/',
        s[end] == '\n',
        forall|k: int| i < k < end ==> s[k] != '\n',
    ensures
        lex::lexed(s, file, i) == lex::lexed(s, file, end),
{
    lemma_comment(s, i, end);
    assert(lex::starts_comment(s, i));
    assert(lex::lexable(s, i) == lex::lexable(s, end));
}

proof fn lemma_comment(s: Seq<char>, i: int, end: int)
    requires
        0 <= i < end < s.len(),
        s[end] == '\n',
        forall|k: int| i < k < end ==> s[k] != '\n',
    ensures
        lex::comment_end(s, i) == end,
    decreases end - i,
{
    if i + 1 < end {
        lemma_comment(s, i + 1, end);
    }
}

/// Tokens with a space behind each.
pub open spec fn spaced(ts: Seq<TokenV>, k: nat) -> Seq<char>
    decreases ts.len() - k,
{
    if k >= ts.len() {
        Seq::empty()
    } else {
        token_text(ts[k as int]) + (seq![' '] + spaced(ts, k + 1))
    }
}

/// The tokens without their places.
pub open spec fn bare(ts: Seq<(TokenV, TextRange)>) -> Seq<TokenV> {
    ts.map_values(|t: (TokenV, TextRange)| t.0)
}

proof fn lemma_text_ends(s: Seq<char>, file: FileId, i: int)
    requires
        i == s.len() || (0 <= i == s.len() - 1 && s[i] == ' '),
    ensures
        lex::lexed(s, file, i) == LexedV::End,
{
    if i < s.len() {
        assert(lex::lexable(s, i + 1) == i + 1);
        assert(lex::lexable(s, i) == i + 1);
    } else {
        assert(lex::lexable(s, i) == i);
    }
}

proof fn lemma_text_reads_back(
    s: Seq<char>,
    file: FileId,
    from: int,
    ts: Seq<TokenV>,
    k: nat,
    read: Seq<(TokenV, TextRange)>,
)
    requires
        k <= ts.len(),
        vstd::utf8::is_ascii_chars(s),
        lex::lexable_len(s),
        forall|j: int| 0 <= j < ts.len() ==> has_text(#[trigger] ts[j]),
        0 <= from,
        k == 0 ==> from == 0 && stands(s, 0, spaced(ts, 0)) && s.len() == spaced(ts, 0).len(),
        k > 0 ==> stands(s, from, seq![' '] + spaced(ts, k)) && s.len() == from + 1 + spaced(
            ts,
            k,
        ).len(),
        bare(read) == ts.take(k as int),
    ensures
        lex::lexed_all(s, file, from, read) matches LexOutcome::Tokens(out) && bare(out) == ts,
    decreases ts.len() - k,
{
    let start = if k == 0 {
        from
    } else {
        from + 1
    };
    if k > 0 {
        assert((seq![' '] + spaced(ts, k))[0] == ' ');
        assert(s[from + 0] == ' ');
        lemma_split(s, from, seq![' '], spaced(ts, k));
    }
    if k >= ts.len() {
        lemma_text_ends(s, file, from);
        assert(ts.take(k as int) =~= ts);
    } else {
        let t = ts[k as int];
        let w = token_text(t);
        let rest = seq![' '] + spaced(ts, k + 1);
        lemma_split(s, start, w, rest);
        assert(rest[0] == ' ');
        assert(s[start + w.len() + 0] == rest[0]);
        law_token_reads_back(s, file, start, t);
        if k > 0 {
            law_white_space(s, file, from);
        }
        let (u, r) = match lex::lexed(s, file, from) {
            LexedV::Token(u, r) => (u, r),
            _ => (t, TextRange { start: 0, end: 0 }),
        };
        lemma_text_len(t);
        assert(from < r.end <= s.len());
        let read1 = read.push((u, r));
        assert(bare(read1) =~= ts.take(k as int + 1)) by {
            assert(bare(read1) =~= bare(read).push(u));
        }
        lemma_text_reads_back(s, file, r.end as int, ts, k + 1, read1);
    }
}

proof fn lemma_text_len(t: TokenV)
    requires
        has_text(t),
    ensures
        token_text(t).len() > 0,
{
    if let TokenV::Number(n, _) = t {
        assert(text::decimal(n as nat).len() > 0);
    }
}

/// Tokens that are written down, with a space behind each, are read back.
pub proof fn law_text_reads_back(ts: Seq<TokenV>, file: FileId)
    requires
        vstd::utf8::is_ascii_chars(spaced(ts, 0)),
        lex::lexable_len(spaced(ts, 0)),
        forall|j: int| 0 <= j < ts.len() ==> has_text(#[trigger] ts[j]),
    ensures
        lex::lexing(spaced(ts, 0), file) matches LexOutcome::Tokens(out) && bare(out) == ts,
{
    assert(bare(Seq::<(TokenV, TextRange)>::empty()) =~= ts.take(0));
    lemma_text_reads_back(spaced(ts, 0), file, 0, ts, 0, Seq::empty());
}

} // verus!
