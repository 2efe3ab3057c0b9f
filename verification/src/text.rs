//! Character classes and small string operations, stated over sequences of characters.

use vstd::prelude::*;
use vstd::string::*;

verus! {

/// `String::push` of the standard library: the character is added at the end.
pub assume_specification[ std::string::String::push ](s: &mut std::string::String, c: char)
    ensures
        final(s)@ == old(s)@.push(c),
;

/// The characters with the Unicode property `White_Space`.
pub open spec fn is_white(c: char) -> bool {
    let n = c as u32;
    ||| 0x9 <= n <= 0xd
    ||| n == 0x20
    ||| n == 0x85
    ||| n == 0xa0
    ||| n == 0x1680
    ||| 0x2000 <= n <= 0x200a
    ||| n == 0x2028
    ||| n == 0x2029
    ||| n == 0x202f
    ||| n == 0x205f
    ||| n == 0x3000
}

pub fn is_whitespace(c: char) -> (r: bool)
    ensures
        r == is_white(c),
{
    let n: u32 = c as u32;
    (0x9 <= n && n <= 0xd) || n == 0x20 || n == 0x85 || n == 0xa0 || n == 0x1680 || (0x2000 <= n
        && n <= 0x200a) || n == 0x2028 || n == 0x2029 || n == 0x202f || n == 0x205f || n == 0x3000
}

pub open spec fn is_digit(c: char) -> bool {
    '0' <= c <= '9'
}

pub open spec fn is_letter(c: char) -> bool {
    'a' <= c <= 'z' || 'A' <= c <= 'Z'
}

/// A character that may start a word: an ASCII letter or an underscore.
pub open spec fn is_word_start(c: char) -> bool {
    is_letter(c) || c == '_'
}

/// A character that may continue a word.
pub open spec fn is_word_char(c: char) -> bool {
    is_word_start(c) || is_digit(c)
}

pub fn is_ascii_digit(c: char) -> (r: bool)
    ensures
        r == is_digit(c),
{
    '0' <= c && c <= '9'
}

pub fn starts_word(c: char) -> (r: bool)
    ensures
        r == is_word_start(c),
{
    ('a' <= c && c <= 'z') || ('A' <= c && c <= 'Z') || c == '_'
}

pub fn continues_word(c: char) -> (r: bool)
    ensures
        r == is_word_char(c),
{
    starts_word(c) || is_ascii_digit(c)
}

/// Whether two strings hold the same characters.
pub fn str_eq(a: &str, b: &str) -> (r: bool)
    ensures
        r == (a@ == b@),
{
    let x = a.to_owned();
    let y = b.to_owned();
    x == y
}

/// The two strings one after the other.
pub fn join2(a: &str, b: &str) -> (r: String)
    ensures
        r@ == a@ + b@,
{
    let mut s = a.to_owned();
    s.append(b);
    s
}

/// The three strings one after the other.
pub fn join3(a: &str, b: &str, c: &str) -> (r: String)
    ensures
        r@ == a@ + b@ + c@,
{
    let mut s = a.to_owned();
    s.append(b);
    s.append(c);
    s
}

/// The four strings one after the other.
pub fn join4(a: &str, b: &str, c: &str, d: &str) -> (r: String)
    ensures
        r@ == a@ + b@ + c@ + d@,
{
    let mut s = a.to_owned();
    s.append(b);
    s.append(c);
    s.append(d);
    s
}

/// The path that names `item` inside `parent`.
pub open spec fn path_of(parent: Seq<char>, item: Seq<char>) -> Seq<char> {
    parent + "::"@ + item
}

pub fn join_path(parent: &str, item: &str) -> (r: String)
    ensures
        r@ == path_of(parent@, item@),
{
    join3(parent, "::", item)
}

/// A path separator stands at index `i`.
pub open spec fn separator_at(s: Seq<char>, i: int) -> bool {
    0 <= i && i + 1 < s.len() && s[i] == ':' && s[i + 1] == ':'
}

/// `i` is where the first path separator of `s` stands.
pub open spec fn is_first_separator(s: Seq<char>, i: int) -> bool {
    separator_at(s, i) && forall|j: int| 0 <= j < i ==> !separator_at(s, j)
}

/// `i` is where the last path separator of `s` stands.
pub open spec fn is_last_separator(s: Seq<char>, i: int) -> bool {
    separator_at(s, i) && forall|j: int| i < j < s.len() ==> !separator_at(s, j)
}

pub open spec fn has_separator(s: Seq<char>) -> bool {
    exists|i: int| separator_at(s, i)
}

pub open spec fn first_separator(s: Seq<char>) -> int {
    choose|i: int| is_first_separator(s, i)
}

pub open spec fn last_separator(s: Seq<char>) -> int {
    choose|i: int| is_last_separator(s, i)
}

/// The part of a path before its first separator, or the whole path.
pub open spec fn root_of(s: Seq<char>) -> Seq<char> {
    if has_separator(s) {
        s.subrange(0, first_separator(s))
    } else {
        s
    }
}

/// A path cut at its last separator: what encloses the item, and the item's own name.
pub open spec fn split_last(s: Seq<char>) -> Option<(Seq<char>, Seq<char>)> {
    if has_separator(s) {
        let i = last_separator(s);
        Some((s.subrange(0, i), s.subrange(i + 2, s.len() as int)))
    } else {
        None
    }
}

proof fn lemma_first_unique(s: Seq<char>, i: int)
    requires
        is_first_separator(s, i),
    ensures
        has_separator(s),
        first_separator(s) == i,
{
    let j = first_separator(s);
    assert(is_first_separator(s, j));
    if i < j {
        assert(!separator_at(s, i));
    }
    if j < i {
        assert(!separator_at(s, j));
    }
}

proof fn lemma_last_unique(s: Seq<char>, i: int)
    requires
        is_last_separator(s, i),
    ensures
        has_separator(s),
        last_separator(s) == i,
{
    let j = last_separator(s);
    assert(is_last_separator(s, j));
    if i < j {
        assert(!separator_at(s, j));
    }
    if j < i {
        assert(!separator_at(s, i));
    }
}

/// The characters of a string, in order.
pub fn chars_of(s: &str) -> (r: Vec<char>)
    ensures
        r@ == s@,
{
    let mut out: Vec<char> = Vec::new();
    for c in it: s.chars()
        invariant
            out@ == s@.subrange(0, it.index()),
            it.seq() == s@,
    {
        out.push(c);
    }
    out
}

/// The part of a path before its first separator, or the whole path.
pub fn path_root(s: &str) -> (r: String)
    ensures
        r@ == root_of(s@),
{
    let chars = chars_of(s);
    let mut i: usize = 0;
    while i < chars.len()
        invariant
            i <= chars.len(),
            chars@ == s@,
            forall|j: int| 0 <= j < i ==> !separator_at(s@, j),
        decreases chars.len() - i,
    {
        if chars.len() - i > 1 && chars[i] == ':' && chars[i + 1] == ':' {
            proof {
                lemma_first_unique(s@, i as int);
            }
            return s.substring_char(0, i).to_owned();
        }
        i = i + 1;
    }
    s.to_owned()
}

/// A path cut at its last separator.
pub fn path_split_last(s: &str) -> (r: Option<(String, String)>)
    ensures
        match r {
            Some((a, b)) => split_last(s@) == Some((a@, b@)),
            None => split_last(s@) is None,
        },
{
    let chars = chars_of(s);
    let n = chars.len();
    let mut i: usize = n;
    while i > 0
        invariant
            i <= n,
            n == chars.len(),
            chars@ == s@,
            forall|j: int| i <= j < n ==> !separator_at(s@, j),
        decreases i,
    {
        i = i - 1;
        if n - i > 1 && chars[i] == ':' && chars[i + 1] == ':' {
            proof {
                lemma_last_unique(s@, i as int);
            }
            return Some((s.substring_char(0, i).to_owned(), s.substring_char(i + 2, n).to_owned()));
        }
    }
    None
}

/// The decimal digit that stands for `d`.
pub open spec fn digit_char(d: int) -> char {
    (('0' as u8) + d) as u8 as char
}

/// The decimal notation of `n`.
pub open spec fn decimal(n: nat) -> Seq<char>
    decreases n,
{
    if n < 10 {
        seq![digit_char(n as int)]
    } else {
        decimal(n / 10).push(digit_char((n % 10) as int))
    }
}

/// The number that a sequence of decimal digits denotes.
pub open spec fn digits_value(s: Seq<char>) -> nat
    decreases s.len(),
{
    if s.len() == 0 {
        0
    } else {
        10 * digits_value(s.drop_last()) + ((s.last() as u32) - ('0' as u32)) as nat
    }
}

pub fn to_decimal(n: u64) -> (r: String)
    ensures
        r@ == decimal(n as nat),
    decreases n,
{
    let mut s = if n < 10 {
        String::new()
    } else {
        to_decimal(n / 10)
    };
    let d: u8 = (n % 10) as u8;
    let c: char = ('0' as u8 + d) as char;
    s.push(c);
    proof {
        if n < 10 {
            assert(s@ =~= seq![digit_char(n as int)]);
        }
    }
    s
}

/// Reading back the decimal notation of a number gives that number.
pub proof fn law_decimal_reads_back(n: nat)
    ensures
        digits_value(decimal(n)) == n,
        forall|i: int| 0 <= i < decimal(n).len() ==> is_digit(#[trigger] decimal(n)[i]),
    decreases n,
{
    reveal_with_fuel(digits_value, 2);
    if n < 10 {
        assert(decimal(n).drop_last() =~= Seq::<char>::empty());
    } else {
        law_decimal_reads_back(n / 10);
        assert(decimal(n).drop_last() =~= decimal(n / 10));
    }
}

/// The strings one after the other, with `sep` between neighbours.
pub open spec fn joined(items: Seq<Seq<char>>, sep: Seq<char>) -> Seq<char>
    decreases items.len(),
{
    if items.len() == 0 {
        Seq::empty()
    } else if items.len() == 1 {
        items[0]
    } else {
        joined(items.drop_last(), sep) + sep + items.last()
    }
}

/// The characters of each string of a list.
pub open spec fn all_chars(v: Seq<String>) -> Seq<Seq<char>> {
    v.map_values(|s: String| s@)
}

pub fn join_all(items: &Vec<String>, sep: &str) -> (r: String)
    ensures
        r@ == joined(all_chars(items@), sep@),
{
    let mut out = String::new();
    let mut i: usize = 0;
    let ghost all = all_chars(items@);
    proof {
        assert(all.subrange(0, 0) =~= Seq::<Seq<char>>::empty());
    }
    while i < items.len()
        invariant
            i <= items.len(),
            all == all_chars(items@),
            out@ == joined(all.subrange(0, i as int), sep@),
        decreases items.len() - i,
    {
        proof {
            let next = all.subrange(0, i + 1);
            assert(next.drop_last() =~= all.subrange(0, i as int));
            assert(next.last() == items@[i as int]@);
        }
        if i > 0 {
            out.append(sep);
        }
        out.append(items[i].as_str());
        proof {
            if i == 0 {
                assert(out@ =~= items@[0]@);
            }
        }
        i = i + 1;
    }
    proof {
        assert(all.subrange(0, all.len() as int) =~= all);
    }
    out
}

} // verus!
