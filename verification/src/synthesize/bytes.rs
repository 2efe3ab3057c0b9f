//! Numbers and texts as bytes.

use vstd::prelude::*;

verus! {

/// The lowest `count` bytes of a number, the lowest first.
pub open spec fn le_bytes(n: int, count: nat) -> Seq<u8>
    decreases count,
{
    if count == 0 {
        Seq::empty()
    } else {
        seq![(n % 256) as u8] + le_bytes(n / 256, (count - 1) as nat)
    }
}

/// The number that bytes stand for, the lowest first.
pub open spec fn le_value(bytes: Seq<u8>) -> int
    decreases bytes.len(),
{
    if bytes.len() == 0 {
        0
    } else {
        bytes[0] + 256 * le_value(bytes.drop_first())
    }
}

/// The largest number of `count` bytes, plus one.
pub open spec fn byte_range(count: nat) -> int
    decreases count,
{
    if count == 0 {
        1
    } else {
        256 * byte_range((count - 1) as nat)
    }
}

/// A number has as many bytes as asked for, and can be read back from them if they suffice.
pub proof fn law_le_bytes(n: int, count: nat)
    requires
        0 <= n,
    ensures
        le_bytes(n, count).len() == count,
        n < byte_range(count) ==> le_value(le_bytes(n, count)) == n,
    decreases count,
{
    if count > 0 {
        law_le_bytes(n / 256, (count - 1) as nat);
        assert(le_bytes(n, count).drop_first() =~= le_bytes(n / 256, (count - 1) as nat));
        assert(n < byte_range(count) ==> n / 256 < byte_range((count - 1) as nat));
    }
}

/// Writes the lowest `count` bytes of a number, the lowest first.
pub fn push_le(out: &mut Vec<u8>, n: u64, count: usize)
    ensures
        final(out)@ == old(out)@ + le_bytes(n as int, count as nat),
{
    let ghost before = out@;
    let mut rest = n;
    let mut left = count;
    proof {
        assert(before + le_bytes(n as int, count as nat) =~= out@ + le_bytes(
            rest as int,
            left as nat,
        ));
    }
    while left > 0
        invariant
            before + le_bytes(n as int, count as nat) == out@ + le_bytes(rest as int, left as nat),
        decreases left,
    {
        let ghost now = out@;
        out.push((rest % 256) as u8);
        proof {
            assert(out@ + le_bytes(rest as int / 256, (left - 1) as nat) =~= now + le_bytes(
                rest as int,
                left as nat,
            ));
        }
        rest = rest / 256;
        left = left - 1;
    }
    proof {
        assert(out@ + le_bytes(rest as int, 0) =~= out@);
    }
}

/// Zero bytes.
pub open spec fn zeros(count: int) -> Seq<u8> {
    Seq::new(
        if count < 0 {
            0
        } else {
            count as nat
        },
        |i: int| 0u8,
    )
}

pub fn push_zeros(out: &mut Vec<u8>, count: usize)
    ensures
        final(out)@ == old(out)@ + zeros(count as int),
{
    let ghost before = out@;
    let mut i: usize = 0;
    while i < count
        invariant
            i <= count,
            out@ == before + zeros(i as int),
        decreases count - i,
    {
        out.push(0);
        i = i + 1;
        proof {
            assert(out@ =~= before + zeros(i as int));
        }
    }
}

pub fn push_bytes(out: &mut Vec<u8>, bytes: &[u8])
    ensures
        final(out)@ == old(out)@ + bytes@,
{
    let ghost before = out@;
    let mut i: usize = 0;
    while i < bytes.len()
        invariant
            i <= bytes@.len(),
            out@ == before + bytes@.take(i as int),
        decreases bytes@.len() - i,
    {
        out.push(bytes[i]);
        i = i + 1;
        proof {
            assert(out@ =~= before + bytes@.take(i as int));
        }
    }
    proof {
        assert(bytes@.take(i as int) =~= bytes@);
    }
}

/// A text with a zero byte behind it.
pub open spec fn cstring(s: Seq<char>) -> Seq<u8> {
    vstd::utf8::encode_utf8(s).push(0)
}

/// Whether a text can be told from what lies behind it: no byte of it is zero.
pub open spec fn has_zero(s: Seq<char>) -> bool {
    vstd::utf8::encode_utf8(s).contains(0u8)
}

/// Whether one of the bytes is zero.
pub fn find_zero(s: &str) -> (r: bool)
    ensures
        r == has_zero(s@),
{
    let bytes = s.as_bytes();
    let mut i: usize = 0;
    while i < bytes.len()
        invariant
            i <= bytes@.len(),
            bytes@ == vstd::utf8::encode_utf8(s@),
            forall|k: int| 0 <= k < i ==> bytes@[k] != 0,
        decreases bytes@.len() - i,
    {
        if bytes[i] == 0 {
            return true;
        }
        i = i + 1;
    }
    false
}

pub fn push_cstring(out: &mut Vec<u8>, s: &str)
    ensures
        final(out)@ == old(out)@ + cstring(s@),
{
    let ghost before = out@;
    push_bytes(out, s.as_bytes());
    out.push(0);
    proof {
        assert(out@ =~= before + cstring(s@));
    }
}

/// The texts from `i` on, each with a zero byte behind it, behind the bytes that are there.
pub open spec fn cstrings(strings: Seq<Seq<char>>, i: int, done: Seq<u8>) -> Seq<u8>
    decreases strings.len() - i,
{
    if i >= strings.len() {
        done
    } else {
        cstrings(strings, i + 1, done + cstring(strings[i]))
    }
}

/// The number of bytes of the first `n` texts, each with a zero byte behind it.
pub open spec fn cstrings_len(strings: Seq<Seq<char>>, n: int) -> int
    decreases n,
{
    if n <= 0 {
        0
    } else {
        cstrings_len(strings, n - 1) + vstd::utf8::encode_utf8(strings[n - 1]).len() + 1
    }
}

pub(crate) proof fn lemma_cstrings_grow(strings: Seq<Seq<char>>, i: int, j: int)
    requires
        0 <= i <= j,
    ensures
        cstrings_len(strings, i) <= cstrings_len(strings, j),
    decreases j,
{
    if i < j {
        lemma_cstrings_grow(strings, i, j - 1);
    }
}

pub(crate) proof fn lemma_cstrings_count(strings: Seq<Seq<char>>, n: int)
    requires
        0 <= n,
    ensures
        cstrings_len(strings, n) >= n,
    decreases n,
{
    if n > 0 {
        lemma_cstrings_count(strings, n - 1);
    }
}

/// Each text lies behind those before it, and ends before those behind it.
pub proof fn law_cstrings_apart(strings: Seq<Seq<char>>, i: int, j: int)
    requires
        0 <= i < j <= strings.len(),
    ensures
        cstrings_len(strings, i) + vstd::utf8::encode_utf8(strings[i]).len() < cstrings_len(
            strings,
            j,
        ),
{
    lemma_cstrings_grow(strings, i + 1, j);
}

/// Texts take as many bytes as counted.
pub proof fn law_cstrings_len(strings: Seq<Seq<char>>, i: int, done: Seq<u8>)
    requires
        0 <= i <= strings.len(),
    ensures
        cstrings(strings, i, done).len() == done.len() + cstrings_len(strings, strings.len() as int)
            - cstrings_len(strings, i),
    decreases strings.len() - i,
{
    if i < strings.len() {
        law_cstrings_len(strings, i + 1, done + cstring(strings[i]));
    }
}

proof fn lemma_cstrings_prefix(strings: Seq<Seq<char>>, i: int, done: Seq<u8>)
    requires
        0 <= i,
    ensures
        done.len() <= cstrings(strings, i, done).len(),
        cstrings(strings, i, done).take(done.len() as int) == done,
    decreases strings.len() - i,
{
    if i < strings.len() {
        let more = done + cstring(strings[i]);
        lemma_cstrings_prefix(strings, i + 1, more);
        let all = cstrings(strings, i + 1, more);
        assert(all.take(done.len() as int) =~= all.take(more.len() as int).take(done.len() as int));
        assert(more.take(done.len() as int) =~= done);
    } else {
        assert(done.take(done.len() as int) =~= done);
    }
}

proof fn lemma_cstring_at(strings: Seq<Seq<char>>, i: int, done: Seq<u8>, k: int)
    requires
        0 <= i <= k < strings.len(),
        done.len() == cstrings_len(strings, i),
    ensures
        ({
            let at = cstrings_len(strings, k);
            let text = cstring(strings[k]);
            &&& 0 <= at
            &&& at + text.len() <= cstrings(strings, i, done).len()
            &&& cstrings(strings, i, done).subrange(at, at + text.len()) == text
        }),
    decreases k - i,
{
    let more = done + cstring(strings[i]);
    if i < k {
        lemma_cstring_at(strings, i + 1, more, k);
    } else {
        lemma_cstrings_prefix(strings, i + 1, more);
        let all = cstrings(strings, i + 1, more);
        let at = done.len() as int;
        assert(all.subrange(at, at + cstring(strings[k]).len()) =~= all.take(
            more.len() as int,
        ).subrange(at, more.len() as int));
        assert(more.subrange(at, more.len() as int) =~= cstring(strings[k]));
    }
}

/// Each text lies where the texts before it end.
pub proof fn law_cstring_at(strings: Seq<Seq<char>>, k: int)
    requires
        0 <= k < strings.len(),
    ensures
        ({
            let at = cstrings_len(strings, k);
            let text = cstring(strings[k]);
            &&& 0 <= at
            &&& at + text.len() <= cstrings(strings, 0, Seq::empty()).len()
            &&& cstrings(strings, 0, Seq::empty()).subrange(at, at + text.len()) == text
        }),
{
    lemma_cstring_at(strings, 0, Seq::empty(), k);
}

/// Texts lie behind what is there already, which makes no difference to them.
pub proof fn law_cstrings_behind(strings: Seq<Seq<char>>, i: int, done: Seq<u8>)
    ensures
        cstrings(strings, i, done) == done + cstrings(strings, i, Seq::empty()),
    decreases strings.len() - i,
{
    if i < strings.len() {
        let text = cstring(strings[i]);
        law_cstrings_behind(strings, i + 1, done + text);
        law_cstrings_behind(strings, i + 1, Seq::empty() + text);
        assert(done + text + cstrings(strings, i + 1, Seq::empty()) =~= done + (Seq::empty() + text
            + cstrings(strings, i + 1, Seq::empty())));
    } else {
        assert(done + Seq::<u8>::empty() =~= done);
    }
}

} // verus!
