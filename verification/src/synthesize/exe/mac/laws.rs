//! What can be read back from the bytes of a file: the commands of a Mach-O file by the places and numbers
//! that the format gives them.

use vstd::prelude::*;

use crate::synthesize::arch::CodeV;
use crate::synthesize::bytes;
use crate::synthesize::exe::mac;
use crate::synthesize::exe::mac::mach_o;
use crate::synthesize::exe::mac::mach_o::{
    DyLinkerCommand, EntryPointCommand, Header, LinkEditDataCommand, NList, SectionHeader,
    SegmentCommand, SymTabCommand,
};
use crate::synthesize::exe::mac::Sizes;

verus! {

/// The number in the four bytes from `at` on, the lowest first.
#[verifier::opaque]
pub open spec fn word_at(b: Seq<u8>, at: int) -> int {
    b[at] + 0x100 * b[at + 1] + 0x1_0000 * b[at + 2] + 0x100_0000 * b[at + 3]
}

/// The number in the eight bytes from `at` on, the lowest first.
#[verifier::opaque]
pub open spec fn long_at(b: Seq<u8>, at: int) -> int {
    word_at(b, at) + 0x1_0000_0000 * word_at(b, at + 4)
}

/// Whether a field of 16 bytes holds a name, and nothing behind it.
pub open spec fn named_at(b: Seq<u8>, at: int, name: Seq<char>) -> bool {
    let text = vstd::utf8::encode_utf8(name);
    &&& text.len() <= 16
    &&& forall|i: int| 0 <= i < text.len() ==> #[trigger] b[at + i] == text[i]
    &&& forall|i: int| text.len() <= i < 16 ==> #[trigger] b[at + i] == 0
}

/// A command that maps part of a file to memory, as it is read.
pub struct Mapping {
    pub kind: int,
    pub size: int,
    pub address: int,
    pub memory: int,
    pub offset: int,
    pub bytes: int,
    pub most: int,
    pub first: int,
    pub sections: int,
    pub flags: int,
}

pub open spec fn mapping_at(b: Seq<u8>, at: int) -> Mapping {
    Mapping {
        kind: word_at(b, at),
        size: word_at(b, at + 4),
        address: long_at(b, at + 24),
        memory: long_at(b, at + 32),
        offset: long_at(b, at + 40),
        bytes: long_at(b, at + 48),
        most: word_at(b, at + 56),
        first: word_at(b, at + 60),
        sections: word_at(b, at + 64),
        flags: word_at(b, at + 68),
    }
}

impl Mapping {
    /// It maps the bytes from `offset` on to the given address, and allows as much as `protection`
    /// says: 1 to read, 2 to write, and 4 to execute.
    pub open spec fn maps(self, offset: int, bytes: int, address: int, memory: int, protection: int) -> bool {
        &&& self.kind == 0x19
        &&& self.offset == offset
        &&& self.bytes == bytes
        &&& self.address == address
        &&& self.memory == memory
        &&& self.most == protection
        &&& self.first == protection
        &&& self.flags == 0
    }
}

/// A part of a segment, as it is read.
pub open spec fn section_at(
    b: Seq<u8>,
    at: int,
    address: int,
    size: int,
    offset: int,
    alignment: int,
    kind: int,
) -> bool {
    &&& long_at(b, at + 32) == address
    &&& long_at(b, at + 40) == size
    &&& word_at(b, at + 48) == offset
    &&& word_at(b, at + 52) == alignment
    &&& word_at(b, at + 56) == 0
    &&& word_at(b, at + 60) == 0
    &&& word_at(b, at + 64) == kind
    &&& word_at(b, at + 68) == 0
    &&& word_at(b, at + 72) == 0
    &&& word_at(b, at + 76) == 0
}

/// Where the command lies that comes behind `k` others: each says how long it is.
pub open spec fn command_place(b: Seq<u8>, k: nat) -> int
    decreases k,
{
    if k == 0 {
        32
    } else {
        let before = command_place(b, (k - 1) as nat);
        before + word_at(b, before + 4)
    }
}

proof fn lemma_word(n: int)
    requires
        0 <= n < 0x1_0000_0000,
    ensures
        mach_o::word(n).len() == 4,
        word_at(mach_o::word(n), 0) == n,
{
    reveal(word_at);
    reveal_with_fuel(bytes::le_bytes, 5);
    let b = mach_o::word(n);
    assert(b =~= seq![
        (n % 256) as u8,
        (n / 256 % 256) as u8,
        (n / 256 / 256 % 256) as u8,
        (n / 256 / 256 / 256 % 256) as u8,
    ]);
}

proof fn lemma_long(n: int)
    requires
        0 <= n < 0x1_0000_0000_0000_0000,
    ensures
        mach_o::long(n).len() == 8,
        long_at(mach_o::long(n), 0) == n,
{
    let high = n / 0x1_0000_0000;
    let low = n % 0x1_0000_0000;
    lemma_word(high);
    lemma_word(low);
    lemma_halves(n);
    let b = mach_o::long(n);
    let l = mach_o::word(low);
    let h = mach_o::word(high);
    assert(b =~= l + h);
    assert(b.subrange(0, 4) =~= l);
    assert(b.subrange(4, 8) =~= h);
    lemma_within(b, l, 0);
    lemma_within(b, h, 4);
    assert(word_at(b, 0int + 0) == word_at(l, 0));
    assert(word_at(b, 4int + 0) == word_at(h, 0));
    reveal(long_at);
}

proof fn lemma_halves(n: int)
    requires
        0 <= n < 0x1_0000_0000_0000_0000,
    ensures
        mach_o::long(n) == mach_o::word(n % 0x1_0000_0000) + mach_o::word(n / 0x1_0000_0000),
{
    let high = n / 0x1_0000_0000;
    let low = n % 0x1_0000_0000;
    let a = n / 256;
    let b = a / 256;
    let c = b / 256;
    let d = c / 256;
    assert(d == high);
    assert(n % 256 == low % 256);
    assert(a % 256 == low / 256 % 256);
    assert(b % 256 == low / 256 / 256 % 256);
    assert(c % 256 == low / 256 / 256 / 256 % 256);
    assert(bytes::le_bytes(n, 8) =~= seq![(n % 256) as u8] + bytes::le_bytes(a, 7));
    assert(bytes::le_bytes(a, 7) =~= seq![(a % 256) as u8] + bytes::le_bytes(b, 6));
    assert(bytes::le_bytes(b, 6) =~= seq![(b % 256) as u8] + bytes::le_bytes(c, 5));
    assert(bytes::le_bytes(c, 5) =~= seq![(c % 256) as u8] + bytes::le_bytes(d, 4));
    let low_bytes = seq![(n % 256) as u8, (a % 256) as u8, (b % 256) as u8, (c % 256) as u8];
    assert(mach_o::word(low) =~= low_bytes) by {
        reveal_with_fuel(bytes::le_bytes, 5);
    }
    assert(mach_o::long(n) =~= low_bytes + bytes::le_bytes(d, 4));
}

/// All words and longs can be read back.
proof fn lemma_numbers()
    ensures
        forall|n: int|
            0 <= n < 0x1_0000_0000 ==> (#[trigger] mach_o::word(n)).len() == 4 && word_at(
                mach_o::word(n),
                0,
            ) == n,
        forall|n: int|
            0 <= n < 0x1_0000_0000_0000_0000 ==> (#[trigger] mach_o::long(n)).len() == 8 && long_at(
                mach_o::long(n),
                0,
            ) == n,
{
    assert forall|n: int| 0 <= n < 0x1_0000_0000 implies (#[trigger] mach_o::word(n)).len() == 4
        && word_at(mach_o::word(n), 0) == n by {
        lemma_word(n);
    }
    assert forall|n: int| 0 <= n < 0x1_0000_0000_0000_0000 implies (#[trigger] mach_o::long(
        n,
    )).len() == 8 && long_at(mach_o::long(n), 0) == n by {
        lemma_long(n);
    }
}

proof fn lemma_name(name: Seq<char>, b: Seq<u8>, at: int)
    requires
        vstd::utf8::encode_utf8(name).len() <= 16,
        0 <= at,
        at + 16 <= b.len(),
        b.subrange(at, at + 16) == mach_o::name_field(name),
    ensures
        named_at(b, at, name),
{
    let text = vstd::utf8::encode_utf8(name);
    let field = b.subrange(at, at + 16);
    assert forall|i: int| 0 <= i < text.len() implies #[trigger] b[at + i] == text[i] by {
        assert(field[i] == b[at + i]);
    }
    assert forall|i: int| text.len() <= i < 16 implies #[trigger] b[at + i] == 0 by {
        assert(field[i] == b[at + i]);
    }
}

proof fn lemma_mapping(s: SegmentCommand)
    requires
        vstd::utf8::encode_utf8(s.segment_name@).len() <= 16,
    ensures
        s.bytes().len() == 72,
        s.bytes().subrange(8, 24) == mach_o::name_field(s.segment_name@),
        mapping_at(s.bytes(), 0).maps(
            s.file_offset as int,
            s.file_size as int,
            s.vmaddr as int,
            s.vmsize as int,
            s.prot as int,
        ),
        mapping_at(s.bytes(), 0).size == s.command_size,
        mapping_at(s.bytes(), 0).sections == s.section_count,
{
    reveal(word_at);
    reveal(long_at);
    lemma_numbers();
    let b = s.bytes();
    assert(b.subrange(8, 24) =~= mach_o::name_field(s.segment_name@));
}

proof fn lemma_section(s: SectionHeader)
    requires
        vstd::utf8::encode_utf8(s.section_name@).len() <= 16,
        vstd::utf8::encode_utf8(s.segment_name@).len() <= 16,
    ensures
        s.bytes().len() == 80,
        s.bytes().subrange(0, 16) == mach_o::name_field(s.section_name@),
        s.bytes().subrange(16, 32) == mach_o::name_field(s.segment_name@),
        section_at(
            s.bytes(),
            0,
            s.addr as int,
            s.size as int,
            s.offset as int,
            s.align as int,
            s.flags as int,
        ),
{
    reveal(word_at);
    reveal(long_at);
    lemma_numbers();
    let b = s.bytes();
    assert(b.subrange(0, 16) =~= mach_o::name_field(s.section_name@));
    assert(b.subrange(16, 32) =~= mach_o::name_field(s.segment_name@));
}

/// Bytes that lie in the same places are read alike.
proof fn lemma_within(b: Seq<u8>, part: Seq<u8>, at: int)
    requires
        0 <= at,
        at + part.len() <= b.len(),
        b.subrange(at, at + part.len()) == part,
    ensures
        forall|k: int| #![trigger b[at + k]] 0 <= k < part.len() ==> b[at + k] == part[k],
        forall|k: int|
            #![trigger word_at(b, at + k)]
            0 <= k && k + 4 <= part.len() ==> word_at(b, at + k) == word_at(part, k),
        forall|k: int|
            #![trigger long_at(b, at + k)]
            0 <= k && k + 8 <= part.len() ==> long_at(b, at + k) == long_at(part, k),
{
    reveal(word_at);
    reveal(long_at);
    let sub = b.subrange(at, at + part.len());
    assert forall|k: int| #![trigger b[at + k]] 0 <= k < part.len() implies b[at + k] == part[k] by {
        assert(sub[k] == b[at + k]);
    }
    assert forall|k: int| #![trigger word_at(b, at + k)] 0 <= k && k + 4 <= part.len() implies word_at(
        b,
        at + k,
    ) == word_at(part, k) by {
        assert(sub[k] == b[at + k]);
        assert(sub[k + 1] == b[at + k + 1]);
        assert(sub[k + 2] == b[at + k + 2]);
        assert(sub[k + 3] == b[at + k + 3]);
    }
    assert forall|k: int| #![trigger long_at(b, at + k)] 0 <= k && k + 8 <= part.len() implies long_at(
        b,
        at + k,
    ) == long_at(part, k) by {
        assert(word_at(b, at + k) == word_at(part, k));
        assert(word_at(b, at + (k + 4)) == word_at(part, k + 4));
    }
}

proof fn lemma_sub(b: Seq<u8>, part: Seq<u8>, at: int, i: int, j: int)
    requires
        0 <= at,
        at + part.len() <= b.len(),
        b.subrange(at, at + part.len()) == part,
        0 <= i <= j <= part.len(),
    ensures
        b.subrange(at + i, at + j) == part.subrange(i, j),
{
    assert(b.subrange(at + i, at + j) =~= b.subrange(at, at + part.len()).subrange(i, j));
}

proof fn lemma_mapping_in(b: Seq<u8>, at: int, s: SegmentCommand)
    requires
        vstd::utf8::encode_utf8(s.segment_name@).len() <= 16,
        0 <= at,
        at + 72 <= b.len(),
        b.subrange(at, at + 72) == s.bytes(),
    ensures
        mapping_at(b, at) == mapping_at(s.bytes(), 0),
        named_at(b, at + 8, s.segment_name@),
        mapping_at(b, at).maps(
            s.file_offset as int,
            s.file_size as int,
            s.vmaddr as int,
            s.vmsize as int,
            s.prot as int,
        ),
        word_at(b, at + 4) == s.command_size,
        mapping_at(b, at).size == s.command_size,
        mapping_at(b, at).sections == s.section_count,
{
    lemma_mapping(s);
    lemma_within(b, s.bytes(), at);
    assert(word_at(b, at + 0) == word_at(s.bytes(), 0));
    lemma_sub(b, s.bytes(), at, 8, 24);
    lemma_name(s.segment_name@, b, at + 8);
}

proof fn lemma_section_in(b: Seq<u8>, at: int, s: SectionHeader)
    requires
        vstd::utf8::encode_utf8(s.section_name@).len() <= 16,
        vstd::utf8::encode_utf8(s.segment_name@).len() <= 16,
        0 <= at,
        at + 80 <= b.len(),
        b.subrange(at, at + 80) == s.bytes(),
    ensures
        named_at(b, at, s.section_name@),
        named_at(b, at + 16, s.segment_name@),
        section_at(
            b,
            at,
            s.addr as int,
            s.size as int,
            s.offset as int,
            s.align as int,
            s.flags as int,
        ),
{
    lemma_section(s);
    lemma_within(b, s.bytes(), at);
    lemma_sub(b, s.bytes(), at, 0, 16);
    lemma_sub(b, s.bytes(), at, 16, 32);
    lemma_name(s.section_name@, b, at);
    lemma_name(s.segment_name@, b, at + 16);
}

proof fn lemma_header_in(b: Seq<u8>, h: Header)
    requires
        32 <= b.len(),
        b.subrange(0, 32) == h.bytes(),
    ensures
        word_at(b, 0) == h.magic,
        word_at(b, 4) == h.cpu_type,
        word_at(b, 8) == h.cpu_subtype,
        word_at(b, 12) == h.file_type,
        word_at(b, 16) == h.load_cmd_count,
        word_at(b, 20) == h.load_cmd_size,
        word_at(b, 24) == h.flags,
        word_at(b, 28) == 0,
{
    lemma_numbers();
    reveal(word_at);
    reveal(long_at);
    let part = h.bytes();
    assert(part.len() == 32);
    lemma_within(b, part, 0);
    assert(word_at(b, 0int + 0) == word_at(part, 0));
    assert(word_at(b, 0int + 4) == word_at(part, 4));
    assert(word_at(b, 0int + 8) == word_at(part, 8));
    assert(word_at(b, 0int + 12) == word_at(part, 12));
    assert(word_at(b, 0int + 16) == word_at(part, 16));
    assert(word_at(b, 0int + 20) == word_at(part, 20));
    assert(word_at(b, 0int + 24) == word_at(part, 24));
    assert(word_at(b, 0int + 28) == word_at(part, 28));
}

proof fn lemma_entry_in(b: Seq<u8>, at: int, e: EntryPointCommand)
    requires
        0 <= at,
        at + 24 <= b.len(),
        b.subrange(at, at + 24) == e.bytes(),
    ensures
        word_at(b, at) == 0x8000_0028,
        word_at(b, at + 4) == 24,
        long_at(b, at + 8) == e.main_offset,
        long_at(b, at + 16) == 0,
{
    lemma_numbers();
    reveal(word_at);
    reveal(long_at);
    let part = e.bytes();
    assert(part.len() == 24);
    lemma_within(b, part, at);
    assert(word_at(b, at + 0) == word_at(part, 0));
}

proof fn lemma_linker_in(b: Seq<u8>, at: int)
    requires
        0 <= at,
        at + 32 <= b.len(),
        ({
            let d = DyLinkerCommand { command_size: 32, path: "/usr/lib/dyld" };
            b.subrange(at, at + 32) == d.bytes()
        }),
    ensures
        word_at(b, at) == 0xe,
        word_at(b, at + 4) == 32,
        word_at(b, at + 8) == 12,
        ({
            let path = vstd::utf8::encode_utf8("/usr/lib/dyld"@);
            &&& b.subrange(at + 12, at + 12 + path.len()) == path
            &&& forall|i: int| 12 + path.len() <= i < 32 ==> #[trigger] b[at + i] == 0
        }),
{
    lemma_numbers();
    reveal_strlit("/usr/lib/dyld");
    mac::lemma_ascii_name("/usr/lib/dyld");
    reveal(word_at);
    reveal(long_at);
    let part = (DyLinkerCommand { command_size: 32, path: "/usr/lib/dyld" }).bytes();
    let path = vstd::utf8::encode_utf8("/usr/lib/dyld"@);
    assert(part.len() == 32);
    lemma_within(b, part, at);
    assert(word_at(b, at + 0) == word_at(part, 0));
    assert(b.subrange(at + 12, at + 12 + path.len()) =~= path) by {
        assert forall|i: int| 0 <= i < path.len() implies b[at + 12 + i] == path[i] by {
            assert(b[at + (12 + i)] == part[12 + i]);
        }
    }
}

proof fn lemma_signature_in(b: Seq<u8>, at: int, c: LinkEditDataCommand)
    requires
        0 <= at,
        at + 16 <= b.len(),
        b.subrange(at, at + 16) == c.bytes(),
    ensures
        word_at(b, at) == 0x1d,
        word_at(b, at + 4) == 16,
        word_at(b, at + 8) == c.data_offset,
        word_at(b, at + 12) == c.data_size,
{
    lemma_numbers();
    reveal(word_at);
    reveal(long_at);
    let part = c.bytes();
    assert(part.len() == 16);
    lemma_within(b, part, at);
    assert(word_at(b, at + 0) == word_at(part, 0));
}

proof fn lemma_dysymtab_in(b: Seq<u8>, at: int)
    requires
        0 <= at,
        at + 80 <= b.len(),
        b.subrange(at, at + 80) == mach_o::empty_dysymtab(),
    ensures
        word_at(b, at) == 0xb,
        word_at(b, at + 4) == 80,
        forall|i: int| 8 <= i < 80 ==> #[trigger] b[at + i] == 0,
{
    lemma_numbers();
    reveal(word_at);
    reveal(long_at);
    let part = mach_o::empty_dysymtab();
    assert(part.len() == 80);
    lemma_within(b, part, at);
    assert(word_at(b, at + 0) == word_at(part, 0));
}

proof fn lemma_symtab_in(b: Seq<u8>, at: int, c: SymTabCommand)
    requires
        0 <= at,
        at + 24 <= b.len(),
        b.subrange(at, at + 24) == c.bytes(),
    ensures
        word_at(b, at) == 2,
        word_at(b, at + 4) == 24,
        word_at(b, at + 8) == c.symoff,
        word_at(b, at + 12) == c.nsyms,
        word_at(b, at + 16) == c.stroff,
        word_at(b, at + 20) == c.strsize,
{
    lemma_numbers();
    reveal(word_at);
    reveal(long_at);
    let part = c.bytes();
    assert(part.len() == 24);
    lemma_within(b, part, at);
    assert(word_at(b, at + 0) == word_at(part, 0));
}

/// What the header says of the file: it is an executable for 64-bit ARM machines, and nine commands
/// follow, in 704 bytes.
pub open spec fn header_reads(b: Seq<u8>) -> bool {
    &&& word_at(b, 0) == 0xfeed_facf
    &&& word_at(b, 4) == 0x0100_000c
    &&& word_at(b, 8) == 0
    &&& word_at(b, 12) == 2
    &&& word_at(b, 16) == 9
    &&& word_at(b, 20) == 704
    &&& word_at(b, 24) == 0x20_0004
    &&& word_at(b, 28) == 0
}

/// What the commands say of memory. The lowest addresses belong to nothing. The beginning of the file,
/// up to `end`, can be read and executed; it holds `code` bytes of code and `literals` bytes of string
/// literals behind them. The static memory can be read and written. The rest of the file can be neither.
#[verifier::opaque]
pub open spec fn memory_reads(b: Seq<u8>, code: int, literals: int, end: int, rest: int) -> bool {
    &&& mapping_at(b, 32).maps(0, 0, 0, 0x1_0000_0000, 0)
    &&& named_at(b, 40, "__PAGEZERO"@)
    &&& mapping_at(b, 32).sections == 0
    &&& mapping_at(b, 104).maps(0, end, 0x1_0000_0000, end, 5)
    &&& named_at(b, 112, "__TEXT"@)
    &&& mapping_at(b, 104).sections == 2
    &&& named_at(b, 176, "__text"@)
    &&& named_at(b, 192, "__TEXT"@)
    &&& section_at(b, 176, 0x1_0000_0000, code, 736, 2, 0)
    &&& named_at(b, 256, "__cstring"@)
    &&& named_at(b, 272, "__TEXT"@)
    &&& section_at(b, 256, 0x1_0000_0000 + code, literals, 736 + code, 1, 2)
    &&& mapping_at(b, 336).maps(0, 0, 0x1_0000_0000 + end, 0x4000, 3)
    &&& named_at(b, 344, "__DATA"@)
    &&& mapping_at(b, 336).sections == 1
    &&& named_at(b, 408, "__bss"@)
    &&& named_at(b, 424, "__DATA"@)
    &&& section_at(b, 408, 0x1_0000_0000 + end, 64, 0, 3, 1)
    &&& mapping_at(b, 544).maps(end, rest, 0x1_0000_0000 + end + 0x4000, 0x4000, 0)
    &&& named_at(b, 552, "__LINKEDIT"@)
    &&& mapping_at(b, 544).sections == 0
}

/// What the other commands say. The program begins `entry` bytes behind the beginning of the code; the
/// symbols begin at `end`, their names behind them, and the signature behind those.
#[verifier::opaque]
pub open spec fn places_read(b: Seq<u8>, entry: int, end: int, symbols: int, names: int) -> bool {
    let path = vstd::utf8::encode_utf8("/usr/lib/dyld"@);
    &&& word_at(b, 488) == 0x8000_0028
    &&& long_at(b, 496) == 736 + entry
    &&& long_at(b, 504) == 0
    &&& word_at(b, 512) == 0xe
    &&& word_at(b, 520) == 12
    &&& b.subrange(524, 524 + path.len() as int) == path
    &&& forall|i: int| 12 + path.len() <= i < 32 ==> #[trigger] b[512 + i] == 0
    &&& word_at(b, 616) == 0x1d
    &&& word_at(b, 624) == end + 16 * symbols + names
    &&& word_at(b, 628) == 16
    &&& word_at(b, 632) == 0xb
    &&& forall|i: int| 8 <= i < 80 ==> #[trigger] b[632 + i] == 0
    &&& word_at(b, 712) == 2
    &&& word_at(b, 720) == end
    &&& word_at(b, 724) == symbols
    &&& word_at(b, 728) == end + 16 * symbols
    &&& word_at(b, 732) == names
}

/// The commands follow each other, as each of them says how long it is, and end where the code begins.
pub open spec fn commands_follow(b: Seq<u8>) -> bool {
    &&& command_place(b, 1) == 104
    &&& command_place(b, 2) == 336
    &&& command_place(b, 3) == 488
    &&& command_place(b, 4) == 512
    &&& command_place(b, 5) == 544
    &&& command_place(b, 6) == 616
    &&& command_place(b, 7) == 632
    &&& command_place(b, 8) == 712
    &&& command_place(b, 9) == 736
}

spec fn header_part() -> Header {
    Header {
        magic: mach_o::MAGIC_64,
        cpu_type: mach_o::CPU_TYPE_ARM64,
        cpu_subtype: mach_o::CPU_SUBTYPE_ARM,
        file_type: mach_o::FILE_TYPE_EXECUTE,
        load_cmd_count: 9,
        load_cmd_size: 704,
        flags: 0x20_0004,
    }
}

spec fn zero_part() -> SegmentCommand {
    SegmentCommand {
        command_size: 72,
        segment_name: "__PAGEZERO",
        vmaddr: 0,
        vmsize: mac::BASE_ADDRESS,
        file_offset: 0,
        file_size: 0,
        prot: mach_o::PROTECT_NONE,
        section_count: 0,
    }
}

spec fn text_part(sizes: Sizes) -> SegmentCommand {
    SegmentCommand {
        command_size: 232,
        segment_name: "__TEXT",
        vmaddr: mac::BASE_ADDRESS,
        vmsize: sizes.text_end,
        file_offset: 0,
        file_size: sizes.text_end,
        prot: mach_o::PROTECT_READ_EXECUTE,
        section_count: 2,
    }
}

spec fn code_part(sizes: Sizes) -> SectionHeader {
    SectionHeader {
        section_name: "__text",
        segment_name: "__TEXT",
        addr: mac::BASE_ADDRESS,
        size: sizes.code,
        offset: mac::TEXT_OFFSET as u32,
        align: 2,
        flags: mach_o::SECTION_REGULAR,
    }
}

spec fn literals_part(sizes: Sizes) -> SectionHeader {
    SectionHeader {
        section_name: "__cstring",
        segment_name: "__TEXT",
        addr: (mac::BASE_ADDRESS + sizes.code) as u64,
        size: sizes.literals as u64,
        offset: (mac::TEXT_OFFSET + mac::cut(sizes.code as int)) as u32,
        align: 1,
        flags: mach_o::SECTION_CSTRING_LITERALS,
    }
}

spec fn data_part(sizes: Sizes) -> SegmentCommand {
    SegmentCommand {
        command_size: 152,
        segment_name: "__DATA",
        vmaddr: ((mac::BASE_ADDRESS + sizes.text_end) as u64),
        vmsize: mac::PAGE_ALIGN,
        file_offset: 0,
        file_size: 0,
        prot: mach_o::PROTECT_READ_WRITE,
        section_count: 1,
    }
}

spec fn bss_part(sizes: Sizes) -> SectionHeader {
    SectionHeader {
        section_name: "__bss",
        segment_name: "__DATA",
        addr: ((mac::BASE_ADDRESS + sizes.text_end) as u64),
        size: 64,
        offset: 0,
        align: 3,
        flags: mach_o::SECTION_ZERO_FILL,
    }
}

spec fn begin_part(entry: u64) -> EntryPointCommand {
    EntryPointCommand { main_offset: (entry + mac::TEXT_OFFSET) as u64 }
}

spec fn linker_part() -> DyLinkerCommand {
    DyLinkerCommand {
        command_size: mac::DYLINKER_COMMAND_SIZE,
        path: "/usr/lib/dyld",
    }
}

spec fn rest_part(sizes: Sizes) -> SegmentCommand {
    SegmentCommand {
        command_size: 72,
        segment_name: "__LINKEDIT",
        vmaddr: (((mac::BASE_ADDRESS + sizes.text_end) as u64) + mac::PAGE_ALIGN) as u64,
        vmsize: mac::PAGE_ALIGN,
        file_offset: sizes.text_end,
        file_size: (mac::CODESIGN_SIZE + sizes.nlists() + sizes.names) as u64,
        prot: mach_o::PROTECT_NONE,
        section_count: 0,
    }
}

spec fn signature_part(sizes: Sizes) -> LinkEditDataCommand {
    LinkEditDataCommand {
        data_offset: (mac::cut(sizes.text_end as int) + mac::cut(
            sizes.nlists() + sizes.names,
        )) as u32,
        data_size: mac::CODESIGN_SIZE as u32,
    }
}

spec fn symtab_part(sizes: Sizes) -> SymTabCommand {
    SymTabCommand {
        symoff: mac::cut(sizes.text_end as int) as u32,
        nsyms: mac::cut(sizes.symbols as int) as u32,
        stroff: (mac::cut(sizes.text_end as int) + mac::cut(sizes.nlists())) as u32,
        strsize: mac::cut(sizes.names as int) as u32,
    }
}

/// The names that stand in the commands are short.
proof fn lemma_names()
    ensures
        vstd::utf8::encode_utf8("__PAGEZERO"@).len() == 10,
        vstd::utf8::encode_utf8("__TEXT"@).len() == 6,
        vstd::utf8::encode_utf8("__text"@).len() == 6,
        vstd::utf8::encode_utf8("__cstring"@).len() == 9,
        vstd::utf8::encode_utf8("__DATA"@).len() == 6,
        vstd::utf8::encode_utf8("__bss"@).len() == 5,
        vstd::utf8::encode_utf8("__LINKEDIT"@).len() == 10,
        vstd::utf8::encode_utf8("/usr/lib/dyld"@).len() == 13,
{
    reveal_strlit("__PAGEZERO");
    mac::lemma_ascii_name("__PAGEZERO");
    reveal_strlit("__TEXT");
    mac::lemma_ascii_name("__TEXT");
    reveal_strlit("__text");
    mac::lemma_ascii_name("__text");
    reveal_strlit("__cstring");
    mac::lemma_ascii_name("__cstring");
    reveal_strlit("__DATA");
    mac::lemma_ascii_name("__DATA");
    reveal_strlit("__bss");
    mac::lemma_ascii_name("__bss");
    reveal_strlit("__LINKEDIT");
    mac::lemma_ascii_name("__LINKEDIT");
    reveal_strlit("/usr/lib/dyld");
    mac::lemma_ascii_name("/usr/lib/dyld");
}

/// Thirteen parts that lie one behind the other.
proof fn lemma_thirteen(
    b: Seq<u8>,
    a0: Seq<u8>,
    a1: Seq<u8>,
    a2: Seq<u8>,
    a3: Seq<u8>,
    a4: Seq<u8>,
    a5: Seq<u8>,
    a6: Seq<u8>,
    a7: Seq<u8>,
    a8: Seq<u8>,
    a9: Seq<u8>,
    a10: Seq<u8>,
    a11: Seq<u8>,
    a12: Seq<u8>,
)
    requires
        736 <= b.len(),
        a0.len() == 32,
        a1.len() == 72,
        a2.len() == 72,
        a3.len() == 80,
        a4.len() == 80,
        a5.len() == 72,
        a6.len() == 80,
        a7.len() == 24,
        a8.len() == 32,
        a9.len() == 72,
        a10.len() == 16,
        a11.len() == 80,
        a12.len() == 24,
        b.subrange(0, 736) == a0 + a1 + a2 + a3 + a4 + a5 + a6 + a7 + a8 + a9 + a10 + a11 + a12,
    ensures
        b.subrange(0, 32) == a0,
        b.subrange(32, 104) == a1,
        b.subrange(104, 176) == a2,
        b.subrange(176, 256) == a3,
        b.subrange(256, 336) == a4,
        b.subrange(336, 408) == a5,
        b.subrange(408, 488) == a6,
        b.subrange(488, 512) == a7,
        b.subrange(512, 544) == a8,
        b.subrange(544, 616) == a9,
        b.subrange(616, 632) == a10,
        b.subrange(632, 712) == a11,
        b.subrange(712, 736) == a12,
{
    let p0 = a0;
    let p1 = p0 + a1;
    let p2 = p1 + a2;
    let p3 = p2 + a3;
    let p4 = p3 + a4;
    let p5 = p4 + a5;
    let p6 = p5 + a6;
    let p7 = p6 + a7;
    let p8 = p7 + a8;
    let p9 = p8 + a9;
    let p10 = p9 + a10;
    let p11 = p10 + a11;
    let p12 = p11 + a12;
    lemma_behind(b, p11, a12, 712, 736);
    lemma_behind(b, p10, a11, 632, 712);
    lemma_behind(b, p9, a10, 616, 632);
    lemma_behind(b, p8, a9, 544, 616);
    lemma_behind(b, p7, a8, 512, 544);
    lemma_behind(b, p6, a7, 488, 512);
    lemma_behind(b, p5, a6, 408, 488);
    lemma_behind(b, p4, a5, 336, 408);
    lemma_behind(b, p3, a4, 256, 336);
    lemma_behind(b, p2, a3, 176, 256);
    lemma_behind(b, p1, a2, 104, 176);
    lemma_behind(b, p0, a1, 32, 104);
}

proof fn lemma_part_sizes(sizes: Sizes, entry: u64)
    ensures
        header_part().bytes().len() == 32,
        zero_part().bytes().len() == 72,
        text_part(sizes).bytes().len() == 72,
        code_part(sizes).bytes().len() == 80,
        literals_part(sizes).bytes().len() == 80,
        data_part(sizes).bytes().len() == 72,
        bss_part(sizes).bytes().len() == 80,
        begin_part(entry).bytes().len() == 24,
        linker_part().bytes().len() == 32,
        rest_part(sizes).bytes().len() == 72,
        signature_part(sizes).bytes().len() == 16,
        mach_o::empty_dysymtab().len() == 80,
        symtab_part(sizes).bytes().len() == 24,
{
    lemma_names();
    mach_o::lemma_number_len();
    lemma_mapping(zero_part());
    lemma_mapping(text_part(sizes));
    lemma_mapping(data_part(sizes));
    lemma_mapping(rest_part(sizes));
    lemma_section(code_part(sizes));
    lemma_section(literals_part(sizes));
    lemma_section(bss_part(sizes));
}

proof fn lemma_parts(b: Seq<u8>, sizes: Sizes, entry: u64)
    requires
        736 <= b.len(),
        b.subrange(0, 736) == mac::head(sizes, entry),
    ensures
        b.subrange(0, 32) == header_part().bytes(),
        b.subrange(32, 104) == zero_part().bytes(),
        b.subrange(104, 176) == text_part(sizes).bytes(),
        b.subrange(176, 256) == code_part(sizes).bytes(),
        b.subrange(256, 336) == literals_part(sizes).bytes(),
        b.subrange(336, 408) == data_part(sizes).bytes(),
        b.subrange(408, 488) == bss_part(sizes).bytes(),
        b.subrange(488, 512) == begin_part(entry).bytes(),
        b.subrange(512, 544) == linker_part().bytes(),
        b.subrange(544, 616) == rest_part(sizes).bytes(),
        b.subrange(616, 632) == signature_part(sizes).bytes(),
        b.subrange(632, 712) == mach_o::empty_dysymtab(),
        b.subrange(712, 736) == symtab_part(sizes).bytes(),
{
    reveal(mac::head);
    lemma_part_sizes(sizes, entry);
    lemma_thirteen(
        b,
        header_part().bytes(),
        zero_part().bytes(),
        text_part(sizes).bytes(),
        code_part(sizes).bytes(),
        literals_part(sizes).bytes(),
        data_part(sizes).bytes(),
        bss_part(sizes).bytes(),
        begin_part(entry).bytes(),
        linker_part().bytes(),
        rest_part(sizes).bytes(),
        signature_part(sizes).bytes(),
        mach_o::empty_dysymtab(),
        symtab_part(sizes).bytes(),
    );
}

proof fn lemma_head_memory(b: Seq<u8>, sizes: Sizes, entry: u64)
    requires
        sizes.fit(),
        sizes.code < 0x1_0000_0000,
        sizes.text_end + 16 * sizes.symbols + sizes.names < 0x1_0000_0000,
        mac::BASE_ADDRESS + mac::TEXT_OFFSET + entry <= u64::MAX,
        736 <= b.len(),
        b.subrange(0, 736) == mac::head(sizes, entry),
    ensures
        memory_reads(
            b,
            sizes.code as int,
            sizes.literals as int,
            sizes.text_end as int,
            16 + 16 * sizes.symbols + sizes.names,
        ),
        word_at(b, 36) == 72,
        word_at(b, 108) == 232,
        word_at(b, 340) == 152,
        word_at(b, 548) == 72,
{
    reveal(memory_reads);
    lemma_names();
    lemma_parts(b, sizes, entry);
    lemma_mapping_in(b, 32, zero_part());
    lemma_mapping_in(b, 104, text_part(sizes));
    lemma_mapping_in(b, 336, data_part(sizes));
    lemma_mapping_in(b, 544, rest_part(sizes));
    lemma_section_in(b, 176, code_part(sizes));
    lemma_section_in(b, 256, literals_part(sizes));
    lemma_section_in(b, 408, bss_part(sizes));
}

proof fn lemma_head_begin(b: Seq<u8>, sizes: Sizes, entry: u64)
    requires
        sizes.fit(),
        sizes.code < 0x1_0000_0000,
        sizes.text_end + 16 * sizes.symbols + sizes.names < 0x1_0000_0000,
        mac::BASE_ADDRESS + mac::TEXT_OFFSET + entry <= u64::MAX,
        736 <= b.len(),
        b.subrange(0, 736) == mac::head(sizes, entry),
    ensures
        header_reads(b),
        word_at(b, 488) == 0x8000_0028,
        word_at(b, 492) == 24,
        long_at(b, 496) == 736 + entry,
        long_at(b, 504) == 0,
{
    lemma_parts(b, sizes, entry);
    lemma_header_in(b, header_part());
    lemma_entry_in(b, 488, begin_part(entry));
}

proof fn lemma_head_linker(b: Seq<u8>, sizes: Sizes, entry: u64)
    requires
        sizes.fit(),
        sizes.code < 0x1_0000_0000,
        sizes.text_end + 16 * sizes.symbols + sizes.names < 0x1_0000_0000,
        mac::BASE_ADDRESS + mac::TEXT_OFFSET + entry <= u64::MAX,
        736 <= b.len(),
        b.subrange(0, 736) == mac::head(sizes, entry),
    ensures
        word_at(b, 512) == 0xe,
        word_at(b, 516) == 32,
        word_at(b, 520) == 12,
        ({
            let path = vstd::utf8::encode_utf8("/usr/lib/dyld"@);
            &&& b.subrange(524, 524 + path.len() as int) == path
            &&& forall|i: int| 12 + path.len() <= i < 32 ==> #[trigger] b[512 + i] == 0
        }),
        word_at(b, 632) == 0xb,
        word_at(b, 636) == 80,
        forall|i: int| 8 <= i < 80 ==> #[trigger] b[632 + i] == 0,
{
    lemma_parts(b, sizes, entry);
    lemma_linker_in(b, 512);
    lemma_dysymtab_in(b, 632);
}

proof fn lemma_head_symbols(b: Seq<u8>, sizes: Sizes, entry: u64)
    requires
        sizes.fit(),
        sizes.code < 0x1_0000_0000,
        sizes.text_end + 16 * sizes.symbols + sizes.names < 0x1_0000_0000,
        mac::BASE_ADDRESS + mac::TEXT_OFFSET + entry <= u64::MAX,
        736 <= b.len(),
        b.subrange(0, 736) == mac::head(sizes, entry),
    ensures
        word_at(b, 616) == 0x1d,
        word_at(b, 620) == 16,
        word_at(b, 624) == sizes.text_end + 16 * sizes.symbols + sizes.names,
        word_at(b, 628) == 16,
        word_at(b, 712) == 2,
        word_at(b, 716) == 24,
        word_at(b, 720) == sizes.text_end,
        word_at(b, 724) == sizes.symbols,
        word_at(b, 728) == sizes.text_end + 16 * sizes.symbols,
        word_at(b, 732) == sizes.names,
{
    assert(sizes.nlists() == 16 * sizes.symbols);
    lemma_small(sizes.text_end as int);
    lemma_small(16 * sizes.symbols + sizes.names);
    lemma_small(16 * sizes.symbols);
    lemma_small(sizes.symbols as int);
    lemma_small(sizes.names as int);
    lemma_parts(b, sizes, entry);
    lemma_signature_in(b, 616, signature_part(sizes));
    lemma_symtab_in(b, 712, symtab_part(sizes));
}

proof fn lemma_small(n: int)
    requires
        0 <= n < 0x1_0000_0000,
    ensures
        mac::cut(n) == n,
{
}

/// The commands of a file, read back.
proof fn lemma_head(b: Seq<u8>, sizes: Sizes, entry: u64)
    requires
        sizes.fit(),
        sizes.code < 0x1_0000_0000,
        sizes.text_end + 16 * sizes.symbols + sizes.names < 0x1_0000_0000,
        mac::BASE_ADDRESS + mac::TEXT_OFFSET + entry <= u64::MAX,
        736 <= b.len(),
        b.subrange(0, 736) == mac::head(sizes, entry),
    ensures
        header_reads(b),
        memory_reads(
            b,
            sizes.code as int,
            sizes.literals as int,
            sizes.text_end as int,
            16 + 16 * sizes.symbols + sizes.names,
        ),
        places_read(
            b,
            entry as int,
            sizes.text_end as int,
            sizes.symbols as int,
            sizes.names as int,
        ),
        commands_follow(b),
{
    lemma_head_memory(b, sizes, entry);
    lemma_head_begin(b, sizes, entry);
    lemma_head_linker(b, sizes, entry);
    lemma_head_symbols(b, sizes, entry);
    reveal(places_read);
    reveal_with_fuel(command_place, 10);
}

/// What lies behind a part, and that part.
proof fn lemma_behind(b: Seq<u8>, before: Seq<u8>, part: Seq<u8>, at: int, end: int)
    requires
        before.len() == at,
        at + part.len() == end <= b.len(),
        b.subrange(0, end) == before + part,
    ensures
        b.subrange(0, at) == before,
        b.subrange(at, end) == part,
{
    let both = before + part;
    assert(b.subrange(0, at) =~= before) by {
        assert forall|i: int| 0 <= i < at implies b[i] == before[i] by {
            assert(b.subrange(0, end)[i] == both[i]);
        }
    }
    assert(b.subrange(at, end) =~= part) by {
        assert forall|i: int| 0 <= i < part.len() implies b[at + i] == part[i] by {
            assert(b.subrange(0, end)[at + i] == both[at + i]);
        }
    }
}

/// The commands of a file say what is in it, if all its offsets are words. `end` is where the part of the
/// file ends that can be executed: behind the code and the string literals, at the next page.
pub proof fn law_commands(image: Seq<u8>, code: CodeV)
    requires
        mac::is_file_of(image, code),
        code.instructions.len() < 0x1_0000_0000,
        bytes::cstrings_len(code.str_literals, code.str_literals.len() as int) < 0x1_0000_0000,
        image.len() < 0x1_0000_0000,
    ensures
        ({
            let n = code.instructions.len() as int;
            let literals = bytes::cstrings_len(
                code.str_literals,
                code.str_literals.len() as int,
            );
            let count = code.symbols.len() as int;
            let end = long_at(image, 152);
            &&& header_reads(image)
            &&& commands_follow(image)
            &&& memory_reads(image, n, literals, end, image.len() - end)
            &&& places_read(
                image,
                code.entry_point_offset as int,
                end,
                count,
                image.len() - 16 - end - 16 * count,
            )
            &&& end % 0x4000 == 0
            &&& 736 + n + literals <= end < 736 + n + 0x4000
            &&& end + 16 * count + 16 < image.len()
            &&& forall|i: int| 736 + n + literals <= i < end ==> #[trigger] image[i] == 0
            &&& word_at(image, image.len() - 16) == 0xfade_0cc0
            &&& word_at(image, image.len() - 12) == 12
            &&& long_at(image, image.len() - 8) == 0
        }),
{
    let n = code.instructions.len() as int;
    let literals = bytes::cstrings_len(code.str_literals, code.str_literals.len() as int);
    let sizes = mac::sizes_of(n, literals, code);
    lemma_pieces(image, code);
    lemma_head(image, sizes, code.entry_point_offset);
    mac::law_aligned(736 + n, 0x4000);
    let names = mac::symbol_names(code.symbols);
    bytes::law_cstrings_len(names, 0, seq![0u8]);
    bytes::lemma_cstrings_grow(names, 0, names.len() as int);
    lemma_sign(image);
    lemma_end(image, n, literals, sizes.text_end as int, image.len() - sizes.text_end);
}

proof fn lemma_end(b: Seq<u8>, code: int, literals: int, end: int, rest: int)
    requires
        memory_reads(b, code, literals, end, rest),
    ensures
        long_at(b, 152) == end,
{
    reveal(memory_reads);
    assert(mapping_at(b, 104).bytes == long_at(b, 152));
}

proof fn lemma_symbol_places(b: Seq<u8>, entry: int, end: int, symbols: int, names: int)
    requires
        places_read(b, entry, end, symbols, names),
    ensures
        word_at(b, 720) == end,
        word_at(b, 728) == end + 16 * symbols,
{
    reveal(places_read);
}

proof fn lemma_sign(image: Seq<u8>)
    requires
        16 <= image.len(),
        image.subrange(image.len() - 16, image.len() as int) == mac::empty_codesign(),
    ensures
        word_at(image, image.len() - 16) == 0xfade_0cc0,
        word_at(image, image.len() - 12) == 12,
        long_at(image, image.len() - 8) == 0,
{
    let last = image.len() - 16;
    let sign = mac::empty_codesign();
    lemma_numbers();
    mach_o::lemma_number_len();
    lemma_within(image, sign, last);
    let magic = mach_o::word(0xfade_0cc0);
    let size = mach_o::word(12);
    assert(sign.subrange(0, 4) =~= magic);
    assert(sign.subrange(4, 8) =~= size);
    lemma_within(sign, magic, 0);
    lemma_within(sign, size, 4);
    assert(word_at(sign, 0int + 0) == word_at(magic, 0));
    assert(word_at(sign, 4int + 0) == word_at(size, 0));
    assert(word_at(image, last + 0) == word_at(sign, 0));
    assert(word_at(image, last + 4) == word_at(sign, 4));
    assert(long_at(image, last + 8) == long_at(sign, 8));
    assert(long_at(sign, 8) == 0) by {
        reveal(long_at);
        reveal(word_at);
    }
}

/// The parts of a file behind its commands.
proof fn lemma_pieces(image: Seq<u8>, code: CodeV)
    requires
        mac::is_file_of(image, code),
        code.instructions.len() < 0x1_0000_0000,
        bytes::cstrings_len(code.str_literals, code.str_literals.len() as int) < 0x1_0000_0000,
        image.len() < 0x1_0000_0000,
    ensures
        ({
            let n = code.instructions.len() as int;
            let literals = bytes::cstrings_len(
                code.str_literals,
                code.str_literals.len() as int,
            );
            let sizes = mac::sizes_of(n, literals, code);
            let symbols = mac::nlist_bytes(code.symbols, 0, Seq::empty());
            let names = bytes::cstrings(mac::symbol_names(code.symbols), 0, seq![0u8]);
            let end = sizes.text_end as int;
            &&& sizes.fit()
            &&& sizes.code == n
            &&& sizes.literals == literals
            &&& sizes.symbols == code.symbols.len()
            &&& sizes.text_end == mac::aligned(736 + n, 0x4000)
            &&& sizes.names == names.len()
            &&& mac::BASE_ADDRESS + mac::TEXT_OFFSET + code.entry_point_offset <= u64::MAX
            &&& mac::symbols_fit(code.symbols)
            &&& symbols.len() == 16 * code.symbols.len()
            &&& image.len() == end + symbols.len() + names.len() + 16
            &&& 736 + n + literals <= end
            &&& image.subrange(0, 736) == mac::head(sizes, code.entry_point_offset)
            &&& forall|i: int| 736 + n + literals <= i < end ==> #[trigger] image[i] == 0
            &&& image.subrange(end, end + symbols.len()) == symbols
            &&& image.subrange(end + symbols.len(), image.len() - 16) == names
            &&& image.subrange(image.len() - 16, image.len() as int) == mac::empty_codesign()
        }),
{
    let n = code.instructions.len() as int;
    let count = code.str_literals.len() as int;
    let literals = bytes::cstrings_len(code.str_literals, count);
    mac::law_file_layout(image, code);
    bytes::lemma_cstrings_grow(code.str_literals, 0, count);
    let sizes = mac::sizes_of(n, literals, code);
    mac::law_aligned(736 + n, 0x4000);
    let top = mac::head(sizes, code.entry_point_offset);
    mac::law_head_len(sizes, code.entry_point_offset);
    let texts = bytes::cstrings(code.str_literals, 0, Seq::empty());
    bytes::law_cstrings_behind(code.str_literals, 0, top + code.instructions);
    bytes::law_cstrings_len(code.str_literals, 0, Seq::empty());
    let padding = bytes::zeros(sizes.padding());
    let before = bytes::cstrings(code.str_literals, 0, top + code.instructions) + padding;
    let symbols = mac::nlist_bytes(code.symbols, 0, Seq::empty());
    mac::lemma_nlists(code.symbols, 0, Seq::empty());
    lemma_nlists_behind(code.symbols, 0, before);
    let all_names = mac::symbol_names(code.symbols);
    let names = bytes::cstrings(all_names, 0, seq![0u8]);
    bytes::law_cstrings_len(all_names, 0, seq![0u8]);
    bytes::lemma_cstrings_count(all_names, all_names.len() as int);
    bytes::lemma_cstrings_grow(all_names, 0, all_names.len() as int);
    mach_o::lemma_number_len();
    let sign = mac::empty_codesign();
    assert(sign.len() == 16);
    assert(before.len() == sizes.text_end);
    assert(image == before + symbols + names + sign);
    let end = sizes.text_end as int;
    assert(before == top + code.instructions + texts + padding);
    assert(image.subrange(0, 736) =~= top);
    assert forall|i: int| 736 + n + literals <= i < end implies #[trigger] image[i] == 0 by {
        assert(image[i] == before[i]);
        assert(before[i] == padding[i - (736 + n + literals)]);
    }
    assert(image.subrange(end, end + symbols.len()) =~= symbols);
    assert(image.subrange(end + symbols.len(), image.len() - 16) =~= names);
    assert(image.subrange(image.len() - 16, image.len() as int) =~= sign);
}

proof fn lemma_nlists_behind(symbols: Seq<(Seq<char>, u64)>, i: int, done: Seq<u8>)
    ensures
        mac::nlist_bytes(symbols, i, done) == done + mac::nlist_bytes(symbols, i, Seq::empty()),
    decreases symbols.len() - i,
{
    if i < symbols.len() {
        let entry = NList {
            str_table_idx: mac::cut(mac::names_len(symbols, i)) as u32,
            n_value: (mac::BASE_ADDRESS + symbols[i].1) as u64,
        }.bytes();
        lemma_nlists_behind(symbols, i + 1, done + entry);
        lemma_nlists_behind(symbols, i + 1, Seq::empty() + entry);
        let rest = mac::nlist_bytes(symbols, i + 1, Seq::empty());
        assert(done + entry + rest =~= done + (Seq::empty() + entry + rest));
    } else {
        assert(done + Seq::<u8>::empty() =~= done);
    }
}

proof fn lemma_nlist_at(symbols: Seq<(Seq<char>, u64)>, i: int, k: int)
    requires
        0 <= i <= k < symbols.len(),
    ensures
        ({
            let all = mac::nlist_bytes(symbols, i, Seq::empty());
            let entry = NList {
                str_table_idx: mac::cut(mac::names_len(symbols, k)) as u32,
                n_value: (mac::BASE_ADDRESS + symbols[k].1) as u64,
            };
            &&& all.len() == 16 * (symbols.len() - i)
            &&& all.subrange(16 * (k - i), 16 * (k - i) + 16) == entry.bytes()
        }),
    decreases k - i,
{
    mac::lemma_nlists(symbols, i, Seq::empty());
    mac::lemma_nlists(symbols, i + 1, Seq::empty());
    mach_o::lemma_number_len();
    let entry = NList {
        str_table_idx: mac::cut(mac::names_len(symbols, i)) as u32,
        n_value: (mac::BASE_ADDRESS + symbols[i].1) as u64,
    }.bytes();
    assert(entry.len() == 16);
    let rest = mac::nlist_bytes(symbols, i + 1, Seq::empty());
    lemma_nlists_behind(symbols, i + 1, Seq::empty() + entry);
    let all = mac::nlist_bytes(symbols, i, Seq::empty());
    assert(all =~= entry + rest);
    if i < k {
        lemma_nlist_at(symbols, i + 1, k);
        assert(all.subrange(16 * (k - i), 16 * (k - i) + 16) =~= rest.subrange(
            16 * (k - i - 1),
            16 * (k - i - 1) + 16,
        ));
    } else {
        assert(all.subrange(0, 16) =~= entry);
    }
}

/// Each symbol of a file leads to its name and to its place: behind the code and the string literals
/// lie the symbols, 16 bytes each, and behind them their names, each with a zero byte at its end.
pub proof fn law_symbols(image: Seq<u8>, code: CodeV, k: int)
    requires
        mac::is_file_of(image, code),
        code.instructions.len() < 0x1_0000_0000,
        bytes::cstrings_len(code.str_literals, code.str_literals.len() as int) < 0x1_0000_0000,
        image.len() < 0x1_0000_0000,
        0 <= k < code.symbols.len(),
    ensures
        ({
            let (name, place) = code.symbols[k];
            let text = vstd::utf8::encode_utf8(name);
            let at = word_at(image, 720) + 16 * k;
            let name_at = word_at(image, 728) + word_at(image, at);
            &&& image.subrange(name_at, name_at + text.len()) == text
            &&& image[name_at + text.len()] == 0
            &&& word_at(image, 728) < name_at
            &&& name_at + text.len() < image.len() - 16
            &&& image[at + 4] == 0xe
            &&& image[at + 5] == 1
            &&& image[at + 6] == 0
            &&& image[at + 7] == 0
            &&& long_at(image, at + 8) == 0x1_0000_0000 + place
        }),
{
    let n = code.instructions.len() as int;
    let literals = bytes::cstrings_len(code.str_literals, code.str_literals.len() as int);
    let sizes = mac::sizes_of(n, literals, code);
    lemma_pieces(image, code);
    lemma_head(image, sizes, code.entry_point_offset);
    let end = sizes.text_end as int;
    let count = code.symbols.len() as int;
    lemma_symbol_places(
        image,
        code.entry_point_offset as int,
        end,
        count,
        sizes.names as int,
    );
    let symbols = mac::nlist_bytes(code.symbols, 0, Seq::empty());
    let entry = NList {
        str_table_idx: mac::cut(mac::names_len(code.symbols, k)) as u32,
        n_value: (mac::BASE_ADDRESS + code.symbols[k].1) as u64,
    };
    lemma_nlist_at(code.symbols, 0, k);
    lemma_nlist(entry);
    let at = end + 16 * k;
    let b = entry.bytes();
    lemma_sub(image, symbols, end, 16 * k, 16 * k + 16);
    lemma_within(image, b, at);
    assert(word_at(image, at + 0) == word_at(b, 0));
    assert(image[at + 4] == b[4]);
    assert(image[at + 5] == b[5]);
    assert(image[at + 6] == b[6]);
    assert(image[at + 7] == b[7]);
    assert(long_at(image, at + 8) == long_at(b, 8));
    lemma_symbol_name(image, end + 16 * count, code.symbols, k);
    lemma_small(mac::names_len(code.symbols, k));
}

/// The name of a symbol lies among the names.
proof fn lemma_symbol_name(image: Seq<u8>, first: int, symbols: Seq<(Seq<char>, u64)>, k: int)
    requires
        0 <= k < symbols.len(),
        0 <= first <= image.len() - 16,
        image.subrange(first, image.len() - 16) == bytes::cstrings(
            mac::symbol_names(symbols),
            0,
            seq![0u8],
        ),
    ensures
        ({
            let text = vstd::utf8::encode_utf8(symbols[k].0);
            let at = first + mac::names_len(symbols, k);
            &&& 1 <= mac::names_len(symbols, k) < image.len()
            &&& image.subrange(at, at + text.len()) == text
            &&& image[at + text.len()] == 0
            &&& at + text.len() < image.len() - 16
        }),
{
    let all_names = mac::symbol_names(symbols);
    let names = bytes::cstrings(all_names, 0, seq![0u8]);
    let name = symbols[k].0;
    let text = vstd::utf8::encode_utf8(name);
    assert(all_names[k] == name);
    bytes::law_cstring_at(all_names, k);
    bytes::law_cstrings_behind(all_names, 0, seq![0u8]);
    bytes::lemma_cstrings_grow(all_names, 0, k);
    let place = bytes::cstrings_len(all_names, k);
    let plain = bytes::cstrings(all_names, 0, Seq::empty());
    let whole = bytes::cstring(name);
    assert(names == seq![0u8] + plain);
    assert(names.subrange(1 + place, 1 + place + whole.len()) =~= plain.subrange(
        place,
        place + whole.len(),
    ));
    assert(mac::names_len(symbols, k) == 1 + place);
    lemma_sub(image, names, first, 1 + place, 1 + place + whole.len());
    let at = first + 1 + place;
    lemma_within(image, whole, at);
    assert(image.subrange(at, at + text.len()) =~= text) by {
        assert forall|i: int| 0 <= i < text.len() implies image[at + i] == text[i] by {
            assert(image[at + i] == whole[i]);
        }
    }
    assert(image[at + text.len()] == whole[text.len() as int]);
}

proof fn lemma_nlist(e: NList)
    ensures
        e.bytes().len() == 16,
        word_at(e.bytes(), 0) == e.str_table_idx,
        e.bytes()[4] == 0xe,
        e.bytes()[5] == 1,
        e.bytes()[6] == 0,
        e.bytes()[7] == 0,
        long_at(e.bytes(), 8) == e.n_value,
{
    lemma_numbers();
    mach_o::lemma_number_len();
    reveal(word_at);
    reveal(long_at);
    reveal_with_fuel(bytes::le_bytes, 3);
}

} // verus!
