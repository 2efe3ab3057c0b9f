//! Executable files for macOS.

pub mod laws;
pub mod mach_o;

use apple_codesign::{MachOSigner, SettingsScope, SigningSettings};
use vstd::prelude::*;

use crate::synthesize::arch;
use crate::synthesize::arch::{Assembler, CodeV, LinkableCode, MachineCode};
use crate::synthesize::bytes;
use crate::synthesize::exe::ExecutableError;
use crate::text;
use mach_o::{
    DyLinkerCommand, EntryPointCommand, Header, LinkEditDataCommand, NList, SectionHeader,
    SegmentCommand, SymTabCommand,
};

verus! {

/// The size of a page, to which segments are aligned.
pub const PAGE_ALIGN: u64 = 0x4000;

/// Where the memory of the program begins. The addresses below it belong to no memory, so that null
/// pointers are caught.
pub const BASE_ADDRESS: u64 = 0x1_0000_0000;

/// The number of bytes of the command that names the dynamic linker, with the path.
pub const DYLINKER_COMMAND_SIZE: u32 = 32;

/// Where the code lies in the file: behind the header and all commands.
pub const TEXT_OFFSET: u64 = 736;

/// The numbers that a word can hold.
pub const WORD_RANGE: u64 = 0x1_0000_0000;

/// The number of bytes of the empty code signature.
pub const CODESIGN_SIZE: usize = 16;

/// The lowest multiple of an alignment that is no lower than a number.
pub open spec fn aligned(num: int, alignment: int) -> int {
    let overshoot = num % alignment;
    if overshoot == 0 {
        num
    } else {
        num + (alignment - overshoot)
    }
}

/// An aligned number is a multiple of the alignment, and no multiple lies between it and the number.
pub proof fn law_aligned(num: int, alignment: int)
    requires
        0 <= num,
        0 < alignment,
    ensures
        aligned(num, alignment) % alignment == 0,
        num <= aligned(num, alignment) < num + alignment,
        num % alignment == 0 ==> aligned(num, alignment) == num,
        aligned(aligned(num, alignment), alignment) == aligned(num, alignment),
{
    vstd::arithmetic::div_mod::lemma_mod_bound(num, alignment);
    vstd::arithmetic::div_mod::lemma_fundamental_div_mod(num, alignment);
    if num % alignment != 0 {
        let q = num / alignment + 1;
        assert(aligned(num, alignment) == alignment * q) by (nonlinear_arith)
            requires
                num == alignment * (num / alignment) + num % alignment,
                aligned(num, alignment) == num + (alignment - num % alignment),
                q == num / alignment + 1,
        ;
        vstd::arithmetic::div_mod::lemma_mod_multiples_basic(q, alignment);
        assert(q * alignment == alignment * q) by (nonlinear_arith);
    }
}

/// Rounds a number up to a multiple of the alignment.
pub fn align(num: u64, alignment: u64) -> (r: u64)
    requires
        alignment > 0,
        aligned(num as int, alignment as int) <= u64::MAX,
    ensures
        r == aligned(num as int, alignment as int),
{
    let overshoot: u64 = num % alignment;
    if overshoot == 0 {
        num
    } else {
        num + (alignment - overshoot)
    }
}

/// Rounds an address up to the beginning of a page.
pub fn page_align(addr: u64) -> (r: u64)
    requires
        aligned(addr as int, PAGE_ALIGN as int) <= u64::MAX,
    ensures
        r == aligned(addr as int, PAGE_ALIGN as int),
{
    align(addr, PAGE_ALIGN)
}

/// What is left of a number in a word.
pub open spec fn cut(n: int) -> int {
    n % (WORD_RANGE as int)
}

/// The sizes of the parts of a file.
pub struct Sizes {
    /// The bytes of the code.
    pub code: u64,
    /// The bytes of the string literals.
    pub literals: usize,
    /// Where the text segment ends.
    pub text_end: u64,
    /// The number of symbols.
    pub symbols: usize,
    /// The bytes of the names of the symbols, with the zero byte before them.
    pub names: usize,
}

impl Sizes {
    /// The bytes of the symbols.
    pub open spec fn nlists(self) -> int {
        self.symbols * mach_o::NLIST_SIZE
    }

    /// The zero bytes behind the string literals.
    pub open spec fn padding(self) -> int {
        self.text_end - (TEXT_OFFSET + cut(self.code as int)) - self.literals
    }

    /// Whether no number is too large for its field, and the string literals fit before the end of
    /// the text segment.
    pub open spec fn fit(self) -> bool {
        &&& TEXT_OFFSET + cut(self.code as int) < WORD_RANGE
        &&& self.padding() >= 0
        &&& self.text_end <= usize::MAX
        &&& BASE_ADDRESS + self.text_end + PAGE_ALIGN <= u64::MAX
        &&& BASE_ADDRESS + self.code <= u64::MAX
        &&& CODESIGN_SIZE + self.nlists() + self.names <= usize::MAX
        &&& cut(self.text_end as int) + cut(self.nlists()) < WORD_RANGE
        &&& cut(self.text_end as int) + cut(self.nlists() + self.names) < WORD_RANGE
    }
}

/// The header and all commands.
#[verifier::opaque]
pub open spec fn head(sizes: Sizes, entry: u64) -> Seq<u8> {
    let data_address = (BASE_ADDRESS + sizes.text_end) as u64;
    Header {
        magic: mach_o::MAGIC_64,
        cpu_type: mach_o::CPU_TYPE_ARM64,
        cpu_subtype: mach_o::CPU_SUBTYPE_ARM,
        file_type: mach_o::FILE_TYPE_EXECUTE,
        load_cmd_count: 9,
        load_cmd_size: 704,
        flags: 0x20_0004,
    }.bytes() + SegmentCommand {
        command_size: 72,
        segment_name: "__PAGEZERO",
        vmaddr: 0,
        vmsize: BASE_ADDRESS,
        file_offset: 0,
        file_size: 0,
        prot: mach_o::PROTECT_NONE,
        section_count: 0,
    }.bytes() + SegmentCommand {
        command_size: 232,
        segment_name: "__TEXT",
        vmaddr: BASE_ADDRESS,
        vmsize: sizes.text_end,
        file_offset: 0,
        file_size: sizes.text_end,
        prot: mach_o::PROTECT_READ_EXECUTE,
        section_count: 2,
    }.bytes() + SectionHeader {
        section_name: "__text",
        segment_name: "__TEXT",
        addr: BASE_ADDRESS,
        size: sizes.code,
        offset: TEXT_OFFSET as u32,
        align: 2,
        flags: mach_o::SECTION_REGULAR,
    }.bytes() + SectionHeader {
        section_name: "__cstring",
        segment_name: "__TEXT",
        addr: (BASE_ADDRESS + sizes.code) as u64,
        size: sizes.literals as u64,
        offset: (TEXT_OFFSET + cut(sizes.code as int)) as u32,
        align: 1,
        flags: mach_o::SECTION_CSTRING_LITERALS,
    }.bytes() + SegmentCommand {
        command_size: 152,
        segment_name: "__DATA",
        vmaddr: data_address,
        vmsize: PAGE_ALIGN,
        file_offset: 0,
        file_size: 0,
        prot: mach_o::PROTECT_READ_WRITE,
        section_count: 1,
    }.bytes() + SectionHeader {
        section_name: "__bss",
        segment_name: "__DATA",
        addr: data_address,
        size: 64,
        offset: 0,
        align: 3,
        flags: mach_o::SECTION_ZERO_FILL,
    }.bytes() + EntryPointCommand { main_offset: (entry + TEXT_OFFSET) as u64 }.bytes()
        + DyLinkerCommand { command_size: DYLINKER_COMMAND_SIZE, path: "/usr/lib/dyld" }.bytes()
        + SegmentCommand {
        command_size: 72,
        segment_name: "__LINKEDIT",
        vmaddr: (data_address + PAGE_ALIGN) as u64,
        vmsize: PAGE_ALIGN,
        file_offset: sizes.text_end,
        file_size: (CODESIGN_SIZE + sizes.nlists() + sizes.names) as u64,
        prot: mach_o::PROTECT_NONE,
        section_count: 0,
    }.bytes() + LinkEditDataCommand {
        data_offset: (cut(sizes.text_end as int) + cut(sizes.nlists() + sizes.names)) as u32,
        data_size: CODESIGN_SIZE as u32,
    }.bytes() + mach_o::empty_dysymtab() + SymTabCommand {
        symoff: cut(sizes.text_end as int) as u32,
        nsyms: cut(sizes.symbols as int) as u32,
        stroff: (cut(sizes.text_end as int) + cut(sizes.nlists())) as u32,
        strsize: cut(sizes.names as int) as u32,
    }.bytes()
}

pub open spec fn symbol_names(symbols: Seq<(Seq<char>, u64)>) -> Seq<Seq<char>> {
    symbols.map_values(|s: (Seq<char>, u64)| s.0)
}

/// The number of bytes of the names of symbols, with the zero byte before them.
pub open spec fn names_len(symbols: Seq<(Seq<char>, u64)>, n: int) -> int {
    1 + bytes::cstrings_len(symbol_names(symbols), n)
}

/// The symbols from `i` on, behind the bytes that are there.
pub open spec fn nlist_bytes(symbols: Seq<(Seq<char>, u64)>, i: int, done: Seq<u8>) -> Seq<u8>
    decreases symbols.len() - i,
{
    if i >= symbols.len() {
        done
    } else {
        nlist_bytes(
            symbols,
            i + 1,
            done + NList {
                str_table_idx: cut(names_len(symbols, i)) as u32,
                n_value: (BASE_ADDRESS + symbols[i].1) as u64,
            }.bytes(),
        )
    }
}

/// A signature with nothing in it, to be replaced.
pub open spec fn empty_codesign() -> Seq<u8> {
    mach_o::word(mach_o::CSMAGIC_EMBEDDED_SIGNATURE as int) + mach_o::word(12) + bytes::zeros(8)
}

/// Whether all texts can be told from what lies behind them.
pub open spec fn none_has_zero(strings: Seq<Seq<char>>) -> bool {
    forall|i: int| 0 <= i < strings.len() ==> !bytes::has_zero(#[trigger] strings[i])
}

/// Whether all symbols have an address.
pub open spec fn symbols_fit(symbols: Seq<(Seq<char>, u64)>) -> bool {
    forall|i: int| 0 <= i < symbols.len() ==> BASE_ADDRESS + (#[trigger] symbols[i]).1 <= u64::MAX
}

/// The sizes of the parts of the file for some code.
pub open spec fn sizes_of(code_size: int, literals: int, code: CodeV) -> Sizes {
    Sizes {
        code: code_size as u64,
        literals: literals as usize,
        text_end: aligned(TEXT_OFFSET + code_size, PAGE_ALIGN as int) as u64,
        symbols: code.symbols.len() as usize,
        names: names_len(code.symbols, code.symbols.len() as int) as usize,
    }
}

/// The file for some code, before it is signed. `None` if the code and its string literals reach
/// beyond the text segment, a text has a zero byte in it, or a number is too large.
pub open spec fn file(code_size: int, literals: int, code: CodeV) -> Option<Seq<u8>> {
    let sizes = sizes_of(code_size, literals, code);
    if !(names_len(code.symbols, code.symbols.len() as int) <= usize::MAX) || !sizes.fit()
        || !none_has_zero(symbol_names(code.symbols)) || !none_has_zero(code.str_literals)
        || !symbols_fit(code.symbols) || BASE_ADDRESS + TEXT_OFFSET + code.entry_point_offset
        > u64::MAX {
        None
    } else {
        Some(
            nlist_bytes(
                code.symbols,
                0,
                bytes::cstrings(
                    code.str_literals,
                    0,
                    head(sizes, code.entry_point_offset) + code.instructions,
                ) + bytes::zeros(sizes.padding()),
            ) + bytes::cstrings(symbol_names(code.symbols), 0, seq![0u8]) + empty_codesign(),
        )
    }
}

/// The file for the code of an assembler, before it is signed. The string literals lie behind the
/// code, and the static memory behind the text segment.
pub open spec fn image_of<A: Assembler>(assembler: A) -> Option<Seq<u8>> {
    let size = assembler.code_len();
    let literals = bytes::cstrings_len(
        assembler.literals(),
        assembler.literals().len() as int,
    );
    let text_end = aligned(TEXT_OFFSET + size, PAGE_ALIGN as int);
    if literals > usize::MAX || TEXT_OFFSET + size > usize::MAX || text_end > u64::MAX {
        None
    } else {
        match assembler.linked((TEXT_OFFSET + size) as usize, text_end as u64) {
            Some(code) => file(size, literals, code),
            None => None,
        }
    }
}

impl Sizes {
    /// Whether no number is too large for its field, and the string literals fit before the end of
    /// the text segment.
    fn check_fit(&self) -> (r: bool)
        ensures
            r == self.fit(),
    {
        let range: u128 = 0x1_0000_0000;
        let text_end: u128 = self.text_end as u128;
        let nlists: u128 = self.symbols as u128 * 16;
        let names: u128 = self.names as u128;
        let code_cut: u128 = self.code as u128 % range;
        let end_cut: u128 = text_end % range;
        736 + code_cut < range && 736 + code_cut + self.literals as u128 <= text_end && text_end
            <= usize::MAX as u128 && 0x1_0000_0000 + text_end + 0x4000 <= u64::MAX as u128
            && 0x1_0000_0000 + self.code as u128 <= u64::MAX as u128 && 16 + nlists + names
            <= usize::MAX as u128 && end_cut + nlists % range < range && end_cut + (nlists + names)
            % range < range
    }
}

/// The header and all commands.
fn write_head(sizes: &Sizes, entry: u64) -> (out: Vec<u8>)
    requires
        sizes.fit(),
        entry + TEXT_OFFSET <= u64::MAX,
    ensures
        out@ == head(*sizes, entry),
{
    proof {
        reveal(head);
    }
    let mut out: Vec<u8> = Vec::new();
    let nlists: u64 = sizes.symbols as u64 * 16;
    let names: u64 = sizes.names as u64;
    let data_address: u64 = BASE_ADDRESS + sizes.text_end;
    let end_cut: u64 = sizes.text_end % WORD_RANGE;
    let header = Header {
        magic: mach_o::MAGIC_64,
        cpu_type: mach_o::CPU_TYPE_ARM64,
        cpu_subtype: mach_o::CPU_SUBTYPE_ARM,
        file_type: mach_o::FILE_TYPE_EXECUTE,
        load_cmd_count: 9,
        load_cmd_size: 704,
        flags: 0x20_0004,
    };
    header.write(&mut out);
    proof {
        assert(out@ =~= header.bytes());
    }
    SegmentCommand {
        command_size: 72,
        segment_name: "__PAGEZERO",
        vmaddr: 0,
        vmsize: BASE_ADDRESS,
        file_offset: 0,
        file_size: 0,
        prot: mach_o::PROTECT_NONE,
        section_count: 0,
    }.write(&mut out);
    SegmentCommand {
        command_size: 232,
        segment_name: "__TEXT",
        vmaddr: BASE_ADDRESS,
        vmsize: sizes.text_end,
        file_offset: 0,
        file_size: sizes.text_end,
        prot: mach_o::PROTECT_READ_EXECUTE,
        section_count: 2,
    }.write(&mut out);
    SectionHeader {
        section_name: "__text",
        segment_name: "__TEXT",
        addr: BASE_ADDRESS,
        size: sizes.code,
        offset: TEXT_OFFSET as u32,
        align: 2,
        flags: mach_o::SECTION_REGULAR,
    }.write(&mut out);
    SectionHeader {
        section_name: "__cstring",
        segment_name: "__TEXT",
        addr: BASE_ADDRESS + sizes.code,
        size: sizes.literals as u64,
        offset: (TEXT_OFFSET + sizes.code % WORD_RANGE) as u32,
        align: 1,
        flags: mach_o::SECTION_CSTRING_LITERALS,
    }.write(&mut out);
    SegmentCommand {
        command_size: 152,
        segment_name: "__DATA",
        vmaddr: data_address,
        vmsize: PAGE_ALIGN,
        file_offset: 0,
        file_size: 0,
        prot: mach_o::PROTECT_READ_WRITE,
        section_count: 1,
    }.write(&mut out);
    SectionHeader {
        section_name: "__bss",
        segment_name: "__DATA",
        addr: data_address,
        size: 64,
        offset: 0,
        align: 3,
        flags: mach_o::SECTION_ZERO_FILL,
    }.write(&mut out);
    EntryPointCommand { main_offset: entry + TEXT_OFFSET }.write(&mut out);
    DyLinkerCommand { command_size: DYLINKER_COMMAND_SIZE, path: "/usr/lib/dyld" }.write(&mut out);
    SegmentCommand {
        command_size: 72,
        segment_name: "__LINKEDIT",
        vmaddr: data_address + PAGE_ALIGN,
        vmsize: PAGE_ALIGN,
        file_offset: sizes.text_end,
        file_size: CODESIGN_SIZE as u64 + nlists + names,
        prot: mach_o::PROTECT_NONE,
        section_count: 0,
    }.write(&mut out);
    LinkEditDataCommand {
        data_offset: (end_cut + (nlists + names) % WORD_RANGE) as u32,
        data_size: CODESIGN_SIZE as u32,
    }.write(&mut out);
    mach_o::write_empty_dysymtab(&mut out);
    SymTabCommand {
        symoff: end_cut as u32,
        nsyms: (sizes.symbols as u64 % WORD_RANGE) as u32,
        stroff: (end_cut + nlists % WORD_RANGE) as u32,
        strsize: (names % WORD_RANGE) as u32,
    }.write(&mut out);
    out
}

fn write_codesign(out: &mut Vec<u8>)
    ensures
        final(out)@ == old(out)@ + empty_codesign(),
{
    let ghost before = out@;
    bytes::push_le(out, mach_o::CSMAGIC_EMBEDDED_SIGNATURE as u64, 4);
    bytes::push_le(out, 12, 4);
    bytes::push_zeros(out, 8);
    proof {
        assert(out@ =~= before + empty_codesign());
    }
}

fn write_cstrings(out: &mut Vec<u8>, strings: &Vec<String>)
    ensures
        final(out)@ == bytes::cstrings(text::all_chars(strings@), 0, old(out)@),
{
    let ghost before = out@;
    let ghost texts = text::all_chars(strings@);
    let mut i: usize = 0;
    while i < strings.len()
        invariant
            i <= strings.len(),
            texts == text::all_chars(strings@),
            bytes::cstrings(texts, 0, before) == bytes::cstrings(texts, i as int, out@),
        decreases strings.len() - i,
    {
        proof {
            assert(texts[i as int] == strings@[i as int]@);
        }
        bytes::push_cstring(out, strings[i].as_str());
        i = i + 1;
    }
}

/// Writes the names of the symbols.
fn write_names(symbols: &Vec<(String, u64)>) -> (out: Vec<u8>)
    ensures
        out@ == bytes::cstrings(symbol_names(arch::symbol_views(symbols@)), 0, seq![0u8]),
{
    let ghost names = symbol_names(arch::symbol_views(symbols@));
    let mut out: Vec<u8> = Vec::new();
    // The first byte of a string table is zero, so that a symbol can have an empty name.
    out.push(0);
    let mut i: usize = 0;
    proof {
        assert(out@ =~= seq![0u8]);
    }
    while i < symbols.len()
        invariant
            i <= symbols.len(),
            names == symbol_names(arch::symbol_views(symbols@)),
            bytes::cstrings(names, 0, seq![0u8]) == bytes::cstrings(names, i as int, out@),
        decreases symbols.len() - i,
    {
        proof {
            assert(names[i as int] == symbols@[i as int].0@);
        }
        bytes::push_cstring(&mut out, symbols[i].0.as_str());
        i = i + 1;
    }
    out
}

/// Writes the symbols.
fn write_nlists(out: &mut Vec<u8>, symbols: &Vec<(String, u64)>)
    requires
        names_len(arch::symbol_views(symbols@), symbols@.len() as int) <= usize::MAX,
        symbols_fit(arch::symbol_views(symbols@)),
    ensures
        final(out)@ == nlist_bytes(arch::symbol_views(symbols@), 0, old(out)@),
{
    let ghost before = out@;
    let ghost views = arch::symbol_views(symbols@);
    let ghost names = symbol_names(views);
    let mut at: u64 = 1;
    let mut i: usize = 0;
    while i < symbols.len()
        invariant
            i <= symbols.len(),
            views == arch::symbol_views(symbols@),
            names == symbol_names(views),
            symbols_fit(views),
            names_len(views, symbols@.len() as int) <= usize::MAX,
            at == names_len(views, i as int),
            nlist_bytes(views, 0, before) == nlist_bytes(views, i as int, out@),
        decreases symbols.len() - i,
    {
        proof {
            assert(views[i as int] == (symbols@[i as int].0@, symbols@[i as int].1));
            assert(names[i as int] == symbols@[i as int].0@);
            bytes::lemma_cstrings_grow(names, i + 1, names.len() as int);
        }
        NList {
            str_table_idx: (at % WORD_RANGE) as u32,
            n_value: BASE_ADDRESS + symbols[i].1,
        }.write(out);
        at = at + symbols[i].0.as_str().as_bytes().len() as u64 + 1;
        i = i + 1;
    }
}

/// The number of bytes of texts, each with a zero byte behind it.
fn count_cstrings(strings: &[String]) -> (r: Option<usize>)
    ensures
        ({
            let texts = text::all_chars(strings@);
            let len = bytes::cstrings_len(texts, texts.len() as int);
            match r {
                Some(n) => n == len,
                None => len > usize::MAX,
            }
        }),
{
    let ghost texts = text::all_chars(strings@);
    let mut total: usize = 0;
    let mut i: usize = 0;
    while i < strings.len()
        invariant
            i <= strings@.len(),
            texts == text::all_chars(strings@),
            total == bytes::cstrings_len(texts, i as int),
        decreases strings@.len() - i,
    {
        proof {
            assert(texts[i as int] == strings@[i as int]@);
            bytes::lemma_cstrings_grow(texts, i + 1, texts.len() as int);
        }
        let len = strings[i].as_str().as_bytes().len();
        let with_text = match total.checked_add(len) {
            Some(n) => n,
            None => {
                return None;
            },
        };
        total = match with_text.checked_add(1) {
            Some(n) => n,
            None => {
                return None;
            },
        };
        i = i + 1;
    }
    Some(total)
}

/// The number of bytes of the names of the symbols, with the zero byte before them.
fn count_names(symbols: &Vec<(String, u64)>) -> (r: Option<usize>)
    ensures
        ({
            let views = arch::symbol_views(symbols@);
            let len = names_len(views, views.len() as int);
            match r {
                Some(n) => n == len,
                None => len > usize::MAX,
            }
        }),
{
    let ghost views = arch::symbol_views(symbols@);
    let ghost names = symbol_names(views);
    let mut total: usize = 1;
    let mut i: usize = 0;
    while i < symbols.len()
        invariant
            i <= symbols@.len(),
            views == arch::symbol_views(symbols@),
            names == symbol_names(views),
            total == names_len(views, i as int),
        decreases symbols@.len() - i,
    {
        proof {
            assert(views[i as int].0 == symbols@[i as int].0@);
            assert(names[i as int] == symbols@[i as int].0@);
            bytes::lemma_cstrings_grow(names, i + 1, names.len() as int);
        }
        let len = symbols[i].0.as_str().as_bytes().len();
        let with_text = match total.checked_add(len) {
            Some(n) => n,
            None => {
                return None;
            },
        };
        total = match with_text.checked_add(1) {
            Some(n) => n,
            None => {
                return None;
            },
        };
        i = i + 1;
    }
    Some(total)
}

fn check_literals(strings: &Vec<String>) -> (r: bool)
    ensures
        r == none_has_zero(text::all_chars(strings@)),
{
    let ghost texts = text::all_chars(strings@);
    let mut i: usize = 0;
    while i < strings.len()
        invariant
            i <= strings@.len(),
            texts == text::all_chars(strings@),
            forall|k: int| 0 <= k < i ==> !bytes::has_zero(#[trigger] texts[k]),
        decreases strings@.len() - i,
    {
        proof {
            assert(texts[i as int] == strings@[i as int]@);
        }
        if bytes::find_zero(strings[i].as_str()) {
            return false;
        }
        i = i + 1;
    }
    true
}

fn check_symbols(symbols: &Vec<(String, u64)>) -> (r: bool)
    ensures
        r == (none_has_zero(symbol_names(arch::symbol_views(symbols@))) && symbols_fit(
            arch::symbol_views(symbols@),
        )),
{
    let ghost views = arch::symbol_views(symbols@);
    let ghost names = symbol_names(views);
    let mut i: usize = 0;
    while i < symbols.len()
        invariant
            i <= symbols@.len(),
            views == arch::symbol_views(symbols@),
            names == symbol_names(views),
            forall|k: int| 0 <= k < i ==> !bytes::has_zero(#[trigger] names[k]),
            forall|k: int| 0 <= k < i ==> BASE_ADDRESS + (#[trigger] views[k]).1 <= u64::MAX,
        decreases symbols@.len() - i,
    {
        proof {
            assert(views[i as int] == (symbols@[i as int].0@, symbols@[i as int].1));
            assert(names[i as int] == symbols@[i as int].0@);
        }
        if bytes::find_zero(symbols[i].0.as_str()) || symbols[i].1 > u64::MAX - BASE_ADDRESS {
            return false;
        }
        i = i + 1;
    }
    true
}

/// The file for some code, before it is signed.
pub fn write_file(code_size: usize, literals: usize, code: MachineCode) -> (r: Option<Vec<u8>>)
    requires
        aligned(TEXT_OFFSET + code_size, PAGE_ALIGN as int) <= u64::MAX,
    ensures
        match file(code_size as int, literals as int, code@) {
            Some(image) => r is Some && (r->0)@ == image,
            None => r is None,
        },
{
    let MachineCode { instructions, entry_point_offset, symbols, str_literals } = code;
    let names = match count_names(&symbols) {
        Some(names) => names,
        None => {
            return None;
        },
    };
    proof {
        law_aligned(TEXT_OFFSET + code_size, PAGE_ALIGN as int);
    }
    let sizes = Sizes {
        code: code_size as u64,
        literals,
        text_end: page_align(TEXT_OFFSET + code_size as u64),
        symbols: symbols.len(),
        names,
    };
    proof {
        assert(sizes == sizes_of(code_size as int, literals as int, code@));
    }
    if !sizes.check_fit() || !check_symbols(&symbols) || !check_literals(&str_literals)
        || entry_point_offset > u64::MAX - TEXT_OFFSET - BASE_ADDRESS {
        return None;
    }
    let mut out = write_head(&sizes, entry_point_offset);
    bytes::push_bytes(&mut out, instructions.as_slice());
    write_cstrings(&mut out, &str_literals);
    let padding: u64 = sizes.text_end - (TEXT_OFFSET + sizes.code % WORD_RANGE) - literals as u64;
    bytes::push_zeros(&mut out, padding as usize);
    write_nlists(&mut out, &symbols);
    let name_bytes = write_names(&symbols);
    bytes::push_bytes(&mut out, name_bytes.as_slice());
    write_codesign(&mut out);
    Some(out)
}

/// The file for assembled code, before it is signed.
pub fn build_image<A: Assembler>(code: LinkableCode<A>) -> (r: Option<Vec<u8>>)
    ensures
        match image_of(code.assembler()) {
            Some(image) => r is Some && (r->0)@ == image,
            None => r is None,
        },
{
    let size = match code.try_size() {
        Some(size) => size,
        None => {
            return None;
        },
    };
    let literals = match count_cstrings(code.str_literals()) {
        Some(literals) => literals,
        None => {
            return None;
        },
    };
    if size > usize::MAX - 736 {
        return None;
    }
    let str_literal_offset: usize = 736 + size;
    proof {
        law_aligned(str_literal_offset as int, PAGE_ALIGN as int);
    }
    // The highest page begins here.
    if str_literal_offset as u64 > 0xffff_ffff_ffff_c000 {
        return None;
    }
    let bss_offset = page_align(str_literal_offset as u64);
    match code.try_link(str_literal_offset, bss_offset) {
        Some(code) => write_file(size, literals, code),
        None => None,
    }
}

/// The number of bytes that the signer reserves for the signature of a file that has `limit` bytes
/// before it: 32 for each page of 4096 bytes, and 5132 for the rest, rounded up to a multiple of 1024
/// that is higher.
pub open spec fn reserved(limit: int) -> int {
    let parts = (limit + 4095) / 4096 * 32 + 5132;
    parts + (1024 - parts % 1024)
}

/// Whether a signature can be put behind the `limit` bytes of a file whose last segment begins at
/// `start`. The signature begins at a multiple of 16; where it begins has to be a word, and so has
/// where it ends in the segment.
pub open spec fn has_room(limit: int, start: int) -> bool {
    &&& aligned(limit, 16) <= u32::MAX
    &&& aligned(limit, 16) - start + reserved(limit) <= u32::MAX
}

/// Whether some bytes are a file that can be signed: its parts have the sizes that its commands give,
/// and there is room for a signature in place of the empty one.
pub open spec fn is_signable(image: Seq<u8>) -> bool {
    exists|code: CodeV| #[trigger]
        is_file_of(image, code) && has_room(
            image.len() - CODESIGN_SIZE,
            aligned(TEXT_OFFSET + code.instructions.len(), PAGE_ALIGN as int),
        )
}

/// Whether some bytes are the file for some code.
pub open spec fn is_file_of(image: Seq<u8>, code: CodeV) -> bool {
    file(
        code.instructions.len() as int,
        bytes::cstrings_len(code.str_literals, code.str_literals.len() as int),
        code,
    ) == Some(image)
}

/// Whether an identifier is not much longer than what is reserved for it. A longer one is never signed:
/// of what is reserved for a signature, the digests of the pages leave less than 8192 bytes.
pub open spec fn is_short(identifier: Seq<char>) -> bool {
    vstd::utf8::encode_utf8(identifier).len() < 8192
}

/// What signing a file gives, if it succeeds.
pub uninterp spec fn signed_macho(image: Seq<u8>, identifier: Seq<char>) -> Option<Seq<u8>>;

/// Signs a file by [`MachOSigner::write_signed_binary`], with the default settings and the given
/// identifier.
///
/// The settings hold no key, so the signature is made of digests of the file alone: the result is
/// claimed to depend on the file and the identifier, and on nothing else. What it is, and when it
/// is there, is not said. Offsets and lengths in the signed file are words, with which the signer
/// computes unchecked; the file and the identifier are short enough for that.
#[verifier::external_body]
fn sign_macho(image: &Vec<u8>, identifier: &str) -> (r: Option<Vec<u8>>)
    requires
        is_signable(image@),
        is_short(identifier@),
    ensures
        signed_macho(image@, identifier@) == (match r {
            Some(signed) => Some(signed@),
            None => None,
        }),
{
    let signer = MachOSigner::new(image).ok()?;
    let mut settings = SigningSettings::default();
    settings.set_binary_identifier(SettingsScope::Main, identifier);
    let mut signed: Vec<u8> = Vec::new();
    signer.write_signed_binary(&settings, &mut signed).ok()?;
    Some(signed)
}

fn check_room(limit: u64, start: u64) -> (r: bool)
    ensures
        r == has_room(limit as int, start as int),
{
    proof {
        law_aligned(limit as int, 16);
    }
    if limit > 0xffff_fff0 {
        return false;
    }
    let begin: u64 = align(limit, 16);
    let parts: u64 = (limit + 4095) / 4096 * 32 + 5132;
    let reserved: u64 = parts + (1024 - parts % 1024);
    begin + reserved <= 0xffff_ffff || begin + reserved - 0xffff_ffff <= start
}

/// An executable file, before and after it is built.
pub struct AppleExecutable {
    binary_identifier: Option<String>,
    path: Option<String>,
}

pub open spec fn chars_of(s: Option<String>) -> Option<Seq<char>> {
    match s {
        Some(s) => Some(s@),
        None => None,
    }
}

/// The signed file for the code of an assembler. `None` if there is no such file, there is no
/// identifier, a signature would be too long, or signing fails.
pub open spec fn signed_image<A: Assembler>(
    assembler: A,
    identifier: Option<Seq<char>>,
) -> Option<Seq<u8>> {
    let text_end = aligned(TEXT_OFFSET + assembler.code_len(), PAGE_ALIGN as int);
    match (image_of(assembler), identifier) {
        (Some(image), Some(identifier)) => if has_room(image.len() - CODESIGN_SIZE, text_end)
            && is_short(identifier) {
            signed_macho(image, identifier)
        } else {
            None
        },
        _ => None,
    }
}

impl AppleExecutable {
    /// The identifier that goes into the signature.
    pub closed spec fn identifier(self) -> Option<Seq<char>> {
        chars_of(self.binary_identifier)
    }

    /// Where the file was built.
    pub closed spec fn built_path(self) -> Option<Seq<char>> {
        chars_of(self.path)
    }

    /// The identifier begins with `com.`, as is usual.
    pub fn with_binary_identifier(self, ident: &str) -> (r: AppleExecutable)
        ensures
            r.identifier() == Some("com."@ + ident@),
            r.built_path() == self.built_path(),
    {
        AppleExecutable { binary_identifier: Some(text::join2("com.", ident)), path: self.path }
    }

    /// The bytes of the executable file for some code.
    pub fn build<A: Assembler>(&self, code: LinkableCode<A>) -> (r: Option<Vec<u8>>)
        ensures
            match signed_image(code.assembler(), self.identifier()) {
                Some(signed) => r is Some && (r->0)@ == signed,
                None => r is None,
            },
    {
        let ghost assembler = code.assembler();
        let size = match code.try_size() {
            Some(size) => size,
            None => {
                return None;
            },
        };
        let image = match build_image(code) {
            Some(image) => image,
            None => {
                return None;
            },
        };
        match &self.binary_identifier {
            None => None,
            Some(identifier) => {
                proof {
                    let text_end = aligned(TEXT_OFFSET + size, PAGE_ALIGN as int);
                    let offset = (TEXT_OFFSET + size) as usize;
                    assembler.law_linked(offset, text_end as u64);
                    mach_o::lemma_number_len();
                    assert(empty_codesign().len() == CODESIGN_SIZE);
                    assert(is_file_of(image@, assembler.linked(offset, text_end as u64)->0));
                    law_aligned(TEXT_OFFSET + size, PAGE_ALIGN as int);
                }
                let text_end = page_align(TEXT_OFFSET + size as u64);
                if !check_room(image.len() as u64 - CODESIGN_SIZE as u64, text_end)
                    || identifier.as_str().as_bytes().len() >= 8192 {
                    return None;
                }
                sign_macho(&image, identifier.as_str())
            },
        }
    }

    /// Notes where the file was built.
    pub fn set_path(&mut self, path: String)
        ensures
            final(self).built_path() == Some(path@),
            final(self).identifier() == old(self).identifier(),
    {
        self.path = Some(path);
    }

    /// The file to run. There is none before it is built.
    pub fn run_path(&self) -> (r: Result<&String, ExecutableError>)
        ensures
            match self.built_path() {
                Some(path) => r matches Ok(p) && p@ == path,
                None => r == Err::<&String, ExecutableError>(ExecutableError::NoBuildPath),
            },
    {
        match &self.path {
            Some(path) => Ok(path),
            None => Err(ExecutableError::NoBuildPath),
        }
    }
}

impl Default for AppleExecutable {
    fn default() -> (r: AppleExecutable)
        ensures
            r.identifier() is None,
            r.built_path() is None,
    {
        AppleExecutable { binary_identifier: None, path: None }
    }
}

pub(crate) proof fn lemma_ascii_name(name: &str)
    requires
        vstd::utf8::is_ascii_chars(name@),
    ensures
        vstd::utf8::encode_utf8(name@).len() == name@.len(),
        name@.len() <= 16 ==> mach_o::name_field(name@).len() == 16,
{
    vstd::utf8::is_ascii_chars_encode_utf8(name@);
}

/// The header and all commands end where the code begins.
pub proof fn law_head_len(sizes: Sizes, entry: u64)
    ensures
        head(sizes, entry).len() == TEXT_OFFSET,
{
    reveal(head);
    reveal_strlit("__PAGEZERO");
    reveal_strlit("__TEXT");
    reveal_strlit("__text");
    reveal_strlit("__cstring");
    reveal_strlit("__DATA");
    reveal_strlit("__bss");
    reveal_strlit("__LINKEDIT");
    reveal_strlit("/usr/lib/dyld");
    lemma_ascii_name("__PAGEZERO");
    lemma_ascii_name("__TEXT");
    lemma_ascii_name("__text");
    lemma_ascii_name("__cstring");
    lemma_ascii_name("__DATA");
    lemma_ascii_name("__bss");
    lemma_ascii_name("__LINKEDIT");
    lemma_ascii_name("/usr/lib/dyld");
    mach_o::lemma_number_len();
}

pub(crate) proof fn lemma_nlists(symbols: Seq<(Seq<char>, u64)>, i: int, done: Seq<u8>)
    requires
        0 <= i <= symbols.len(),
    ensures
        nlist_bytes(symbols, i, done).len() == done.len() + 16 * (symbols.len() - i),
        nlist_bytes(symbols, i, done).take(done.len() as int) == done,
    decreases symbols.len() - i,
{
    if i < symbols.len() {
        mach_o::lemma_number_len();
        let entry = NList {
            str_table_idx: cut(names_len(symbols, i)) as u32,
            n_value: (BASE_ADDRESS + symbols[i].1) as u64,
        }.bytes();
        assert(entry.len() == 16);
        let more = done + entry;
        lemma_nlists(symbols, i + 1, more);
        let all = nlist_bytes(symbols, i + 1, more);
        assert(all.take(done.len() as int) =~= all.take(more.len() as int).take(done.len() as int));
        assert(more.take(done.len() as int) =~= done);
    } else {
        assert(done.take(done.len() as int) =~= done);
    }
}

/// A file whose code and string literals are no longer than a word can count holds the code where the
/// commands say and the string literals behind it, and is as long as all its parts.
pub proof fn law_file_layout(image: Seq<u8>, code: CodeV)
    requires
        is_file_of(image, code),
        code.instructions.len() < WORD_RANGE,
        bytes::cstrings_len(code.str_literals, code.str_literals.len() as int) < WORD_RANGE,
    ensures
        ({
            let n = code.instructions.len() as int;
            let count = code.str_literals.len() as int;
            let literals = bytes::cstrings_len(code.str_literals, count);
            let sizes = sizes_of(n, literals, code);
            &&& image.len() == sizes.text_end + sizes.nlists() + sizes.names + CODESIGN_SIZE
            &&& TEXT_OFFSET + n + literals <= sizes.text_end
            &&& image.subrange(TEXT_OFFSET as int, TEXT_OFFSET + n) == code.instructions
            &&& image.subrange(TEXT_OFFSET + n, TEXT_OFFSET + n + literals) == bytes::cstrings(
                code.str_literals,
                0,
                Seq::empty(),
            )
        }),
{
    let n = code.instructions.len() as int;
    let count = code.str_literals.len() as int;
    let literals = bytes::cstrings_len(code.str_literals, count);
    bytes::lemma_cstrings_grow(code.str_literals, 0, count);
    let sizes = sizes_of(n, literals, code);
    law_aligned(TEXT_OFFSET + n, PAGE_ALIGN as int);
    let top = head(sizes, code.entry_point_offset);
    law_head_len(sizes, code.entry_point_offset);
    let texts = bytes::cstrings(code.str_literals, 0, Seq::empty());
    bytes::law_cstrings_behind(code.str_literals, 0, top + code.instructions);
    bytes::law_cstrings_len(code.str_literals, 0, Seq::empty());
    let before = bytes::cstrings(code.str_literals, 0, top + code.instructions) + bytes::zeros(
        sizes.padding(),
    );
    lemma_nlists(code.symbols, 0, before);
    let names = symbol_names(code.symbols);
    bytes::law_cstrings_len(names, 0, seq![0u8]);
    mach_o::lemma_number_len();
    let with_symbols = nlist_bytes(code.symbols, 0, before);
    bytes::lemma_cstrings_count(names, names.len() as int);
    assert(sizes.symbols == code.symbols.len());
    assert(before.len() == sizes.text_end);
    assert(with_symbols.len() >= before.len());
    assert(before.subrange(TEXT_OFFSET as int, TEXT_OFFSET + n) =~= code.instructions);
    assert(before.subrange(TEXT_OFFSET + n, TEXT_OFFSET + n + literals) =~= texts);
    assert(image.subrange(TEXT_OFFSET as int, TEXT_OFFSET + n) =~= with_symbols.take(
        before.len() as int,
    ).subrange(TEXT_OFFSET as int, TEXT_OFFSET + n));
    assert(image.subrange(TEXT_OFFSET + n, TEXT_OFFSET + n + literals) =~= with_symbols.take(
        before.len() as int,
    ).subrange(TEXT_OFFSET + n, TEXT_OFFSET + n + literals));
}

/// In the file for the code of an assembler, each string literal lies behind the code and the string
/// literals before it. The code is linked for just that place.
pub proof fn law_literal_in_file<A: Assembler>(assembler: A, image: Seq<u8>, k: int)
    requires
        image_of(assembler) == Some(image),
        0 <= assembler.code_len() < WORD_RANGE,
        bytes::cstrings_len(assembler.literals(), assembler.literals().len() as int) < WORD_RANGE,
        0 <= k < assembler.literals().len(),
    ensures
        ({
            let size = assembler.code_len();
            let text = bytes::cstring(assembler.literals()[k]);
            let at = TEXT_OFFSET + size + bytes::cstrings_len(assembler.literals(), k);
            &&& assembler.linked(
                (TEXT_OFFSET + size) as usize,
                aligned(TEXT_OFFSET + size, PAGE_ALIGN as int) as u64,
            ) is Some
            &&& 0 <= at
            &&& at + text.len() <= image.len()
            &&& image.subrange(at, at + text.len()) == text
        }),
{
    let size = assembler.code_len();
    let literals = assembler.literals();
    let text_end = aligned(TEXT_OFFSET + size, PAGE_ALIGN as int);
    let offset = (TEXT_OFFSET + size) as usize;
    assembler.law_linked(offset, text_end as u64);
    let code = assembler.linked(offset, text_end as u64)->0;
    assert(is_file_of(image, code));
    law_file_layout(image, code);
    bytes::law_cstring_at(literals, k);
    let all = bytes::cstrings(literals, 0, Seq::empty());
    bytes::law_cstrings_len(literals, 0, Seq::empty());
    let count = literals.len() as int;
    let at = bytes::cstrings_len(literals, k);
    let len = bytes::cstring(literals[k]).len();
    let first = TEXT_OFFSET + size;
    assert(image.subrange(first + at, first + at + len) =~= image.subrange(
        first,
        first + bytes::cstrings_len(literals, count),
    ).subrange(at, at + len));
}

} // verus!
