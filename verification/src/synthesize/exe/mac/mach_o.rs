//! The parts of a Mach-O file. All numbers lie in the file with their lowest byte first.

use vstd::prelude::*;

use crate::synthesize::bytes;

verus! {

/// The magic number of a file for 64-bit machines.
pub const MAGIC_64: u32 = 0xfeed_facf;

pub const CPU_TYPE_ARM64: u32 = 0x0100_000c;

pub const CPU_SUBTYPE_ARM: u32 = 0;

/// The file is an executable.
pub const FILE_TYPE_EXECUTE: u32 = 2;

/// The file is made for the dynamic linker.
pub const FLAG_DYLD_LINK: u32 = 0x4;

/// The program can lie at any address.
pub const FLAG_PIE: u32 = 0x20_0000;

pub const LC_SYMTAB: u32 = 0x2;

pub const LC_DYSYMTAB: u32 = 0xb;

pub const LC_LOAD_DYLINKER: u32 = 0xe;

pub const LC_SEGMENT: u32 = 0x19;

pub const LC_CODE_SIGNATURE: u32 = 0x1d;

pub const LC_MAIN: u32 = 0x8000_0028;

pub const PROTECT_NONE: u32 = 0;

pub const PROTECT_READ_WRITE: u32 = 3;

pub const PROTECT_READ_EXECUTE: u32 = 5;

pub const SECTION_REGULAR: u32 = 0;

pub const SECTION_ZERO_FILL: u32 = 1;

pub const SECTION_CSTRING_LITERALS: u32 = 2;

/// The symbol is defined in a section.
pub const NLIST_SECT: u8 = 0xe;

pub const CSMAGIC_EMBEDDED_SIGNATURE: u32 = 0xfade_0cc0;

/// The number of bytes of a [`Header`].
pub const HEADER_SIZE: usize = 32;

/// The number of bytes of a [`SegmentCommand`].
pub const SEGMENT_SIZE: usize = 72;

/// The number of bytes of a [`SectionHeader`].
pub const SECTION_SIZE: usize = 80;

/// The number of bytes of an [`EntryPointCommand`].
pub const ENTRY_POINT_SIZE: usize = 24;

/// The number of bytes of a [`DyLinkerCommand`] without its path.
pub const DYLINKER_SIZE: usize = 12;

/// The number of bytes of a [`LinkEditDataCommand`].
pub const LINKEDIT_DATA_SIZE: usize = 16;

/// The number of bytes of a command for a dynamic symbol table.
pub const DYSYMTAB_SIZE: usize = 80;

/// The number of bytes of a [`SymTabCommand`].
pub const SYMTAB_SIZE: usize = 24;

/// The number of bytes of an [`NList`].
pub const NLIST_SIZE: usize = 16;

/// A number of four bytes.
pub open spec fn word(n: int) -> Seq<u8> {
    bytes::le_bytes(n, 4)
}

/// A number of eight bytes.
pub open spec fn long(n: int) -> Seq<u8> {
    bytes::le_bytes(n, 8)
}

pub(crate) proof fn lemma_number_len()
    ensures
        forall|n: int| #[trigger] word(n).len() == 4,
        forall|n: int| #[trigger] long(n).len() == 8,
        forall|n: int| #[trigger] bytes::le_bytes(n, 1).len() == 1,
        forall|n: int| #[trigger] bytes::le_bytes(n, 2).len() == 2,
{
    reveal_with_fuel(bytes::le_bytes, 9);
}

/// A name in a field of 16 bytes.
pub open spec fn name_field(name: Seq<char>) -> Seq<u8> {
    let text = vstd::utf8::encode_utf8(name);
    text + bytes::zeros(16 - text.len())
}

fn push_name(out: &mut Vec<u8>, name: &str)
    ensures
        final(out)@ == old(out)@ + name_field(name@),
{
    let ghost before = out@;
    let text = name.as_bytes();
    bytes::push_bytes(out, text);
    let len: usize = text.len();
    let room: usize = if len < 16 {
        16 - len
    } else {
        0
    };
    bytes::push_zeros(out, room);
    proof {
        assert(bytes::zeros(room as int) =~= bytes::zeros(16 - len));
        assert(out@ =~= before + name_field(name@));
    }
}

/// The beginning of a file.
pub struct Header {
    pub magic: u32,
    pub cpu_type: u32,
    pub cpu_subtype: u32,
    pub file_type: u32,
    pub load_cmd_count: u32,
    pub load_cmd_size: u32,
    pub flags: u32,
}

impl Header {
    pub open spec fn bytes(self) -> Seq<u8> {
        word(self.magic as int) + word(self.cpu_type as int) + word(self.cpu_subtype as int) + word(
            self.file_type as int,
        ) + word(self.load_cmd_count as int) + word(self.load_cmd_size as int) + word(
            self.flags as int,
        ) + word(0)
    }

    pub fn write(&self, out: &mut Vec<u8>)
        ensures
            final(out)@ == old(out)@ + self.bytes(),
    {
        let ghost before = out@;
        bytes::push_le(out, self.magic as u64, 4);
        bytes::push_le(out, self.cpu_type as u64, 4);
        bytes::push_le(out, self.cpu_subtype as u64, 4);
        bytes::push_le(out, self.file_type as u64, 4);
        bytes::push_le(out, self.load_cmd_count as u64, 4);
        bytes::push_le(out, self.load_cmd_size as u64, 4);
        bytes::push_le(out, self.flags as u64, 4);
        bytes::push_le(out, 0, 4);
        proof {
            assert(out@ =~= before + self.bytes());
        }
    }
}

/// Maps a part of the file to a part of the memory.
pub struct SegmentCommand {
    pub command_size: u32,
    pub segment_name: &'static str,
    pub vmaddr: u64,
    pub vmsize: u64,
    pub file_offset: u64,
    pub file_size: u64,
    /// What may be done with the memory, at most and at first.
    pub prot: u32,
    pub section_count: u32,
}

impl SegmentCommand {
    pub open spec fn bytes(self) -> Seq<u8> {
        word(LC_SEGMENT as int) + word(self.command_size as int) + name_field(self.segment_name@)
            + long(self.vmaddr as int) + long(self.vmsize as int) + long(self.file_offset as int)
            + long(self.file_size as int) + word(self.prot as int) + word(self.prot as int) + word(
            self.section_count as int,
        ) + word(0)
    }

    pub fn write(&self, out: &mut Vec<u8>)
        ensures
            final(out)@ == old(out)@ + self.bytes(),
    {
        let ghost before = out@;
        bytes::push_le(out, LC_SEGMENT as u64, 4);
        bytes::push_le(out, self.command_size as u64, 4);
        push_name(out, self.segment_name);
        bytes::push_le(out, self.vmaddr, 8);
        bytes::push_le(out, self.vmsize, 8);
        bytes::push_le(out, self.file_offset, 8);
        bytes::push_le(out, self.file_size, 8);
        bytes::push_le(out, self.prot as u64, 4);
        bytes::push_le(out, self.prot as u64, 4);
        bytes::push_le(out, self.section_count as u64, 4);
        bytes::push_le(out, 0, 4);
        proof {
            assert(out@ =~= before + self.bytes());
        }
    }
}

/// Describes a part of a segment.
pub struct SectionHeader {
    pub section_name: &'static str,
    pub segment_name: &'static str,
    pub addr: u64,
    pub size: u64,
    pub offset: u32,
    pub align: u32,
    pub flags: u32,
}

impl SectionHeader {
    pub open spec fn bytes(self) -> Seq<u8> {
        name_field(self.section_name@) + name_field(self.segment_name@) + long(self.addr as int)
            + long(self.size as int) + word(self.offset as int) + word(self.align as int) + word(0)
            + word(0) + word(self.flags as int) + word(0) + word(0) + word(0)
    }

    pub fn write(&self, out: &mut Vec<u8>)
        ensures
            final(out)@ == old(out)@ + self.bytes(),
    {
        let ghost before = out@;
        push_name(out, self.section_name);
        push_name(out, self.segment_name);
        bytes::push_le(out, self.addr, 8);
        bytes::push_le(out, self.size, 8);
        bytes::push_le(out, self.offset as u64, 4);
        bytes::push_le(out, self.align as u64, 4);
        bytes::push_le(out, 0, 4);
        bytes::push_le(out, 0, 4);
        bytes::push_le(out, self.flags as u64, 4);
        bytes::push_le(out, 0, 4);
        bytes::push_le(out, 0, 4);
        bytes::push_le(out, 0, 4);
        proof {
            assert(out@ =~= before + self.bytes());
        }
    }
}

/// Says where the program begins.
pub struct EntryPointCommand {
    pub main_offset: u64,
}

impl EntryPointCommand {
    pub open spec fn bytes(self) -> Seq<u8> {
        word(LC_MAIN as int) + word(ENTRY_POINT_SIZE as int) + long(self.main_offset as int) + long(0)
    }

    pub fn write(&self, out: &mut Vec<u8>)
        ensures
            final(out)@ == old(out)@ + self.bytes(),
    {
        let ghost before = out@;
        bytes::push_le(out, LC_MAIN as u64, 4);
        bytes::push_le(out, ENTRY_POINT_SIZE as u64, 4);
        bytes::push_le(out, self.main_offset, 8);
        bytes::push_le(out, 0, 8);
        proof {
            assert(out@ =~= before + self.bytes());
        }
    }
}

/// Names the dynamic linker. The path lies behind the command, with zero bytes up to its end.
pub struct DyLinkerCommand {
    pub command_size: u32,
    pub path: &'static str,
}

impl DyLinkerCommand {
    pub open spec fn bytes(self) -> Seq<u8> {
        let path = vstd::utf8::encode_utf8(self.path@);
        word(LC_LOAD_DYLINKER as int) + word(self.command_size as int) + word(DYLINKER_SIZE as int)
            + path + bytes::zeros(self.command_size - DYLINKER_SIZE - path.len())
    }

    pub fn write(&self, out: &mut Vec<u8>)
        ensures
            final(out)@ == old(out)@ + self.bytes(),
    {
        let ghost before = out@;
        bytes::push_le(out, LC_LOAD_DYLINKER as u64, 4);
        bytes::push_le(out, self.command_size as u64, 4);
        bytes::push_le(out, DYLINKER_SIZE as u64, 4);
        let path = self.path.as_bytes();
        bytes::push_bytes(out, path);
        let size: u64 = self.command_size as u64;
        let len: u64 = path.len() as u64;
        let room: u64 = if size > 12 && size - 12 > len {
            size - 12 - len
        } else {
            0
        };
        bytes::push_zeros(out, room as usize);
        proof {
            assert(bytes::zeros(room as int) =~= bytes::zeros(
                self.command_size - DYLINKER_SIZE - len,
            ));
            assert(out@ =~= before + self.bytes());
        }
    }
}

/// Says where the code signature lies.
pub struct LinkEditDataCommand {
    pub data_offset: u32,
    pub data_size: u32,
}

impl LinkEditDataCommand {
    pub open spec fn bytes(self) -> Seq<u8> {
        word(LC_CODE_SIGNATURE as int) + word(LINKEDIT_DATA_SIZE as int) + word(
            self.data_offset as int,
        ) + word(self.data_size as int)
    }

    pub fn write(&self, out: &mut Vec<u8>)
        ensures
            final(out)@ == old(out)@ + self.bytes(),
    {
        let ghost before = out@;
        bytes::push_le(out, LC_CODE_SIGNATURE as u64, 4);
        bytes::push_le(out, LINKEDIT_DATA_SIZE as u64, 4);
        bytes::push_le(out, self.data_offset as u64, 4);
        bytes::push_le(out, self.data_size as u64, 4);
        proof {
            assert(out@ =~= before + self.bytes());
        }
    }
}

/// The command for a dynamic symbol table with nothing in it: all its 18 numbers are zero.
pub open spec fn empty_dysymtab() -> Seq<u8> {
    word(LC_DYSYMTAB as int) + word(DYSYMTAB_SIZE as int) + bytes::zeros(72)
}

pub fn write_empty_dysymtab(out: &mut Vec<u8>)
    ensures
        final(out)@ == old(out)@ + empty_dysymtab(),
{
    let ghost before = out@;
    bytes::push_le(out, LC_DYSYMTAB as u64, 4);
    bytes::push_le(out, DYSYMTAB_SIZE as u64, 4);
    bytes::push_zeros(out, 72);
    proof {
        assert(out@ =~= before + empty_dysymtab());
    }
}

/// Says where the symbols and their names lie.
pub struct SymTabCommand {
    pub symoff: u32,
    pub nsyms: u32,
    pub stroff: u32,
    pub strsize: u32,
}

impl SymTabCommand {
    pub open spec fn bytes(self) -> Seq<u8> {
        word(LC_SYMTAB as int) + word(SYMTAB_SIZE as int) + word(self.symoff as int) + word(
            self.nsyms as int,
        ) + word(self.stroff as int) + word(self.strsize as int)
    }

    pub fn write(&self, out: &mut Vec<u8>)
        ensures
            final(out)@ == old(out)@ + self.bytes(),
    {
        let ghost before = out@;
        bytes::push_le(out, LC_SYMTAB as u64, 4);
        bytes::push_le(out, SYMTAB_SIZE as u64, 4);
        bytes::push_le(out, self.symoff as u64, 4);
        bytes::push_le(out, self.nsyms as u64, 4);
        bytes::push_le(out, self.stroff as u64, 4);
        bytes::push_le(out, self.strsize as u64, 4);
        proof {
            assert(out@ =~= before + self.bytes());
        }
    }
}

/// A symbol of the first section.
pub struct NList {
    /// Where its name lies in the string table.
    pub str_table_idx: u32,
    pub n_value: u64,
}

impl NList {
    pub open spec fn bytes(self) -> Seq<u8> {
        word(self.str_table_idx as int) + bytes::le_bytes(NLIST_SECT as int, 1) + bytes::le_bytes(1, 1)
            + bytes::le_bytes(0, 2) + long(self.n_value as int)
    }

    pub fn write(&self, out: &mut Vec<u8>)
        ensures
            final(out)@ == old(out)@ + self.bytes(),
    {
        let ghost before = out@;
        bytes::push_le(out, self.str_table_idx as u64, 4);
        bytes::push_le(out, NLIST_SECT as u64, 1);
        bytes::push_le(out, 1, 1);
        bytes::push_le(out, 0, 2);
        bytes::push_le(out, self.n_value, 8);
        proof {
            assert(out@ =~= before + self.bytes());
        }
    }
}

} // verus!
