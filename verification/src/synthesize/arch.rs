//! Machine code, and what makes it.

pub mod arm;

use vstd::prelude::*;

use crate::ir::{IrV, IR};
use crate::text;

verus! {

/// Code that still needs the addresses of what it refers to.
pub struct LinkableCode<A>(A);

impl<A> LinkableCode<A> {
    /// What assembled the code.
    pub closed spec fn assembler(self) -> A {
        self.0
    }

    /// The code of an assembler that is done.
    pub(crate) fn of(assembler: A) -> (r: LinkableCode<A>)
        ensures
            r.assembler() == assembler,
    {
        LinkableCode(assembler)
    }
}

impl<A: Assembler> LinkableCode<A> {
    /// The number of bytes of the code.
    pub fn size(&self) -> (r: usize)
        requires
            self.assembler().code_len() <= usize::MAX,
        ensures
            r == self.assembler().code_len(),
    {
        self.0.code_size()
    }

    /// As [`LinkableCode::size`], with `None` if there are too many bytes to count.
    pub fn try_size(&self) -> (r: Option<usize>)
        ensures
            match r {
                Some(size) => size == self.assembler().code_len(),
                None => self.assembler().code_len() > usize::MAX,
            },
    {
        self.0.try_code_size()
    }

    pub fn str_literals(&self) -> (r: &[String])
        ensures
            text::all_chars(r@) == self.assembler().literals(),
    {
        self.0.str_literals()
    }

    /// The machine code for the given places of the string literals and the static memory.
    pub fn link(self, str_literal_offset: usize, bss_offset: u64) -> (r: MachineCode)
        requires
            self.assembler().linked(str_literal_offset, bss_offset) is Some,
        ensures
            self.assembler().linked(str_literal_offset, bss_offset) == Some(r@),
    {
        self.0.into_machine_code(str_literal_offset, bss_offset)
    }

    /// As [`LinkableCode::link`], with `None` if something has no address.
    pub fn try_link(self, str_literal_offset: usize, bss_offset: u64) -> (r: Option<MachineCode>)
        ensures
            match self.assembler().linked(str_literal_offset, bss_offset) {
                Some(code) => r is Some && (r->0)@ == code,
                None => r is None,
            },
    {
        self.0.try_into_machine_code(str_literal_offset, bss_offset)
    }
}

pub struct MachineCode {
    pub instructions: Vec<u8>,
    pub entry_point_offset: u64,
    pub symbols: Vec<(String, u64)>,
    pub str_literals: Vec<String>,
}

/// What [`MachineCode`] says.
#[verifier::ext_equal]
pub struct CodeV {
    pub instructions: Seq<u8>,
    pub entry_point_offset: u64,
    pub symbols: Seq<(Seq<char>, u64)>,
    pub str_literals: Seq<Seq<char>>,
}

pub open spec fn symbol_views(v: Seq<(String, u64)>) -> Seq<(Seq<char>, u64)> {
    v.map_values(|s: (String, u64)| (s.0@, s.1))
}

impl View for MachineCode {
    type V = CodeV;

    open spec fn view(&self) -> CodeV {
        CodeV {
            instructions: self.instructions@,
            entry_point_offset: self.entry_point_offset,
            symbols: symbol_views(self.symbols@),
            str_literals: text::all_chars(self.str_literals@),
        }
    }
}

impl CodeV {
    pub open spec fn nothing() -> CodeV {
        CodeV {
            instructions: Seq::empty(),
            entry_point_offset: 0,
            symbols: Seq::empty(),
            str_literals: Seq::empty(),
        }
    }
}

impl Default for MachineCode {
    fn default() -> (r: MachineCode)
        ensures
            r@ == CodeV::nothing(),
    {
        let r = MachineCode {
            instructions: Vec::new(),
            entry_point_offset: 0,
            symbols: Vec::new(),
            str_literals: Vec::new(),
        };
        proof {
            assert(r@ =~= CodeV::nothing());
        }
        r
    }
}

/// Makes machine code of one architecture.
pub trait Assembler: Sized {
    /// Whether a program can be assembled: its functions fit the machine, and there is a main
    /// function.
    spec fn can_assemble(ir: IrV, main_fn: Seq<char>) -> bool;

    /// Whether this holds the code of a program.
    spec fn holds(&self, ir: IrV, main_fn: Seq<char>) -> bool;

    /// The number of bytes of the code.
    spec fn code_len(&self) -> int;

    spec fn literals(&self) -> Seq<Seq<char>>;

    /// The machine code for the given places of the string literals and the static memory. `None` if
    /// something that the code refers to has no address.
    spec fn linked(&self, str_literal_offset: usize, bss_offset: u64) -> Option<CodeV>;

    /// Linking keeps the number of bytes and the string literals.
    proof fn law_linked(&self, str_literal_offset: usize, bss_offset: u64)
        ensures
            self.linked(str_literal_offset, bss_offset) matches Some(code)
                ==> code.instructions.len() == self.code_len() && code.str_literals
                == self.literals(),
    ;

    fn assemble(ir: IR, main_fn: &str) -> (r: LinkableCode<Self>)
        requires
            Self::can_assemble(ir@, main_fn@),
        ensures
            r.assembler().holds(ir@, main_fn@),
            r.assembler().code_len() <= usize::MAX,
    ;

    /// As [`Assembler::assemble`], with `None` if the program cannot be assembled.
    fn try_assemble(ir: IR, main_fn: &str) -> (r: Option<LinkableCode<Self>>)
        ensures
            r is Some == Self::can_assemble(ir@, main_fn@),
            r matches Some(code) ==> code.assembler().holds(ir@, main_fn@)
                && code.assembler().code_len() <= usize::MAX,
    ;

    fn code_size(&self) -> (r: usize)
        requires
            self.code_len() <= usize::MAX,
        ensures
            r == self.code_len(),
    ;

    /// As [`Assembler::code_size`], with `None` if there are too many bytes to count.
    fn try_code_size(&self) -> (r: Option<usize>)
        ensures
            match r {
                Some(size) => size == self.code_len(),
                None => self.code_len() > usize::MAX,
            },
    ;

    fn str_literals(&self) -> (r: &[String])
        ensures
            text::all_chars(r@) == self.literals(),
    ;

    fn into_machine_code(self, str_literal_offset: usize, bss_offset: u64) -> (r: MachineCode)
        requires
            self.linked(str_literal_offset, bss_offset) is Some,
        ensures
            self.linked(str_literal_offset, bss_offset) == Some(r@),
    ;

    /// As [`Assembler::into_machine_code`], with `None` if something has no address.
    fn try_into_machine_code(self, str_literal_offset: usize, bss_offset: u64) -> (r: Option<
        MachineCode,
    >)
        ensures
            match self.linked(str_literal_offset, bss_offset) {
                Some(code) => r is Some && (r->0)@ == code,
                None => r is None,
            },
    ;
}

} // verus!
