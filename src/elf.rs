use vstd::prelude::*;

verus! {

/// ELF class of 64-bit objects.
pub const ELF_CLASS_64: u8 = 2;

/// Program header type of a loadable segment.
pub const PT_LOAD: u32 = 1;

/// The header of an ELF64 file.
#[derive(Debug, Clone, Copy, PartialEq, Eq)]
pub struct Elf64Header {
    pub e_ident: [u8; 16],
    pub e_type: u16,
    pub e_machine: u16,
    pub e_version: u32,
    pub e_entry: u64,
    pub e_phoff: u64,
    pub e_shoff: u64,
    pub e_flags: u32,
    pub e_ehsize: u16,
    pub e_phentsize: u16,
    pub e_phnum: u16,
    pub e_shentsize: u16,
    pub e_shnum: u16,
    pub e_shstrndx: u16,
}

/// One program header of an ELF64 file.
#[derive(Debug, Clone, Copy, PartialEq, Eq)]
pub struct Elf64ProgramHeader {
    pub p_type: u32,
    pub p_flags: u32,
    pub p_offset: u64,
    pub p_vaddr: u64,
    pub p_paddr: u64,
    pub p_filesz: u64,
    pub p_memsz: u64,
    pub p_align: u64,
}

impl Elf64Header {
    /// The identification bytes start with `0x7F 'E' 'L' 'F'` and name the 64-bit class.
    pub open spec fn spec_is_valid(&self) -> bool {
        &&& self.e_ident@[0] == 0x7f
        &&& self.e_ident@[1] == 0x45
        &&& self.e_ident@[2] == 0x4c
        &&& self.e_ident@[3] == 0x46
        &&& self.e_ident@[4] == ELF_CLASS_64
    }

    pub fn is_valid(&self) -> (r: bool)
        ensures
            r == self.spec_is_valid(),
    {
        self.e_ident[0] == 0x7f && self.e_ident[1] == 0x45 && self.e_ident[2] == 0x4c && self.e_ident[3] == 0x46
            && self.e_ident[4] == ELF_CLASS_64
    }
}

impl Elf64ProgramHeader {
    /// Whether the segment is to be loaded.
    pub fn is_load(&self) -> (r: bool)
        ensures
            r == (self.p_type == PT_LOAD),
    {
        self.p_type == PT_LOAD
    }
}

} // verus!
