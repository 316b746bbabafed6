//! The ELF header as one record and the numbers that its fields hold.
use vstd::prelude::*;

verus! {

#[derive(Debug, Clone, Copy, PartialEq, Eq, Structural)]
pub enum ElfClass {
    Bit32,
    Bit64,
}

impl ElfClass {
    /// The number that stands for the class in the file: 1 or 2.
    pub fn code(&self) -> (r: u8)
        ensures
            r == match self {
                ElfClass::Bit32 => 1u8,
                ElfClass::Bit64 => 2u8,
            },
    {
        match self {
            ElfClass::Bit32 => 1,
            ElfClass::Bit64 => 2,
        }
    }
}

#[derive(Debug, Clone, Copy, PartialEq, Eq, Structural)]
pub enum Endianness {
    Little,
    Big,
}

impl Endianness {
    /// The number that stands for the byte order in the file: 1 or 2.
    pub fn code(&self) -> (r: u8)
        ensures
            r == match self {
                Endianness::Little => 1u8,
                Endianness::Big => 2u8,
            },
    {
        match self {
            Endianness::Little => 1,
            Endianness::Big => 2,
        }
    }
}

#[derive(Debug, Clone, Copy, PartialEq, Eq, Structural)]
pub enum ElfType {
    Relocatable,
    Executable,
    Shared,
    Core,
}

impl ElfType {
    /// The number that stands for the type in the file: 1 to 4.
    pub fn code(&self) -> (r: u16)
        ensures
            r == match self {
                ElfType::Relocatable => 1u16,
                ElfType::Executable => 2u16,
                ElfType::Shared => 3u16,
                ElfType::Core => 4u16,
            },
    {
        match self {
            ElfType::Relocatable => 1,
            ElfType::Executable => 2,
            ElfType::Shared => 3,
            ElfType::Core => 4,
        }
    }
}

#[derive(Debug, Clone, Copy, PartialEq, Eq, Structural)]
pub enum ElfInstructionSet {
    Unspecified,
    SPARC,
    X86,
    MIPS,
    PowerPC,
    ARM,
    SuperH,
    IA64,
    X86_64,
    AARCH64,
    RISCV,
}

impl ElfInstructionSet {
    /// The number that stands for the instruction set in the file.
    pub fn code(&self) -> (r: u16)
        ensures
            r == match self {
                ElfInstructionSet::Unspecified => 0x0u16,
                ElfInstructionSet::SPARC => 0x02u16,
                ElfInstructionSet::X86 => 0x03u16,
                ElfInstructionSet::MIPS => 0x08u16,
                ElfInstructionSet::PowerPC => 0x14u16,
                ElfInstructionSet::ARM => 0x28u16,
                ElfInstructionSet::SuperH => 0x2Au16,
                ElfInstructionSet::IA64 => 0x32u16,
                ElfInstructionSet::X86_64 => 0x3Eu16,
                ElfInstructionSet::AARCH64 => 0xB7u16,
                ElfInstructionSet::RISCV => 0xF3u16,
            },
    {
        match self {
            ElfInstructionSet::Unspecified => 0x0,
            ElfInstructionSet::SPARC => 0x02,
            ElfInstructionSet::X86 => 0x03,
            ElfInstructionSet::MIPS => 0x08,
            ElfInstructionSet::PowerPC => 0x14,
            ElfInstructionSet::ARM => 0x28,
            ElfInstructionSet::SuperH => 0x2A,
            ElfInstructionSet::IA64 => 0x32,
            ElfInstructionSet::X86_64 => 0x3E,
            ElfInstructionSet::AARCH64 => 0xB7,
            ElfInstructionSet::RISCV => 0xF3,
        }
    }
}

#[derive(Debug, Clone, Copy, PartialEq, Eq, Structural)]
pub enum ProgramHeaderSectionType {
    Null,
    Load,
    Dynamic,
    Interp,
    Note,
}

impl ProgramHeaderSectionType {
    /// The number that stands for the kind of segment in the file: 0 to 4.
    pub fn code(&self) -> (r: u32)
        ensures
            r == match self {
                ProgramHeaderSectionType::Null => 0u32,
                ProgramHeaderSectionType::Load => 1u32,
                ProgramHeaderSectionType::Dynamic => 2u32,
                ProgramHeaderSectionType::Interp => 3u32,
                ProgramHeaderSectionType::Note => 4u32,
            },
    {
        match self {
            ProgramHeaderSectionType::Null => 0,
            ProgramHeaderSectionType::Load => 1,
            ProgramHeaderSectionType::Dynamic => 2,
            ProgramHeaderSectionType::Interp => 3,
            ProgramHeaderSectionType::Note => 4,
        }
    }
}

/// The sixteen bytes that identify an ELF file.
#[derive(Debug, Clone, Copy)]
pub struct ElfIdentifier {
    pub magic: [u8; 4],
    pub class: u8,
    pub endianness: u8,
    pub header_version: u8,
    pub abi: u8,
    pub padding: [u8; 8],
}

impl ElfIdentifier {
    /// An identifier of zero bytes.
    pub fn new() -> (r: ElfIdentifier)
        ensures
            r.magic@ == seq![0u8, 0u8, 0u8, 0u8],
            r.class == 0,
            r.endianness == 0,
            r.header_version == 0,
            r.abi == 0,
            r.padding@ == seq![0u8, 0u8, 0u8, 0u8, 0u8, 0u8, 0u8, 0u8],
    {
        let magic: [u8; 4] = [0, 0, 0, 0];
        let padding: [u8; 8] = [0, 0, 0, 0, 0, 0, 0, 0];
        assert(magic@ =~= seq![0u8, 0u8, 0u8, 0u8]);
        assert(padding@ =~= seq![0u8, 0u8, 0u8, 0u8, 0u8, 0u8, 0u8, 0u8]);
        ElfIdentifier { magic, class: 0, endianness: 0, header_version: 0, abi: 0, padding }
    }
}

#[derive(Debug, Clone, Copy)]
pub struct ElfHeader {
    pub identifier: ElfIdentifier,
    pub elf_type: u16,
    pub instruction_set: u16,
    pub elf_version: u32,
    pub entry_offset: u64,
    pub program_header_table_offset: u64,
    pub section_header_table_offset: u64,
    pub flags: u32,
    pub header_size: u16,
    pub program_header_entry_size: u16,
    pub program_header_entry_count: u16,
    pub section_header_entry_size: u16,
    pub section_header_entry_count: u16,
    pub section_header_string_index: u16,
}

#[derive(Debug, Clone, Copy)]
pub struct ProgramHeader {
    pub segment_type: u32,
    pub flags: u32,
    pub data_offset: u64,
    pub virtual_address: u64,
    pub physical_address: u64,
    pub file_size: u64,
    pub mem_size: u64,
    pub alignment: u64,
}

} // verus!
