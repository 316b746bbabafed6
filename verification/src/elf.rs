//! The parts of the ELF64 format that the loader reads: the file header and
//! the program headers, decoded from little-endian bytes.
use vstd::prelude::*;

verus! {

/// The 16-bit number in the two bytes of `bytes` from `at` on, least
/// significant byte first.
pub open spec fn le_u16(bytes: Seq<u8>, at: int) -> int {
    bytes[at] + bytes[at + 1] * 0x100
}

/// The 32-bit number in the four bytes of `bytes` from `at` on, least
/// significant byte first.
pub open spec fn le_u32(bytes: Seq<u8>, at: int) -> int {
    le_u16(bytes, at) + le_u16(bytes, at + 2) * 0x1_0000
}

/// The 64-bit number in the eight bytes of `bytes` from `at` on, least
/// significant byte first.
pub open spec fn le_u64(bytes: Seq<u8>, at: int) -> int {
    le_u32(bytes, at) + le_u32(bytes, at + 4) * 0x1_0000_0000
}

/// The bytes of a 32-bit number are the bytes it was read from.
pub proof fn lemma_le_u32_bytes(bytes: Seq<u8>, at: int)
    requires
        0 <= at,
        at + 4 <= bytes.len(),
    ensures
        le_u32(bytes, at) % 0x100 == bytes[at],
        le_u32(bytes, at) / 0x100 % 0x100 == bytes[at + 1],
        le_u32(bytes, at) / 0x1_0000 % 0x100 == bytes[at + 2],
        le_u32(bytes, at) / 0x100_0000 == bytes[at + 3],
        0 <= le_u32(bytes, at) < 0x1_0000_0000,
{
    let b0 = bytes[at];
    let b1 = bytes[at + 1];
    let b2 = bytes[at + 2];
    let b3 = bytes[at + 3];
    let low = le_u32(bytes, at) as u64;
    assert(low % 0x100 == b0 && low / 0x100 % 0x100 == b1 && low / 0x1_0000 % 0x100 == b2 && low
        / 0x100_0000 == b3) by (bit_vector)
        requires
            low == b0 + b1 * 0x100 + (b2 + b3 * 0x100) * 0x1_0000,
    ;
}

/// The bytes of a 64-bit number are the bytes it was read from.
pub proof fn lemma_le_u64_bytes(bytes: Seq<u8>, at: int)
    requires
        0 <= at,
        at + 8 <= bytes.len(),
    ensures
        le_u64(bytes, at) % 0x100 == bytes[at],
        le_u64(bytes, at) / 0x100 % 0x100 == bytes[at + 1],
        le_u64(bytes, at) / 0x1_0000 % 0x100 == bytes[at + 2],
        le_u64(bytes, at) / 0x100_0000 % 0x100 == bytes[at + 3],
        le_u64(bytes, at) / 0x1_0000_0000 % 0x100 == bytes[at + 4],
        le_u64(bytes, at) / 0x100_0000_0000 % 0x100 == bytes[at + 5],
        le_u64(bytes, at) / 0x1_0000_0000_0000 % 0x100 == bytes[at + 6],
        le_u64(bytes, at) / 0x100_0000_0000_0000 == bytes[at + 7],
{
    lemma_le_u32_bytes(bytes, at);
    let b4 = bytes[at + 4];
    let b5 = bytes[at + 5];
    let b6 = bytes[at + 6];
    let b7 = bytes[at + 7];
    let low = le_u32(bytes, at) as u64;
    let high = le_u32(bytes, at + 4) as u64;
    let all = le_u64(bytes, at) as u64;
    assert(all % 0x100 == low % 0x100 && all / 0x100 % 0x100 == low / 0x100 % 0x100 && all
        / 0x1_0000 % 0x100 == low / 0x1_0000 % 0x100 && all / 0x100_0000 % 0x100 == low
        / 0x100_0000 && all / 0x1_0000_0000 % 0x100 == b4 && all / 0x100_0000_0000 % 0x100 == b5
        && all / 0x1_0000_0000_0000 % 0x100 == b6 && all / 0x100_0000_0000_0000 == b7)
        by (bit_vector)
        requires
            low < 0x1_0000_0000,
            high == b4 + b5 * 0x100 + (b6 + b7 * 0x100) * 0x1_0000,
            all == low + high * 0x1_0000_0000,
    ;
}

pub fn read_u16(bytes: &[u8], at: usize) -> (r: u16)
    requires
        at + 2 <= bytes@.len(),
    ensures
        r == le_u16(bytes@, at as int),
{
    (bytes[at] as u16) + (bytes[at + 1] as u16) * 0x100
}

pub fn read_u32(bytes: &[u8], at: usize) -> (r: u32)
    requires
        at + 4 <= bytes@.len(),
    ensures
        r == le_u32(bytes@, at as int),
{
    let length: usize = bytes.len();
    assert(at + 4 <= length);
    (read_u16(bytes, at) as u32) + (read_u16(bytes, at + 2) as u32) * 0x1_0000
}

pub fn read_u64(bytes: &[u8], at: usize) -> (r: u64)
    requires
        at + 8 <= bytes@.len(),
    ensures
        r == le_u64(bytes@, at as int),
{
    let length: usize = bytes.len();
    assert(at + 8 <= length);
    (read_u32(bytes, at) as u64) + (read_u32(bytes, at + 4) as u64) * 0x1_0000_0000
}

#[derive(PartialEq, Eq, Structural, Debug, Clone, Copy)]
pub enum ElfPhysicalType {
    Null,
    Load,
    Dynamic,
    Interp,
    Note,
    Shlib,
    Phdr,
    Tls,
    Num,
    LoOs,
    GnuEhFrame,
    GnuStack,
    GnuRelRO,
    GnuProperty,
    SunWBss,
    SunWStack,
    HiSunW,
    LoProc,
    HiProc,
}

/// The kind of program header that the number `p_type` stands for; `Null`
/// for a number that stands for none.
pub open spec fn physical_type_of(p_type: u32) -> ElfPhysicalType {
    if p_type == 1 {
        ElfPhysicalType::Load
    } else if p_type == 2 {
        ElfPhysicalType::Dynamic
    } else if p_type == 3 {
        ElfPhysicalType::Interp
    } else if p_type == 4 {
        ElfPhysicalType::Note
    } else if p_type == 5 {
        ElfPhysicalType::Shlib
    } else if p_type == 6 {
        ElfPhysicalType::Phdr
    } else if p_type == 7 {
        ElfPhysicalType::Tls
    } else if p_type == 8 {
        ElfPhysicalType::Num
    } else if p_type == 0x6000_0000 {
        ElfPhysicalType::LoOs
    } else if p_type == 0x6474_e550 {
        ElfPhysicalType::GnuEhFrame
    } else if p_type == 0x6474_e551 {
        ElfPhysicalType::GnuStack
    } else if p_type == 0x6474_e552 {
        ElfPhysicalType::GnuRelRO
    } else if p_type == 0x6474_e553 {
        ElfPhysicalType::GnuProperty
    } else if p_type == 0x6fff_fffa {
        ElfPhysicalType::SunWBss
    } else if p_type == 0x6fff_fffb {
        ElfPhysicalType::SunWStack
    } else if p_type == 0x6fff_ffff {
        ElfPhysicalType::HiSunW
    } else if p_type == 0x7000_0000 {
        ElfPhysicalType::LoProc
    } else if p_type == 0x7fff_ffff {
        ElfPhysicalType::HiProc
    } else {
        ElfPhysicalType::Null
    }
}

/// The size in bytes of one program header in the file.
pub const PROGRAM_HEADER_SIZE: usize = 56;

/// One program header of an ELF64 file.
#[derive(Debug, Clone, Copy)]
pub struct ElfPhysicalHeader64 {
    pub p_type: u32,
    pub p_flags: u32,
    pub p_offset: u64,
    pub p_vaddr: u64,
    pub p_paddr: u64,
    pub p_filesz: u64,
    pub p_memsz: u64,
    pub p_align: u64,
}

impl ElfPhysicalHeader64 {
    /// A program header with the given fields.
    pub fn new(
        p_type: u32,
        p_flags: u32,
        p_offset: u64,
        p_vaddr: u64,
        p_paddr: u64,
        p_filesz: u64,
        p_memsz: u64,
        p_align: u64,
    ) -> (r: ElfPhysicalHeader64)
        ensures
            r.p_type == p_type,
            r.p_flags == p_flags,
            r.p_offset == p_offset,
            r.p_vaddr == p_vaddr,
            r.p_paddr == p_paddr,
            r.p_filesz == p_filesz,
            r.p_memsz == p_memsz,
            r.p_align == p_align,
    {
        ElfPhysicalHeader64 {
            p_type,
            p_flags,
            p_offset,
            p_vaddr,
            p_paddr,
            p_filesz,
            p_memsz,
            p_align,
        }
    }

    /// The program header that the 56 bytes of `bytes` from `at` on encode.
    pub open spec fn decoded(bytes: Seq<u8>, at: int) -> ElfPhysicalHeader64 {
        ElfPhysicalHeader64 {
            p_type: le_u32(bytes, at) as u32,
            p_flags: le_u32(bytes, at + 4) as u32,
            p_offset: le_u64(bytes, at + 8) as u64,
            p_vaddr: le_u64(bytes, at + 16) as u64,
            p_paddr: le_u64(bytes, at + 24) as u64,
            p_filesz: le_u64(bytes, at + 32) as u64,
            p_memsz: le_u64(bytes, at + 40) as u64,
            p_align: le_u64(bytes, at + 48) as u64,
        }
    }

    /// The program header in the 56 bytes of `bytes` from `at` on; none
    /// where `bytes` ends before that.
    pub fn parse(bytes: &[u8], at: usize) -> (r: Option<ElfPhysicalHeader64>)
        ensures
            r == if at + 56 <= bytes@.len() {
                Some(Self::decoded(bytes@, at as int))
            } else {
                None::<ElfPhysicalHeader64>
            },
    {
        if bytes.len() < PROGRAM_HEADER_SIZE || at > bytes.len() - PROGRAM_HEADER_SIZE {
            return None;
        }
        Some(
            ElfPhysicalHeader64 {
                p_type: read_u32(bytes, at),
                p_flags: read_u32(bytes, at + 4),
                p_offset: read_u64(bytes, at + 8),
                p_vaddr: read_u64(bytes, at + 16),
                p_paddr: read_u64(bytes, at + 24),
                p_filesz: read_u64(bytes, at + 32),
                p_memsz: read_u64(bytes, at + 40),
                p_align: read_u64(bytes, at + 48),
            },
        )
    }

    pub fn p_type(&self) -> (r: ElfPhysicalType)
        ensures
            r == physical_type_of(self.p_type),
    {
        match self.p_type {
            1 => ElfPhysicalType::Load,
            2 => ElfPhysicalType::Dynamic,
            3 => ElfPhysicalType::Interp,
            4 => ElfPhysicalType::Note,
            5 => ElfPhysicalType::Shlib,
            6 => ElfPhysicalType::Phdr,
            7 => ElfPhysicalType::Tls,
            8 => ElfPhysicalType::Num,
            0x60000000 => ElfPhysicalType::LoOs,
            0x6474e550 => ElfPhysicalType::GnuEhFrame,
            0x6474e551 => ElfPhysicalType::GnuStack,
            0x6474e552 => ElfPhysicalType::GnuRelRO,
            0x6474e553 => ElfPhysicalType::GnuProperty,
            0x6ffffffa => ElfPhysicalType::SunWBss,
            0x6ffffffb => ElfPhysicalType::SunWStack,
            0x6fffffff => ElfPhysicalType::HiSunW,
            0x70000000 => ElfPhysicalType::LoProc,
            0x7fffffff => ElfPhysicalType::HiProc,
            _ => ElfPhysicalType::Null,
        }
    }
}

impl Default for ElfPhysicalHeader64 {
    fn default() -> (r: Self)
        ensures
            r.p_type == 0,
            r.p_flags == 0,
            r.p_offset == 0,
            r.p_vaddr == 0,
            r.p_paddr == 0,
            r.p_filesz == 0,
            r.p_memsz == 0,
            r.p_align == 0,
    {
        ElfPhysicalHeader64 {
            p_type: 0,
            p_flags: 0,
            p_offset: 0,
            p_vaddr: 0,
            p_paddr: 0,
            p_filesz: 0,
            p_memsz: 0,
            p_align: 0,
        }
    }
}

#[derive(PartialEq, Eq, Structural, Debug, Clone, Copy)]
pub enum ElfClass {
    Unknown,
    Bits32,
    Bits64,
}

#[derive(PartialEq, Eq, Structural, Debug, Clone, Copy)]
pub enum ElfEndianness {
    Unknown,
    Little,
    Big,
}

#[derive(PartialEq, Eq, Structural, Debug, Clone, Copy)]
pub enum ElfType {
    Unknown,
    Rel,
    Exec,
    Dyn,
    Core,
    Other,
}

#[derive(PartialEq, Eq, Structural, Debug, Clone, Copy)]
pub enum ElfMachine {
    ElfMachineX8664,
    Other,
}

#[derive(PartialEq, Eq, Structural, Debug, Clone, Copy)]
pub enum ElfVersion {
    Unknown,
    Current,
    Other,
}

/// The size in bytes of the ELF64 file header.
pub const FILE_HEADER_SIZE: usize = 64;

/// The start of an ELF file header: the part that does not depend on the
/// class of the file.
#[derive(Debug, Clone, Copy)]
pub struct ElfHeaderCommon {
    pub e_ident: [u8; 16],
    pub e_type: u16,
    pub e_machine: u16,
    pub e_version: u32,
}

impl ElfHeaderCommon {
    /// The common header in the first 24 bytes of `bytes`; none where
    /// `bytes` is shorter.
    pub fn parse(bytes: &[u8]) -> (r: Option<ElfHeaderCommon>)
        ensures
            r is Some <==> 24 <= bytes@.len(),
            r matches Some(h) ==> {
                &&& h.e_ident@ == bytes@.subrange(0, 16)
                &&& h.e_type == le_u16(bytes@, 16)
                &&& h.e_machine == le_u16(bytes@, 18)
                &&& h.e_version == le_u32(bytes@, 20)
            },
    {
        if bytes.len() < 24 {
            return None;
        }
        let mut e_ident: [u8; 16] = [0u8;16];
        let mut i: usize = 0;
        while i < 16
            invariant
                i <= 16,
                24 <= bytes@.len(),
                forall|k: int| 0 <= k < i ==> e_ident@[k] == bytes@[k],
            decreases 16 - i,
        {
            e_ident[i] = bytes[i];
            i += 1;
        }
        assert(e_ident@ =~= bytes@.subrange(0, 16));
        Some(
            ElfHeaderCommon {
                e_ident,
                e_type: read_u16(bytes, 16),
                e_machine: read_u16(bytes, 18),
                e_version: read_u32(bytes, 20),
            },
        )
    }

    /// The file starts with the bytes 7F 45 4C 46.
    pub fn has_valid_magic(&self) -> (r: bool)
        ensures
            r == (self.e_ident@[0] == 0x7F && self.e_ident@[1] == 0x45 && self.e_ident@[2] == 0x4C
                && self.e_ident@[3] == 0x46),
    {
        self.e_ident[0] == 0x7F && self.e_ident[1] == 0x45 && self.e_ident[2] == 0x4C
            && self.e_ident[3] == 0x46
    }

    pub fn class(&self) -> (r: ElfClass)
        ensures
            r == if self.e_ident@[4] == 1 {
                ElfClass::Bits32
            } else if self.e_ident@[4] == 2 {
                ElfClass::Bits64
            } else {
                ElfClass::Unknown
            },
    {
        match self.e_ident[4] {
            1 => ElfClass::Bits32,
            2 => ElfClass::Bits64,
            _ => ElfClass::Unknown,
        }
    }

    pub fn endianness(&self) -> (r: ElfEndianness)
        ensures
            r == if self.e_ident@[5] == 1 {
                ElfEndianness::Little
            } else if self.e_ident@[5] == 2 {
                ElfEndianness::Big
            } else {
                ElfEndianness::Unknown
            },
    {
        match self.e_ident[5] {
            1 => ElfEndianness::Little,
            2 => ElfEndianness::Big,
            _ => ElfEndianness::Unknown,
        }
    }

    pub fn e_type(&self) -> (r: ElfType)
        ensures
            r == if self.e_type == 0 {
                ElfType::Unknown
            } else if self.e_type == 1 {
                ElfType::Rel
            } else if self.e_type == 2 {
                ElfType::Exec
            } else if self.e_type == 3 {
                ElfType::Dyn
            } else if self.e_type == 4 {
                ElfType::Core
            } else {
                ElfType::Other
            },
    {
        match self.e_type {
            0 => ElfType::Unknown,
            1 => ElfType::Rel,
            2 => ElfType::Exec,
            3 => ElfType::Dyn,
            4 => ElfType::Core,
            _ => ElfType::Other,
        }
    }

    pub fn e_machine(&self) -> (r: ElfMachine)
        ensures
            r == if self.e_machine == 0x3E {
                ElfMachine::ElfMachineX8664
            } else {
                ElfMachine::Other
            },
    {
        match self.e_machine {
            0x3E => ElfMachine::ElfMachineX8664,
            _ => ElfMachine::Other,
        }
    }

    pub fn e_version(&self) -> (r: ElfVersion)
        ensures
            r == if self.e_version == 0 {
                ElfVersion::Unknown
            } else if self.e_version == 1 {
                ElfVersion::Current
            } else {
                ElfVersion::Other
            },
    {
        match self.e_version {
            0 => ElfVersion::Unknown,
            1 => ElfVersion::Current,
            _ => ElfVersion::Other,
        }
    }
}

/// The ELF64 file header.
#[derive(Debug, Clone, Copy)]
pub struct ElfHeader64 {
    pub common: ElfHeaderCommon,
    pub e_entry: u64,
    pub e_phoff: u64,
    pub e_shoff: u64,
    pub e_flags: u32,
    pub e_ehsize: u16,
    pub e_phentsize: u16,
    pub e_phnum: u16,
    pub e_shentsize: u16,
    pub e_shnum: u16,
    pub e_shstrndx: u16,
}

impl ElfHeader64 {
    /// The file header in the first 64 bytes of `bytes`; none where `bytes`
    /// is shorter.
    pub fn parse(bytes: &[u8]) -> (r: Option<ElfHeader64>)
        ensures
            r is Some <==> 64 <= bytes@.len(),
            r matches Some(h) ==> {
                &&& h.common.e_ident@ == bytes@.subrange(0, 16)
                &&& h.common.e_type == le_u16(bytes@, 16)
                &&& h.common.e_machine == le_u16(bytes@, 18)
                &&& h.common.e_version == le_u32(bytes@, 20)
                &&& h.e_entry == le_u64(bytes@, 24)
                &&& h.e_phoff == le_u64(bytes@, 32)
                &&& h.e_shoff == le_u64(bytes@, 40)
                &&& h.e_flags == le_u32(bytes@, 48)
                &&& h.e_ehsize == le_u16(bytes@, 52)
                &&& h.e_phentsize == le_u16(bytes@, 54)
                &&& h.e_phnum == le_u16(bytes@, 56)
                &&& h.e_shentsize == le_u16(bytes@, 58)
                &&& h.e_shnum == le_u16(bytes@, 60)
                &&& h.e_shstrndx == le_u16(bytes@, 62)
            },
    {
        if bytes.len() < FILE_HEADER_SIZE {
            return None;
        }
        match ElfHeaderCommon::parse(bytes) {
            Some(common) => Some(
                ElfHeader64 {
                    common,
                    e_entry: read_u64(bytes, 24),
                    e_phoff: read_u64(bytes, 32),
                    e_shoff: read_u64(bytes, 40),
                    e_flags: read_u32(bytes, 48),
                    e_ehsize: read_u16(bytes, 52),
                    e_phentsize: read_u16(bytes, 54),
                    e_phnum: read_u16(bytes, 56),
                    e_shentsize: read_u16(bytes, 58),
                    e_shnum: read_u16(bytes, 60),
                    e_shstrndx: read_u16(bytes, 62),
                },
            ),
            None => None,
        }
    }
}

} // verus!
