//! Loading an image as one block of memory: the range that its segments
//! span and where each of them goes.
use crate::bootloader::elf::{ElfHeader, ElfIdentifier, ProgramHeader};
use vstd::prelude::*;

verus! {

/// The pages that `bytes` bytes take.
pub fn size_to_pages(bytes: u64) -> (r: u64)
    ensures
        r == (bytes + 0xFFF) / 0x1000,
{
    assert((bytes & 0xFFF) > 0 ==> (bytes >> 12) + 1 == (bytes + 0xFFF) / 0x1000) by (bit_vector);
    assert(!((bytes & 0xFFF) > 0) ==> (bytes >> 12) == (bytes + 0xFFF) / 0x1000) by (bit_vector);
    assert((bytes >> 12) < 0x10_0000_0000_0000) by (bit_vector);
    if (bytes & 0xFFF) > 0 {
        (bytes >> 12) + 1
    } else {
        bytes >> 12
    }
}

/// The identifier is that of a 64-bit little-endian ELF file.
pub fn validate_elf_identifier(identifier: &ElfIdentifier) -> (r: bool)
    ensures
        r == (identifier.magic@ == seq![0x7Fu8, 0x45u8, 0x4Cu8, 0x46u8] && identifier.class == 2
            && identifier.endianness == 1),
{
    let magic_ok = identifier.magic[0] == 0x7F && identifier.magic[1] == 0x45
        && identifier.magic[2] == 0x4C && identifier.magic[3] == 0x46;
    proof {
        let expected = seq![0x7Fu8, 0x45u8, 0x4Cu8, 0x46u8];
        if magic_ok {
            assert(identifier.magic@ =~= expected);
        } else {
            assert(expected[0] == 0x7F && expected[1] == 0x45 && expected[2] == 0x4C && expected[3]
                == 0x46);
        }
    }
    if !magic_ok {
        return false;
    }
    if identifier.class != 2 {
        return false;
    }
    if identifier.endianness != 1 {
        return false;
    }
    true
}

/// The file is for x86-64.
pub fn validate_elf_header(header: &ElfHeader) -> (r: bool)
    ensures
        r == (header.instruction_set == 0x3E),
{
    header.instruction_set == 0x3E
}

/// The segment that `header` describes is to be loaded.
pub open spec fn loadable(header: ProgramHeader) -> bool {
    header.segment_type == 1
}

/// The lowest virtual address of a segment to load; the highest address
/// there is where there is no such segment.
pub open spec fn lowest_start(headers: Seq<ProgramHeader>) -> u64
    decreases headers.len(),
{
    if headers.len() == 0 {
        u64::MAX
    } else {
        let before = lowest_start(headers.drop_last());
        if loadable(headers.last()) && headers.last().virtual_address < before {
            headers.last().virtual_address
        } else {
            before
        }
    }
}

/// The highest end of a segment to load; 0 where there is no such segment.
pub open spec fn highest_end(headers: Seq<ProgramHeader>) -> int
    decreases headers.len(),
{
    if headers.len() == 0 {
        0
    } else {
        let before = highest_end(headers.drop_last());
        if loadable(headers.last()) && headers.last().virtual_address + headers.last().mem_size
            > before {
            headers.last().virtual_address + headers.last().mem_size
        } else {
            before
        }
    }
}

/// The range of virtual addresses that the segments to load span: its
/// start and its end. None where there is no such segment or one of them
/// ends beyond 64 bits.
pub fn load_program_segments(program_headers: &[ProgramHeader]) -> (r: Option<(u64, u64)>)
    ensures
        r == if (forall|i: int|
            0 <= i < program_headers@.len() && loadable(#[trigger] program_headers@[i])
                ==> program_headers@[i].virtual_address + program_headers@[i].mem_size <= u64::MAX)
            && lowest_start(program_headers@) <= highest_end(program_headers@) {
            Some((lowest_start(program_headers@), highest_end(program_headers@) as u64))
        } else {
            None::<(u64, u64)>
        },
{
    let mut start_addr: u64 = u64::MAX;
    let mut end_addr: u64 = 0;
    let mut index: usize = 0;
    while index < program_headers.len()
        invariant
            index <= program_headers@.len(),
            start_addr == lowest_start(program_headers@.subrange(0, index as int)),
            end_addr == highest_end(program_headers@.subrange(0, index as int)),
            forall|i: int|
                0 <= i < index && loadable(#[trigger] program_headers@[i])
                    ==> program_headers@[i].virtual_address + program_headers@[i].mem_size
                    <= u64::MAX,
        decreases program_headers@.len() - index,
    {
        proof {
            assert(program_headers@.subrange(0, index + 1).drop_last()
                =~= program_headers@.subrange(0, index as int));
        }
        let program_header = &program_headers[index];
        if program_header.segment_type == 1 {
            let start = program_header.virtual_address;
            let end = match start.checked_add(program_header.mem_size) {
                Some(end) => end,
                None => {
                    return None;
                },
            };
            if start < start_addr {
                start_addr = start
            }
            if end > end_addr {
                end_addr = end
            }
        }
        index += 1;
    }
    proof {
        assert(program_headers@.subrange(0, index as int) =~= program_headers@);
    }
    if start_addr > end_addr {
        return None;
    }
    Some((start_addr, end_addr))
}

/// The address of the entry point of an image whose segments start at
/// `start_addr` once it is loaded at `base_address`; none where the entry
/// lies below the segments or the address is beyond 64 bits.
pub fn relocated_entry(entry_offset: u64, start_addr: u64, base_address: u64) -> (r: Option<u64>)
    ensures
        r == if entry_offset >= start_addr && entry_offset - start_addr + base_address
            <= u64::MAX {
            Some((entry_offset - start_addr + base_address) as u64)
        } else {
            None::<u64>
        },
{
    if entry_offset < start_addr {
        return None;
    }
    (entry_offset - start_addr).checked_add(base_address)
}

} // verus!
