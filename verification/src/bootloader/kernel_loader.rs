//! The decisions of the kernel loader: which files it accepts, which
//! sections it loads, and what each section holds once loaded.
use crate::bootloader::elf_section_list::{
    conflicting, insertion_point, lemma_insertion_point, merged, ElfSection, ElfSectionList,
    SectionSpan,
};
use crate::bootloader::loaded_asset_list::{LoadedAsset, LoadedAssetList};
use crate::elf::{
    le_u16, le_u32, le_u64, ElfClass, ElfEndianness, ElfHeader64, ElfHeaderCommon, ElfMachine,
    ElfPhysicalHeader64, ElfPhysicalType, ElfType, ElfVersion,
};
use crate::memory::address::{
    canonical_form, lemma_page_base, PhysicalAddress, VirtualAddress, PAGE_SIZE,
};
use vstd::prelude::*;

verus! {

/// What can go wrong while the kernel image is loaded.
#[derive(Debug, Clone, Copy, PartialEq, Eq, Structural)]
pub enum LoadError {
    FileNotFound,
    ReadFailure,
    InvalidKernelImage,
    MisalignedElf,
    OutOfMemory,
    CapacityExceeded,
}

/// The file is a 64-bit little-endian executable for x86-64 of the current
/// ELF version.
pub open spec fn is_kernel_image(header: ElfHeaderCommon) -> bool {
    &&& header.e_ident@[0] == 0x7F
    &&& header.e_ident@[1] == 0x45
    &&& header.e_ident@[2] == 0x4C
    &&& header.e_ident@[3] == 0x46
    &&& header.e_ident@[4] == 2
    &&& header.e_ident@[5] == 1
    &&& header.e_type == 2
    &&& header.e_machine == 0x3E
    &&& header.e_version == 1
}

/// Accepts the file that `header` starts if and only if it is a kernel
/// image.
pub fn validate_kernel_elf(header: &ElfHeaderCommon) -> (r: Result<(), LoadError>)
    ensures
        r == if is_kernel_image(*header) {
            Ok::<(), LoadError>(())
        } else {
            Err(LoadError::InvalidKernelImage)
        },
{
    if !header.has_valid_magic() {
        return Err(LoadError::InvalidKernelImage);
    }
    if header.class() != ElfClass::Bits64 {
        return Err(LoadError::InvalidKernelImage);
    }
    if header.endianness() != ElfEndianness::Little {
        return Err(LoadError::InvalidKernelImage);
    }
    if header.e_type() != ElfType::Exec {
        return Err(LoadError::InvalidKernelImage);
    }
    if header.e_machine() != ElfMachine::ElfMachineX8664 {
        return Err(LoadError::InvalidKernelImage);
    }
    if header.e_version() != ElfVersion::Current {
        return Err(LoadError::InvalidKernelImage);
    }
    Ok(())
}

/// The section of the segment that `header` describes.
pub open spec fn span_of(header: ElfPhysicalHeader64) -> SectionSpan {
    SectionSpan::of_segment(header.p_offset, header.p_vaddr, header.p_filesz, header.p_memsz)
}

/// The segment that `header` describes is to be loaded.
pub open spec fn is_load(header: ElfPhysicalHeader64) -> bool {
    header.p_type == 1
}

/// Every segment to be loaded has a section.
pub open spec fn all_fit(headers: Seq<ElfPhysicalHeader64>) -> bool {
    forall|i: int|
        0 <= i < headers.len() && is_load(#[trigger] headers[i]) ==> SectionSpan::segment_fits(
            headers[i].p_offset,
            headers[i].p_vaddr,
            headers[i].p_filesz,
            headers[i].p_memsz,
        )
}

/// The sections of the segments to be loaded, each put in front of the
/// sections gathered before it whose virtual base is not lower.
pub open spec fn gathered(headers: Seq<ElfPhysicalHeader64>) -> Seq<SectionSpan>
    decreases headers.len(),
{
    if headers.len() == 0 {
        Seq::empty()
    } else {
        let before = gathered(headers.drop_last());
        if is_load(headers.last()) {
            before.insert(
                insertion_point(before, span_of(headers.last()).virt_base),
                span_of(headers.last()),
            )
        } else {
            before
        }
    }
}

/// The sections to load for the program headers of an image: the section
/// of every segment of type LOAD, in ascending order of virtual base, with
/// sections that overlap merged. Fails with `InvalidKernelImage` where a
/// segment to load has no section, else with `MisalignedElf` where
/// sections that overlap lie at different distances from their place in
/// the file.
pub fn get_kernel_sections(program_headers: &[ElfPhysicalHeader64]) -> (r: Result<
    ElfSectionList,
    LoadError,
>)
    requires
        program_headers@.len() <= 0xFFFF,
    ensures
        match r {
            Ok(list) => {
                &&& all_fit(program_headers@)
                &&& !conflicting(gathered(program_headers@))
                &&& list@ == merged(gathered(program_headers@))
                &&& list.wf()
            },
            Err(e) => e == if !all_fit(program_headers@) {
                LoadError::InvalidKernelImage
            } else {
                LoadError::MisalignedElf
            } && (!all_fit(program_headers@) || conflicting(gathered(program_headers@))),
        },
{
    let count = program_headers.len();
    let mut section_list = ElfSectionList::new(count);
    let mut header_index: usize = 0;
    while header_index < count
        invariant
            header_index <= count,
            count == program_headers@.len(),
            section_list.wf(),
            section_list.capacity() >= count,
            section_list@ == gathered(program_headers@.subrange(0, header_index as int)),
            section_list@.len() <= header_index,
            all_fit(program_headers@.subrange(0, header_index as int)),
        decreases count - header_index,
    {
        let ghost front = program_headers@.subrange(0, header_index as int);
        let ghost next = program_headers@.subrange(0, header_index + 1);
        proof {
            assert(next.drop_last() =~= front);
            assert(next.last() == program_headers@[header_index as int]);
        }
        let program_header = &program_headers[header_index];
        proof {
            lemma_insertion_point(section_list@, span_of(*program_header).virt_base);
        }
        match program_header.p_type() {
            ElfPhysicalType::Load => {
                match section_list.add_section(program_header) {
                    Ok(_) => {},
                    Err(e) => {
                        proof {
                            assert(!all_fit(program_headers@)) by {
                                let _ = program_headers@[header_index as int];
                            }
                        }
                        return Err(e);
                    },
                }
            },
            _ => {},
        }
        proof {
            assert forall|i: int| 0 <= i < next.len() && is_load(#[trigger] next[i]) implies SectionSpan::segment_fits(

                next[i].p_offset,
                next[i].p_vaddr,
                next[i].p_filesz,
                next[i].p_memsz,
            ) by {
                if i < header_index {
                    assert(front[i] == next[i]);
                }
            }
        }
        header_index += 1;
    }
    proof {
        assert(program_headers@.subrange(0, count as int) =~= program_headers@);
    }
    match section_list.merge_sections() {
        Ok(_) => Ok(section_list),
        Err(e) => Err(e),
    }
}

/// Where program header `index` of the image lies in the file; none where
/// that is beyond 64 bits.
pub fn program_header_position(elf_header: &ElfHeader64, index: u16) -> (r: Option<u64>)
    ensures
        r == if elf_header.e_phoff + index * elf_header.e_phentsize <= u64::MAX {
            Some((elf_header.e_phoff + index * elf_header.e_phentsize) as u64)
        } else {
            None::<u64>
        },
{
    let size: u64 = elf_header.e_phentsize as u64;
    assert(index * size <= 0xFFFF * 0xFFFF) by (nonlinear_arith)
        requires
            index <= 0xFFFF,
            size <= 0xFFFF,
    ;
    let step: u64 = (index as u64) * size;
    elf_header.e_phoff.checked_add(step)
}

/// Where program header `index` lies in the file whose bytes are `file`.
pub open spec fn header_position(file: Seq<u8>, index: int) -> int {
    le_u64(file, 32) + index * le_u16(file, 54)
}

/// The whole header table lies within the file.
pub open spec fn table_in_file(file: Seq<u8>) -> bool {
    forall|i: int|
        0 <= i < le_u16(file, 56) ==> #[trigger] header_position(file, i) + 56 <= file.len()
}

/// The program headers that the file encodes, in the order of the header
/// table.
pub open spec fn program_headers_of(file: Seq<u8>) -> Seq<ElfPhysicalHeader64> {
    Seq::new(
        le_u16(file, 56) as nat,
        |i: int| ElfPhysicalHeader64::decoded(file, header_position(file, i)),
    )
}

/// The file starts with the header of a 64-bit little-endian executable
/// for x86-64 of the current ELF version.
pub open spec fn is_kernel_file(file: Seq<u8>) -> bool {
    &&& file[0] == 0x7F
    &&& file[1] == 0x45
    &&& file[2] == 0x4C
    &&& file[3] == 0x46
    &&& file[4] == 2
    &&& file[5] == 1
    &&& le_u16(file, 16) == 2
    &&& le_u16(file, 18) == 0x3E
    &&& le_u32(file, 20) == 1
}

/// What loading the file comes to: the sections to load and the entry
/// address, or the reason why it cannot be loaded.
pub open spec fn load_outcome(file: Seq<u8>) -> Result<(Seq<SectionSpan>, u64), LoadError> {
    if file.len() < 24 {
        Err(LoadError::ReadFailure)
    } else if !is_kernel_file(file) {
        Err(LoadError::InvalidKernelImage)
    } else if file.len() < 64 || !table_in_file(file) {
        Err(LoadError::ReadFailure)
    } else if !all_fit(program_headers_of(file)) {
        Err(LoadError::InvalidKernelImage)
    } else if conflicting(gathered(program_headers_of(file))) {
        Err(LoadError::MisalignedElf)
    } else {
        Ok(
            (
                merged(gathered(program_headers_of(file))),
                canonical_form(le_u64(file, 24) as u64),
            ),
        )
    }
}

/// The program headers of the image in `file`, in the order of the header
/// table. Fails with `ReadFailure` where the table does not lie within the
/// file.
pub fn read_program_headers(file: &[u8], elf_header: &ElfHeader64) -> (r: Result<
    Vec<ElfPhysicalHeader64>,
    LoadError,
>)
    requires
        file@.len() >= 64,
        elf_header.e_phoff == le_u64(file@, 32),
        elf_header.e_phentsize == le_u16(file@, 54),
        elf_header.e_phnum == le_u16(file@, 56),
    ensures
        !table_in_file(file@) ==> r == Err::<Vec<ElfPhysicalHeader64>, LoadError>(
            LoadError::ReadFailure,
        ),
        table_in_file(file@) ==> r is Ok,
        r matches Ok(headers) ==> headers@ == program_headers_of(file@),
{
    let mut headers: Vec<ElfPhysicalHeader64> = Vec::new();
    let mut header_index: u16 = 0;
    let length: usize = file.len();
    while header_index < elf_header.e_phnum
        invariant
            header_index <= elf_header.e_phnum,
            headers@.len() == header_index,
            length == file@.len(),
            elf_header.e_phoff == le_u64(file@, 32),
            elf_header.e_phentsize == le_u16(file@, 54),
            elf_header.e_phnum == le_u16(file@, 56),
            forall|i: int|
                0 <= i < header_index ==> #[trigger] header_position(file@, i) + 56 <= file@.len(),
            forall|i: int|
                0 <= i < headers@.len() ==> #[trigger] headers@[i] == ElfPhysicalHeader64::decoded(
                    file@,
                    header_position(file@, i),
                ),
        decreases elf_header.e_phnum - header_index,
    {
        let parsed = match program_header_position(elf_header, header_index) {
            Some(position) => {
                if position > usize::MAX as u64 {
                    None
                } else {
                    ElfPhysicalHeader64::parse(file, position as usize)
                }
            },
            None => None,
        };
        proof {
            assert(header_position(file@, header_index as int) == elf_header.e_phoff + header_index
                * elf_header.e_phentsize);
        }
        match parsed {
            Some(header) => {
                headers.push(header);
            },
            None => {
                proof {
                    assert(header_position(file@, header_index as int) + 56 > file@.len());
                }
                return Err(LoadError::ReadFailure);
            },
        }
        header_index += 1;
    }
    proof {
        assert(headers@ =~= program_headers_of(file@));
    }
    Ok(headers)
}

/// What loading the image in `file` comes to, before any memory is taken:
/// the sections to load and the virtual address of the entry point. Fails
/// with `ReadFailure` where the file ends before its headers do, with
/// `InvalidKernelImage` where it is no kernel image or a segment has no
/// section, and with `MisalignedElf` where sections overlap at different
/// distances from their place in the file.
pub fn load_kernel(file: &[u8]) -> (r: Result<(ElfSectionList, VirtualAddress), LoadError>)
    ensures
        match r {
            Ok((list, entry)) => {
                &&& list.wf()
                &&& load_outcome(file@) == Ok::<(Seq<SectionSpan>, u64), LoadError>(
                    (list@, entry.value()),
                )
            },
            Err(e) => load_outcome(file@) == Err::<(Seq<SectionSpan>, u64), LoadError>(e),
        },
{
    let elf_common = match ElfHeaderCommon::parse(file) {
        Some(header) => header,
        None => {
            return Err(LoadError::ReadFailure);
        },
    };
    proof {
        assert(forall|k: int| 0 <= k < 16 ==> elf_common.e_ident@[k] == file@.subrange(0, 16)[k]);
        assert(is_kernel_image(elf_common) == is_kernel_file(file@));
    }
    match validate_kernel_elf(&elf_common) {
        Ok(_) => {},
        Err(e) => {
            return Err(e);
        },
    }
    let elf_header = match ElfHeader64::parse(file) {
        Some(header) => header,
        None => {
            return Err(LoadError::ReadFailure);
        },
    };
    let program_headers = match read_program_headers(file, &elf_header) {
        Ok(headers) => headers,
        Err(e) => {
            return Err(e);
        },
    };
    let section_list = match get_kernel_sections(program_headers.as_slice()) {
        Ok(list) => list,
        Err(e) => {
            return Err(e);
        },
    };
    Ok((section_list, VirtualAddress::new(elf_header.e_entry)))
}

/// The segment that `header` describes backs the virtual address `a` with
/// a byte of the file: it is to be loaded, and `a` is one of its first
/// `p_filesz` addresses.
pub open spec fn backs(header: ElfPhysicalHeader64, a: int) -> bool {
    is_load(header) && canonical_form(header.p_vaddr) <= a < canonical_form(header.p_vaddr)
        + header.p_filesz
}

/// Some segment of `headers` backs the virtual address `a` with a byte of
/// the file.
pub open spec fn backed(headers: Seq<ElfPhysicalHeader64>, a: int) -> bool {
    exists|k: int| 0 <= k < headers.len() && backs(#[trigger] headers[k], a)
}

/// The bytes that the pages of `section` hold once it is loaded from
/// `file`: at an address that a segment backs, the byte of the file at the
/// same distance from the section's place in it, as far as the section's
/// file pages and the file reach; zero everywhere else, so also behind the
/// bytes that a segment has in the file.
pub open spec fn image_of(
    file: Seq<u8>,
    headers: Seq<ElfPhysicalHeader64>,
    section: SectionSpan,
) -> Seq<u8> {
    Seq::new(
        (section.mem_pages * 0x1000) as nat,
        |i: int|
            if backed(headers, section.virt_base + i) && i < section.file_pages * 0x1000
                && section.file_base + i < file.len() {
                file[section.file_base + i]
            } else {
                0u8
            },
    )
}

/// Where one segment is loaded alone, its pages hold its bytes of the file
/// and zero behind them: beyond `p_filesz` bytes from the segment's place
/// in its first page on, every byte of the image is zero, whatever the
/// file holds there.
pub proof fn lemma_zero_behind_file(file: Seq<u8>, header: ElfPhysicalHeader64, i: int)
    requires
        is_load(header),
        header.p_vaddr % 0x1000 + header.p_filesz <= i < span_of(header).mem_pages * 0x1000,
    ensures
        image_of(file, seq![header], span_of(header))[i] == 0,
{
    let v = header.p_vaddr;
    lemma_page_base(v);
    assert(canonical_form(v) == canonical_form((v - v % 0x1000) as u64) + v % 0x1000) by {
        let floor = (v - v % 0x1000) as u64;
        assert(floor == v & !0xFFFu64);
        assert({
            let c = if v & 0x8000_0000_0000 != 0 {
                (v & 0x0000_FFFF_FFFF_FFFF) | 0xFFFF_0000_0000_0000
            } else {
                v & 0x0000_FFFF_FFFF_FFFF
            };
            let f = v & !0xFFFu64;
            let d = if f & 0x8000_0000_0000 != 0 {
                (f & 0x0000_FFFF_FFFF_FFFF) | 0xFFFF_0000_0000_0000
            } else {
                f & 0x0000_FFFF_FFFF_FFFF
            };
            c == d + (v & 0xFFF)
        }) by (bit_vector);
    }
    let headers = seq![header];
    let a = span_of(header).virt_base + i;
    assert forall|k: int| 0 <= k < headers.len() implies !backs(#[trigger] headers[k], a) by {
        assert(headers[k] == header);
    }
}

/// Whether a segment of `headers` backs `address` with a byte of the file.
pub fn is_backed(headers: &[ElfPhysicalHeader64], address: u64) -> (r: bool)
    ensures
        r == backed(headers@, address as int),
{
    let mut k: usize = 0;
    while k < headers.len()
        invariant
            k <= headers@.len(),
            forall|j: int| 0 <= j < k ==> !backs(#[trigger] headers@[j], address as int),
        decreases headers@.len() - k,
    {
        let start: u64 = VirtualAddress::new(headers[k].p_vaddr).as_u64();
        if headers[k].p_type == 1 && start <= address && address - start < headers[k].p_filesz {
            assert(backs(headers@[k as int], address as int));
            return true;
        }
        k += 1;
    }
    false
}

/// The bytes that the pages of `section` hold once it is loaded: see
/// `image_of`.
pub fn section_image(
    file: &[u8],
    program_headers: &[ElfPhysicalHeader64],
    section: &ElfSection,
) -> (r: Vec<u8>)
    requires
        section@.mem_pages * 0x1000 <= usize::MAX,
        section@.file_pages * 0x1000 <= usize::MAX,
        section@.mem_end() <= u64::MAX,
    ensures
        r@ == image_of(file@, program_headers@, section@),
{
    let length: usize = (section.num_mem_pages * PAGE_SIZE) as usize;
    let file_length: usize = (section.num_file_pages * PAGE_SIZE) as usize;
    let base: u64 = section.file_address.as_u64();
    let virtual_base: u64 = section.virtual_address.as_u64();
    let available: usize = file.len();
    let mut image: Vec<u8> = Vec::new();
    let mut i: usize = 0;
    while i < length
        invariant
            i <= length,
            length == section@.mem_pages * 0x1000,
            file_length == section@.file_pages * 0x1000,
            base == section@.file_base,
            virtual_base == section@.virt_base,
            section@.mem_end() <= u64::MAX,
            available == file@.len(),
            image@.len() == i,
            forall|k: int|
                0 <= k < i ==> image@[k] == image_of(file@, program_headers@, section@)[k],
        decreases length - i,
    {
        let byte: u8 = if i < file_length && base <= (available as u64) && (i as u64) < (
        available as u64) - base && is_backed(program_headers, virtual_base + i as u64) {
            file[(base as usize) + i]
        } else {
            0
        };
        image.push(byte);
        i += 1;
    }
    assert(image@ =~= image_of(file@, program_headers@, section@));
    image
}

/// The assets of the sections in `section_list`, section `i` of them in
/// the frames from `buffers[i]` on: as many frames as the section has
/// memory pages, to be mapped at the section's virtual base.
pub fn load_kernel_sections(section_list: &ElfSectionList, buffers: &[PhysicalAddress]) -> (r:
    LoadedAssetList)
    requires
        buffers@.len() == section_list@.len(),
        section_list@.len() <= 0xFFFF,
        forall|i: int|
            0 <= i < section_list@.len() ==> (#[trigger] section_list@[i]).mem_pages <= usize::MAX,
    ensures
        r.wf(),
        r@.len() == section_list@.len(),
        forall|i: int|
            0 <= i < r@.len() ==> {
                &&& (#[trigger] r@[i]).physical_address == buffers@[i]
                &&& r@[i].num_pages == section_list@[i].mem_pages
                &&& r@[i].virtual_address.value() == section_list@[i].virt_base
            },
{
    let count = section_list.size();
    let mut kernel_asset_list = LoadedAssetList::new(count);
    let mut i: usize = 0;
    while i < count
        invariant
            i <= count,
            count == section_list@.len(),
            buffers@.len() == count,
            kernel_asset_list.wf(),
            kernel_asset_list.capacity() >= count,
            kernel_asset_list@.len() == i,
            forall|k: int|
                0 <= k < section_list@.len() ==> (#[trigger] section_list@[k]).mem_pages
                    <= usize::MAX,
            forall|k: int|
                0 <= k < i ==> {
                    &&& (#[trigger] kernel_asset_list@[k]).physical_address == buffers@[k]
                    &&& kernel_asset_list@[k].num_pages == section_list@[k].mem_pages
                    &&& kernel_asset_list@[k].virtual_address.value() == section_list@[k].virt_base
                },
        decreases count - i,
    {
        match section_list.get_section(i) {
            Some(section) => {
                assert(section_list@[i as int].mem_pages <= usize::MAX);
                let asset = LoadedAsset::new(
                    buffers[i],
                    section.num_mem_pages as usize,
                    section.virtual_address,
                );
                kernel_asset_list.add_asset(asset);
            },
            None => {},
        }
        i += 1;
    }
    kernel_asset_list
}

} // verus!
