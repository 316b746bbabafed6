use bootstack::bootloader::elf_section_list::ElfSection;
use bootstack::bootloader::kernel_loader::{
    get_kernel_sections, load_kernel, load_kernel_sections, program_header_position,
    is_backed, read_program_headers, section_image, validate_kernel_elf, LoadError,
};
use bootstack::elf::{
    read_u16, read_u32, read_u64, ElfClass, ElfEndianness, ElfHeader64, ElfHeaderCommon,
    ElfMachine, ElfPhysicalHeader64, ElfPhysicalType, ElfType, ElfVersion,
};
use bootstack::memory::address::PhysicalAddress;

fn put(bytes: &mut Vec<u8>, at: usize, value: u64, width: usize) {
    for i in 0..width {
        bytes[at + i] = (value >> (8 * i)) as u8;
    }
}

fn image(segments: &[(u32, u64, u64, u64, u64)]) -> Vec<u8> {
    let mut bytes = vec![0u8; 64 + 56 * segments.len()];
    bytes[0..4].copy_from_slice(&[0x7F, 0x45, 0x4C, 0x46]);
    bytes[4] = 2;
    bytes[5] = 1;
    bytes[6] = 1;
    put(&mut bytes, 16, 2, 2);
    put(&mut bytes, 18, 0x3E, 2);
    put(&mut bytes, 20, 1, 4);
    put(&mut bytes, 24, 0xFFFF_FFFF_8000_1000, 8);
    put(&mut bytes, 32, 64, 8);
    put(&mut bytes, 52, 64, 2);
    put(&mut bytes, 54, 56, 2);
    put(&mut bytes, 56, segments.len() as u64, 2);
    for (i, (kind, offset, vaddr, filesz, memsz)) in segments.iter().enumerate() {
        let at = 64 + 56 * i;
        put(&mut bytes, at, *kind as u64, 4);
        put(&mut bytes, at + 8, *offset, 8);
        put(&mut bytes, at + 16, *vaddr, 8);
        put(&mut bytes, at + 32, *filesz, 8);
        put(&mut bytes, at + 40, *memsz, 8);
    }
    bytes
}

#[test]
fn little_endian_numbers() {
    let bytes = [0x01, 0x02, 0x03, 0x04, 0x05, 0x06, 0x07, 0x08, 0x09];
    assert_eq!(read_u16(&bytes, 1), 0x0302);
    assert_eq!(read_u32(&bytes, 0), 0x0403_0201);
    assert_eq!(read_u64(&bytes, 1), 0x0908_0706_0504_0302);
}

#[test]
fn program_header_types() {
    let kinds = [
        (0u32, ElfPhysicalType::Null),
        (1, ElfPhysicalType::Load),
        (2, ElfPhysicalType::Dynamic),
        (8, ElfPhysicalType::Num),
        (9, ElfPhysicalType::Null),
        (0x6474e551, ElfPhysicalType::GnuStack),
        (0x7fffffff, ElfPhysicalType::HiProc),
    ];
    for (code, kind) in kinds {
        assert_eq!(ElfPhysicalHeader64::new(code, 0, 0, 0, 0, 0, 0, 0).p_type(), kind);
    }
    assert_eq!(ElfPhysicalHeader64::default().p_type(), ElfPhysicalType::Null);
}

#[test]
fn headers_are_decoded_from_the_file() {
    let bytes = image(&[(1, 0x1000, 0x20_0000, 0x800, 0x900)]);
    let common = ElfHeaderCommon::parse(&bytes).unwrap();
    assert!(common.has_valid_magic());
    assert_eq!(common.class(), ElfClass::Bits64);
    assert_eq!(common.endianness(), ElfEndianness::Little);
    assert_eq!(common.e_type(), ElfType::Exec);
    assert_eq!(common.e_machine(), ElfMachine::ElfMachineX8664);
    assert_eq!(common.e_version(), ElfVersion::Current);
    let header = ElfHeader64::parse(&bytes).unwrap();
    assert_eq!(header.e_entry, 0xFFFF_FFFF_8000_1000);
    assert_eq!((header.e_phoff, header.e_phentsize, header.e_phnum), (64, 56, 1));
    assert_eq!(program_header_position(&header, 3), Some(64 + 3 * 56));
    let headers = read_program_headers(&bytes, &header).unwrap();
    assert_eq!(headers.len(), 1);
    assert_eq!(headers[0].p_type(), ElfPhysicalType::Load);
    assert_eq!(
        (headers[0].p_offset, headers[0].p_vaddr, headers[0].p_filesz, headers[0].p_memsz),
        (0x1000, 0x20_0000, 0x800, 0x900)
    );
    assert!(ElfPhysicalHeader64::parse(&bytes, 65).is_none());
    assert!(ElfHeader64::parse(&bytes[..63]).is_none());
    assert!(ElfHeaderCommon::parse(&bytes[..23]).is_none());
}

#[test]
fn only_a_kernel_image_is_accepted() {
    let good = image(&[]);
    assert_eq!(validate_kernel_elf(&ElfHeaderCommon::parse(&good).unwrap()), Ok(()));
    let changes: [(usize, u8); 9] =
        [(0, 0x7E), (1, 0), (2, 0), (3, 0), (4, 1), (5, 2), (16, 3), (18, 0x3F), (20, 2)];
    for (at, value) in changes {
        let mut bad = image(&[]);
        bad[at] = value;
        assert_eq!(
            validate_kernel_elf(&ElfHeaderCommon::parse(&bad).unwrap()),
            Err(LoadError::InvalidKernelImage)
        );
        assert_eq!(load_kernel(&bad).unwrap_err(), LoadError::InvalidKernelImage);
    }
}

#[test]
fn loading_gives_the_merged_sections_and_the_entry() {
    let bytes = image(&[
        (1, 0x2000, 0xFFFF_FFFF_8000_2000, 0x100, 0x3000),
        (4, 0x100, 0x100, 0x10, 0x10),
        (1, 0x1000, 0xFFFF_FFFF_8000_1000, 0x1100, 0x1100),
    ]);
    let (sections, entry) = load_kernel(&bytes).unwrap();
    assert_eq!(entry.as_u64(), 0xFFFF_FFFF_8000_1000);
    assert_eq!(sections.size(), 1);
    let section = sections.get_section(0).unwrap();
    assert_eq!(section.file_address.as_u64(), 0x1000);
    assert_eq!(section.virtual_address.as_u64(), 0xFFFF_FFFF_8000_1000);
    assert_eq!((section.num_file_pages, section.num_mem_pages), (2, 4));
}

#[test]
fn loading_reports_why_it_fails() {
    assert_eq!(load_kernel(&[0x7F, 0x45]).unwrap_err(), LoadError::ReadFailure);
    let mut short = image(&[(1, 0x1000, 0x20_0000, 0x800, 0x800)]);
    short.truncate(100);
    assert_eq!(load_kernel(&short).unwrap_err(), LoadError::ReadFailure);
    let conflict = image(&[(1, 0x1000, 0x20_0000, 0x500, 0x500), (1, 0x3000, 0x20_0400, 0x100, 0x100)]);
    assert_eq!(load_kernel(&conflict).unwrap_err(), LoadError::MisalignedElf);
    let absurd = image(&[(1, 0x1000, 0x20_0000, 0xFFFF_FFFF_FFFF_FFFF, 0x100)]);
    assert_eq!(load_kernel(&absurd).unwrap_err(), LoadError::InvalidKernelImage);
    let headers = [ElfPhysicalHeader64::new(1, 0, 0x1000, 0x20_0000, 0, 1, 0xFFFF_FFFF_FFFF_FFFF, 0)];
    assert_eq!(get_kernel_sections(&headers).unwrap_err(), LoadError::InvalidKernelImage);
}

#[test]
fn a_loaded_section_is_zero_beyond_the_file() {
    let mut file = vec![0u8; 0x1800];
    for (i, byte) in file.iter_mut().enumerate() {
        *byte = (i % 251) as u8 + 1;
    }
    let headers = [ElfPhysicalHeader64::new(1, 5, 0x1000, 0x20_0000, 0x20_0000, 0x800, 0x800, 0x1000)];
    let section = ElfSection::new(0x1000, 0x20_0000, 0x800, 0x800);
    let loaded = section_image(&file, &headers, &section);
    assert_eq!(loaded.len(), 0x1000);
    for i in 0..0x800 {
        assert_eq!(loaded[i], file[0x1000 + i]);
    }
    for i in 0x800..0x1000 {
        assert_eq!(loaded[i], 0);
    }
    let bss = [ElfPhysicalHeader64::new(1, 5, 0x1000, 0x20_0000, 0x20_0000, 0x100, 0x2000, 0x1000)];
    let with_bss = ElfSection::new(0x1000, 0x20_0000, 0x100, 0x2000);
    let loaded = section_image(&file, &bss, &with_bss);
    assert_eq!(loaded.len(), 0x2000);
    assert_eq!(loaded[0xFF], file[0x10FF]);
    // the file goes on behind the segment's bytes, the image does not
    assert!(file[0x1100] != 0);
    assert!(loaded[0x100..].iter().all(|byte| *byte == 0));
}

#[test]
fn bytes_of_the_file_that_no_segment_holds_are_not_loaded() {
    // a file with bytes everywhere, also behind the segment and in the
    // gap between two segments that end up in one section
    let file: Vec<u8> = (0..0x3000usize).map(|i| (i % 251) as u8 + 1).collect();
    let headers = [
        ElfPhysicalHeader64::new(1, 5, 0x1010, 0x20_0010, 0x20_0010, 0x20, 0x20, 0x1000),
        ElfPhysicalHeader64::new(1, 6, 0x1800, 0x20_0800, 0x20_0800, 0x10, 0x900, 0x1000),
        ElfPhysicalHeader64::new(6, 4, 0x1040, 0x20_0040, 0x20_0040, 0x10, 0x10, 8),
    ];
    let sections = get_kernel_sections(&headers).unwrap();
    assert_eq!(sections.size(), 1);
    let section = sections.get_section(0).unwrap();
    let loaded = section_image(&file, &headers, &section);
    assert_eq!(loaded.len(), 0x2000);
    for (i, byte) in loaded.iter().enumerate() {
        let held = (0x10..0x30).contains(&i) || (0x800..0x810).contains(&i);
        assert_eq!(*byte, if held { file[0x1000 + i] } else { 0 }, "byte {i:#x}");
    }
    assert!(is_backed(&headers, 0x20_0010) && !is_backed(&headers, 0x20_0040));
}

#[test]
fn assets_record_where_each_section_was_put() {
    let bytes = image(&[
        (1, 0x1000, 0x20_0000, 0x800, 0x800),
        (1, 0x3000, 0x40_0000, 0x10, 0x5000),
    ]);
    let (sections, _) = load_kernel(&bytes).unwrap();
    let buffers = [PhysicalAddress::new(0x10_0000), PhysicalAddress::new(0x30_0000)];
    let assets = load_kernel_sections(&sections, &buffers);
    assert_eq!(assets.size(), 2);
    let first = assets.get_asset(0).unwrap();
    assert_eq!(first.physical_address.as_u64(), 0x10_0000);
    assert_eq!(first.num_pages, 1);
    assert_eq!(first.virtual_address.as_u64(), 0x20_0000);
    let second = assets.get_asset(1).unwrap();
    assert_eq!(second.physical_address.as_u64(), 0x30_0000);
    assert_eq!(second.num_pages, 5);
    assert_eq!(second.virtual_address.as_u64(), 0x40_0000);
    assert!(assets.get_asset(2).is_none());
    let mut cursor = assets.iter();
    assert_eq!(cursor.next().unwrap().num_pages, 1);
    assert_eq!(cursor.next().unwrap().num_pages, 5);
    assert!(cursor.next().is_none());
}
