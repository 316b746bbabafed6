use bootstack::bootloader::elf_section_list::{ElfSection, ElfSectionList};
use bootstack::bootloader::kernel_loader::LoadError;
use bootstack::elf::ElfPhysicalHeader64;

fn load(offset: u64, vaddr: u64, filesz: u64, memsz: u64) -> ElfPhysicalHeader64 {
    ElfPhysicalHeader64::new(1, 5, offset, vaddr, vaddr, filesz, memsz, 0x1000)
}

fn fields(section: &ElfSection) -> (u64, u64, u64, u64) {
    (
        section.file_address.as_u64(),
        section.virtual_address.as_u64(),
        section.num_file_pages,
        section.num_mem_pages,
    )
}

#[test]
fn section_rounds_to_whole_pages() {
    let section = ElfSection::new(0x1234, 0x20_0234, 0x800, 0x2000);
    assert_eq!(fields(&section), (0x1000, 0x20_0000, 1, 3));
    assert_eq!(section.get_mem_end().as_u64(), 0x20_3000);
    assert_eq!(section.get_file_end().as_u64(), 0x2000);
    let empty = ElfSection::new(0x3000, 0x5000, 0, 0);
    assert_eq!(fields(&empty), (0x3000, 0x5000, 0, 0));
    let high = ElfSection::new(0, 0xFFFF_FFFF_8000_0123, 1, 1);
    assert_eq!(high.virtual_address.as_u64(), 0xFFFF_FFFF_8000_0000);
}

#[test]
fn single_load_segment() {
    let mut list = ElfSectionList::new(1);
    assert_eq!(list.add_section(&load(0x1000, 0x20_0000, 0x800, 0x800)), Ok(()));
    assert_eq!(list.merge_sections(), Ok(()));
    assert_eq!(list.size(), 1);
    assert_eq!(fields(&list.get_section(0).unwrap()), (0x1000, 0x20_0000, 1, 1));
    assert!(list.get_section(1).is_none());
}

#[test]
fn two_overlapping_segments_with_the_same_offset_merge() {
    let mut list = ElfSectionList::new(2);
    assert_eq!(list.add_section(&load(0x1000, 0x20_0000, 0x500, 0x500)), Ok(()));
    assert_eq!(list.add_section(&load(0x1400, 0x20_0400, 0x100, 0x100)), Ok(()));
    assert_eq!(list.size(), 2);
    assert_eq!(list.merge_sections(), Ok(()));
    assert_eq!(list.size(), 1);
    assert_eq!(fields(&list.get_section(0).unwrap()), (0x1000, 0x20_0000, 1, 1));
}

#[test]
fn conflicting_overlap_is_misaligned() {
    let mut list = ElfSectionList::new(2);
    assert_eq!(list.add_section(&load(0x1000, 0x20_0000, 0x500, 0x500)), Ok(()));
    assert_eq!(list.add_section(&load(0x3000, 0x20_0400, 0x100, 0x100)), Ok(()));
    assert_eq!(list.merge_sections(), Err(LoadError::MisalignedElf));
    assert_eq!(list.size(), 2);
    let a = list.get_section(0).unwrap();
    let b = list.get_section(1).unwrap();
    assert!(a.has_virtual_overlap(b));
    assert!(!a.has_same_offset(b));
    assert_eq!(a.combine_if_possible(b).unwrap_err(), LoadError::MisalignedElf);
}

#[test]
fn sections_are_kept_in_ascending_order_whatever_the_input_order() {
    let segments = [
        load(0x5000, 0x40_5000, 0x1000, 0x1000),
        load(0x1000, 0x40_1000, 0x1800, 0x1800),
        load(0x2800, 0x40_2800, 0x400, 0x2000),
        load(0x9000, 0x60_0000, 0x10, 0x10),
    ];
    let orders: [[usize; 4]; 4] = [[0, 1, 2, 3], [3, 2, 1, 0], [2, 0, 3, 1], [1, 3, 0, 2]];
    for order in orders {
        let mut list = ElfSectionList::new(4);
        for index in order {
            assert_eq!(list.add_section(&segments[index]), Ok(()));
        }
        assert_eq!(list.merge_sections(), Ok(()));
        assert_eq!(list.size(), 3);
        assert_eq!(fields(&list.get_section(0).unwrap()), (0x1000, 0x40_1000, 2, 4));
        assert_eq!(fields(&list.get_section(1).unwrap()), (0x5000, 0x40_5000, 1, 1));
        assert_eq!(fields(&list.get_section(2).unwrap()), (0x9000, 0x60_0000, 1, 1));
        for i in 0..3 {
            for j in 0..3 {
                if i != j {
                    let a = list.get_section(i).unwrap();
                    assert!(!a.has_virtual_overlap(list.get_section(j).unwrap()));
                }
            }
        }
    }
}

#[test]
fn sections_that_touch_do_not_merge() {
    let a = ElfSection::new(0x1000, 0x1000, 0x1000, 0x1000);
    let b = ElfSection::new(0x2000, 0x2000, 0x1000, 0x1000);
    assert!(!a.has_virtual_overlap(b));
    assert!(a.has_same_offset(b));
    assert!(a.combine_if_possible(b).unwrap().is_none());
    let c = ElfSection::new(0x1800, 0x1800, 0x1000, 0x1000);
    let merged = a.combine_if_possible(c).unwrap().unwrap();
    assert_eq!(fields(&merged), (0x1000, 0x1000, 2, 2));
    let below = ElfSection::new(0x5000, 0x1000, 0x1000, 0x1000);
    assert!(!a.has_same_offset(below));
}

#[test]
fn a_full_list_takes_no_more() {
    let mut list = ElfSectionList::new(1);
    assert_eq!(list.max_items(), 128);
    for i in 0..128u64 {
        assert_eq!(list.add_section(&load(i * 0x1000, i * 0x2000, 1, 1)), Ok(()));
    }
    assert_eq!(
        list.add_section(&load(0, 0x1000_0000, 1, 1)),
        Err(LoadError::CapacityExceeded)
    );
    assert_eq!(list.size(), 128);
    let empty = ElfSectionList::new(0);
    assert_eq!(empty.max_items(), 0);
}

#[test]
fn a_segment_that_leaves_the_address_space_is_refused() {
    let mut list = ElfSectionList::new(2);
    assert_eq!(
        list.add_section(&load(0x1000, 0x1000, 0xFFFF_FFFF_FFFF_F000, 0x10)),
        Err(LoadError::InvalidKernelImage)
    );
    assert_eq!(
        list.add_section(&load(0x1000, 0xFFFF_FFFF_FFFF_F000, 0x10, 0x2000)),
        Err(LoadError::InvalidKernelImage)
    );
    assert!(!ElfSectionList::segment_fits(&load(0x1000, 0xFFFF_FFFF_FFFF_F000, 0x10, 0x2000)));
    assert!(ElfSectionList::segment_fits(&load(0x1000, 0xFFFF_FFFF_FFFF_E000, 0x10, 0x1000)));
    assert_eq!(list.size(), 0);
}

#[test]
fn the_cursor_visits_every_section_once() {
    let mut list = ElfSectionList::new(3);
    assert_eq!(list.add_section(&load(0x3000, 0x9000, 1, 1)), Ok(()));
    assert_eq!(list.add_section(&load(0x1000, 0x5000, 1, 1)), Ok(()));
    let mut cursor = list.iter();
    assert_eq!(cursor.next().unwrap().virtual_address.as_u64(), 0x5000);
    assert_eq!(cursor.next().unwrap().virtual_address.as_u64(), 0x9000);
    assert!(cursor.next().is_none());
    assert!(cursor.next().is_none());
}

#[test]
fn a_segment_with_more_in_the_file_than_in_memory_is_refused() {
    assert!(!ElfSectionList::segment_fits(&load(0x1000, 0x20_0000, 0x801, 0x800)));
    assert!(ElfSectionList::segment_fits(&load(0x1000, 0x20_0000, 0x800, 0x800)));
    let mut list = ElfSectionList::new(2);
    assert_eq!(
        list.add_section(&load(0x1000, 0x20_0000, 0x2000, 0x1000)),
        Err(LoadError::InvalidKernelImage)
    );
    assert_eq!(list.size(), 0);
    // sections hold at least as many pages of memory as of the file, merged or not
    assert_eq!(list.add_section(&load(0x1000, 0x20_0000, 0x1800, 0x1800)), Ok(()));
    assert_eq!(list.add_section(&load(0x2400, 0x20_1400, 0x100, 0x3000)), Ok(()));
    assert_eq!(list.merge_sections(), Ok(()));
    assert_eq!(list.size(), 1);
    assert_eq!(fields(&list.get_section(0).unwrap()), (0x1000, 0x20_0000, 2, 5));
    // the end of a section at the top of the lower half is canonical
    let top = ElfSection::new(0, 0x0000_7FFF_FFFF_F000, 0x10, 0x10);
    assert_eq!(top.get_mem_end().as_u64(), 0xFFFF_8000_0000_0000);
}
