use bootstack::bootloader::memory_map::{DescriptorType, EfiMemoryDescriptor, EfiMemoryMap};
use bootstack::memory::address::PhysicalAddress;
use bootstack::memory::paging::page_frame_allocator::{AllocError, FrameAllocator};

fn region(kind: u32, start: u64, pages: u64) -> EfiMemoryDescriptor {
    EfiMemoryDescriptor::new(kind, PhysicalAddress::new(start), pages)
}

#[test]
fn region_kinds() {
    assert_eq!(region(0, 0, 1).mem_type(), DescriptorType::EfiReservedMemoryType);
    assert_eq!(region(7, 0, 1).mem_type(), DescriptorType::EfiConventionalMemory);
    assert_eq!(region(14, 0, 1).mem_type(), DescriptorType::EfiPersistentMemory);
    assert_eq!(region(15, 0, 1).mem_type(), DescriptorType::EfiUnkown);
    let usable: Vec<u32> = (0..16).filter(|kind| region(*kind, 0, 1).is_usable_memory()).collect();
    assert_eq!(usable, vec![1, 2, 3, 4, 7, 9]);
    assert_eq!(region(7, 0x3000, 5).num_bytes(), 0x5000);
    assert_eq!(region(7, 0x3000, 5).max_physical_address().as_u64(), 0x8000);
}

#[test]
fn allocator_digestion() {
    let regions = vec![region(7, 0x10_0000, 256), region(4, 0x20_0000, 16)];
    let map = EfiMemoryMap::new(regions, PhysicalAddress::new(0x20_0000), 1).unwrap();
    assert_eq!(map.entry_count(), 2);
    assert_eq!(map.max_usable_physical_address().as_u64(), 0x21_0000);
    assert_eq!(map.max_physical_address().as_u64(), 0x21_0000);
    assert_eq!(map.get_usable_memory_size_pages(), 0x210);
    assert_eq!(map.get_usable_memory_size_bytes(), 0x21_0000);
    let (bitmap_at, size) = map.largest_conventional_region();
    assert_eq!((bitmap_at.as_u64(), size), (0x10_0000, 0x10_0000));
    let mut allocator = map.init_frame_allocator().unwrap();
    assert_eq!(allocator.page_bitmap().size(), 66);
    // 256 conventional frames released, one locked again for the bitmap
    assert_eq!(allocator.get_free_ram(), 255 * 4096);
    assert_eq!(allocator.get_used_ram(), (528 - 255) * 4096);
    assert_eq!(map.free_pages(&mut allocator), Ok(()));
    assert_eq!(allocator.get_free_ram(), 256 * 4096);
    let used = allocator.get_used_ram();
    let page = allocator.request_page().unwrap().as_u64();
    assert!(0x10_0000 <= page && page < 0x20_0000);
    assert_eq!(page, 0x10_1000);
    assert_eq!(allocator.get_used_ram(), used + 4096);
}

#[test]
fn the_highest_ends_tell_usable_from_all_memory() {
    let regions = vec![
        region(7, 0, 16),
        region(11, 0x8000_0000, 32),
        region(2, 0x10_0000, 8),
        region(7, 0x4_0000, 4),
    ];
    let map = EfiMemoryMap::new(regions, PhysicalAddress::new(0x10_0000), 1).unwrap();
    assert_eq!(map.max_usable_physical_address().as_u64(), 0x10_8000);
    assert_eq!(map.max_physical_address().as_u64(), 0x8002_0000);
    assert_eq!(map.largest_conventional_region().0.as_u64(), 0);
    assert_eq!(map.get_descriptor(3).unwrap().num_pages, 4);
    assert!(map.get_descriptor(4).is_err());
    let mut cursor = map.iter();
    let mut kinds = Vec::new();
    while let Some(descriptor) = cursor.next() {
        kinds.push(descriptor.mem_type);
    }
    assert_eq!(kinds, vec![7, 11, 2, 7]);
}

#[test]
fn overlapping_regions_are_tolerated() {
    let regions = vec![region(7, 0x2000, 4), region(7, 0, 16)];
    let map = EfiMemoryMap::new(regions, PhysicalAddress::new(0xF000), 1).unwrap();
    let allocator = map.init_frame_allocator().unwrap();
    // the second release stops at the frame that the first had released
    assert_eq!(allocator.get_free_ram(), 5 * 4096);
    assert!(allocator.page_bitmap().get(0));
    assert!(!allocator.page_bitmap().get(1));
    assert!(allocator.page_bitmap().get(6));
}

#[test]
fn a_map_without_room_for_the_bitmap_gives_no_allocator() {
    let map =
        EfiMemoryMap::new(vec![region(2, 0, 0x10_0000)], PhysicalAddress::new(0), 0).unwrap();
    assert_eq!(map.init_frame_allocator().unwrap_err(), AllocError::OutOfMemory);
    let none = EfiMemoryMap::new(vec![], PhysicalAddress::new(0), 0).unwrap();
    let allocator = none.init_frame_allocator().unwrap();
    assert_eq!(allocator.page_bitmap().size(), 0);
}

#[test]
fn regions_beyond_physical_memory_make_no_map() {
    assert!(EfiMemoryMap::new(
        vec![region(7, 0x000F_FFFF_FFFF_F000, 2)],
        PhysicalAddress::new(0),
        0
    )
    .is_none());
    assert!(!region(7, 0x000F_FFFF_FFFF_F000, 2).is_well_formed());
    assert!(region(7, 0x000F_FFFF_FFFF_F000, 1).is_well_formed());
}

fn raw_descriptor(kind: u32, start: u64, pages: u64, size: usize) -> Vec<u8> {
    let mut bytes = vec![0xEEu8; size];
    bytes[0..4].copy_from_slice(&kind.to_le_bytes());
    bytes[8..16].copy_from_slice(&start.to_le_bytes());
    bytes[16..24].copy_from_slice(&0u64.to_le_bytes());
    bytes[24..32].copy_from_slice(&pages.to_le_bytes());
    bytes[32..40].copy_from_slice(&0xFu64.to_le_bytes());
    bytes
}

#[test]
fn the_map_is_read_at_the_stride_of_the_firmware() {
    let mut buffer = Vec::new();
    buffer.extend(raw_descriptor(7, 0x10_0000, 256, 48));
    buffer.extend(raw_descriptor(4, 0x20_0000, 16, 48));
    buffer.extend(vec![0u8; 20]);
    let map = EfiMemoryMap::parse(&buffer, 96, 48, PhysicalAddress::new(0x5000), 1).unwrap();
    assert_eq!(map.entry_count(), 2);
    let first = map.get_descriptor(0).unwrap();
    assert_eq!((first.mem_type, first.phys_addr.as_u64(), first.num_pages), (7, 0x10_0000, 256));
    assert_eq!(first.attribs, 0xF);
    let second = map.get_descriptor(1).unwrap();
    assert_eq!((second.mem_type, second.phys_addr.as_u64(), second.num_pages), (4, 0x20_0000, 16));
    // bytes of the map that are no whole descriptor are left out
    let map = EfiMemoryMap::parse(&buffer, 116, 48, PhysicalAddress::new(0x5000), 1).unwrap();
    assert_eq!(map.entry_count(), 2);
    assert!(EfiMemoryMap::parse(&buffer, 117, 48, PhysicalAddress::new(0x5000), 1).is_none());
    assert!(EfiMemoryMap::parse(&buffer, 96, 39, PhysicalAddress::new(0x5000), 1).is_none());
    let absurd = raw_descriptor(7, 0x10_0000, u64::MAX, 40);
    assert!(EfiMemoryMap::parse(&absurd, 40, 40, PhysicalAddress::new(0), 0).is_none());
    assert!(EfiMemoryDescriptor::parse(&absurd, 1).is_none());
}
