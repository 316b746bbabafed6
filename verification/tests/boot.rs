use bootstack::bitmap::Bitmap;
use bootstack::bootinfo::handoff::BootInfo;
use bootstack::bootloader::boot::{
    choose_direct_map_offset, init_page_table_manager, kernel_base_address,
    next_page_after_assets, place_in_kernel_space, BootError,
};
use bootstack::memory::paging::page_table_manager::PageTableManager;
use bootstack::bootloader::loader::size_to_pages;
use bootstack::bootloader::loaded_asset_list::{LoadedAsset, LoadedAssetList};
use bootstack::memory::address::{PhysicalAddress, VirtualAddress};
use bootstack::memory::paging::page_frame_allocator::{
    AllocError, FrameAllocator, PageFrameAllocator,
};
use bootstack::memory::paging::physical_memory::PhysicalMemory;

const GIB: u64 = 0x4000_0000;

fn allocator_of(frames: usize) -> PageFrameAllocator {
    let bytes = frames / 8;
    let bitmap = Bitmap::new_init_zero(bytes, vec![0; bytes]);
    PageFrameAllocator::new_from_bitmap(bitmap, (frames as u64) * 4096, 0)
}

#[test]
fn pages_of_a_size() {
    assert_eq!(size_to_pages(0), 0);
    assert_eq!(size_to_pages(1), 1);
    assert_eq!(size_to_pages(0x1000), 1);
    assert_eq!(size_to_pages(0x1001), 2);
    assert_eq!(size_to_pages(u64::MAX), 0x10_0000_0000_0000);
}

#[test]
fn boot_table_offset() {
    let kernel_base = 0xFFFF_8000_0000_0000;
    assert_eq!(choose_direct_map_offset(2 * GIB, kernel_base), kernel_base - 2 * GIB);
    assert_eq!(choose_direct_map_offset(2 * GIB - 0x1000, kernel_base), kernel_base - 2 * GIB);
    assert_eq!(choose_direct_map_offset(2 * GIB + 0x1000, kernel_base), kernel_base - 3 * GIB);
    assert_eq!(choose_direct_map_offset(2 * GIB, 2 * GIB), 0);
    assert_eq!(choose_direct_map_offset(2 * GIB, 0x10_0000), 0);
    assert_eq!(choose_direct_map_offset(0, 0x10_0000), 0x10_0000);
}

#[test]
fn both_mappings_cover_physical_memory() {
    let max_physical = 64 * 1024 * 1024;
    let kernel_base = VirtualAddress::new(0xFFFF_8000_0000_0000);
    let mut memory = PhysicalMemory::new();
    let mut allocator = allocator_of(1024);
    let (manager, offset) = init_page_table_manager(
        &mut memory,
        &mut allocator,
        PhysicalAddress::new(max_physical),
        kernel_base,
    )
    .unwrap();
    assert_eq!(offset, 0xFFFF_8000_0000_0000 - GIB);
    let second = VirtualAddress::new(offset);
    assert_eq!(second.as_u64(), 0x0000_7FFF_C000_0000);
    for page in [0u64, 1, 511, 512, 4095, 16383] {
        let physical = page * 4096;
        assert_eq!(
            manager
                .get_page_physical_address(&memory, VirtualAddress::new(physical))
                .map(|p| p.as_u64()),
            Some(physical)
        );
        assert_eq!(
            manager
                .get_page_physical_address(&memory, second.increment_pages(page))
                .map(|p| p.as_u64()),
            Some(physical)
        );
    }
    assert_eq!(manager.get_page_physical_address(&memory, VirtualAddress::new(max_physical)), None);
    // root, and for each mapping one level-3, one level-2 and 32 level-1 tables
    assert_eq!(allocator.get_used_ram(), (1 + 2 * 34) * 4096);
}

#[test]
fn too_much_memory_is_refused() {
    let mut memory = PhysicalMemory::new();
    let mut allocator = allocator_of(64);
    let result = init_page_table_manager(
        &mut memory,
        &mut allocator,
        PhysicalAddress::new(512 * GIB + 0x1000),
        VirtualAddress::new(0xFFFF_8000_0000_0000),
    );
    assert_eq!(result.unwrap_err(), BootError::MemoryTooLarge);
    assert_eq!(allocator.get_used_ram(), 0);
    let mut small = allocator_of(8);
    let result = init_page_table_manager(
        &mut memory,
        &mut small,
        PhysicalAddress::new(64 * 1024 * 1024),
        VirtualAddress::new(0xFFFF_8000_0000_0000),
    );
    assert_eq!(result.unwrap_err(), BootError::Alloc(AllocError::OutOfMemory));
    // the allocator has run out, and says so again
    assert_eq!(small.request_page().err(), Some(AllocError::OutOfMemory));
    // memory that is too large is refused before the allocator is asked
    assert_eq!(allocator.request_page().map(|p| p.as_u64()), Ok(0));
}

#[test]
fn kernel_base_and_first_free_page() {
    let mut assets = LoadedAssetList::new(3);
    assert_eq!(kernel_base_address(&assets).as_u64(), 0xFFFF_FFFF_FFFF_FFFF);
    let cursor = VirtualAddress::new(0);
    assert_eq!(next_page_after_assets(&assets, cursor).as_u64(), 0);
    let list = [
        (0x10_0000u64, 3usize, 0xFFFF_FFFF_8020_0000u64),
        (0x20_0000, 1, 0xFFFF_FFFF_8000_0000),
        (0x30_0000, 2, 0xFFFF_FFFF_8010_0000),
    ];
    for (i, (physical, pages, at)) in list.iter().enumerate() {
        let asset = LoadedAsset::new(PhysicalAddress::new(*physical), *pages, VirtualAddress::new(*at));
        assert_eq!(assets.add_asset(asset), Some(i));
    }
    assert_eq!(kernel_base_address(&assets).as_u64(), 0xFFFF_FFFF_8000_0000);
    assert_eq!(next_page_after_assets(&assets, cursor).as_u64(), 0xFFFF_FFFF_8020_3000);
    let high = VirtualAddress::new(0xFFFF_FFFF_9000_0000);
    assert_eq!(next_page_after_assets(&assets, high).as_u64(), 0xFFFF_FFFF_9000_0000);
    assert_eq!(assets.max_items(), 170);
}

#[test]
fn two_gibibytes_below_a_kernel_in_the_upper_half() {
    let max_physical = 2 * GIB;
    let kernel_base = VirtualAddress::new(0xFFFF_8000_0000_0000);
    let mut memory = PhysicalMemory::new();
    let mut allocator = allocator_of(4096);
    let (manager, offset) = init_page_table_manager(
        &mut memory,
        &mut allocator,
        PhysicalAddress::new(max_physical),
        kernel_base,
    )
    .unwrap();
    assert_eq!(offset, 0xFFFF_8000_0000_0000 - 2 * GIB);
    let second = VirtualAddress::new(offset);
    for page in [0u64, 1, 4095, 262144, 524287] {
        let physical = page * 4096;
        assert_eq!(
            manager
                .get_page_physical_address(&memory, VirtualAddress::new(physical))
                .map(|p| p.as_u64()),
            Some(physical)
        );
        assert_eq!(
            manager
                .get_page_physical_address(&memory, second.increment_pages(page))
                .map(|p| p.as_u64()),
            Some(physical)
        );
    }
    assert_eq!(manager.get_page_physical_address(&memory, VirtualAddress::new(max_physical)), None);
    assert_eq!(manager.get_page_physical_address(&memory, kernel_base), None);
    // root, and for each mapping one level-3, two level-2 and 1024 level-1 tables
    assert_eq!(allocator.get_used_ram(), (1 + 2 * (1 + 2 + 1024)) * 4096);
    assert_eq!(memory.frames_written().len(), 1 + 2 * (1 + 2 + 1024));
}

#[test]
fn pages_are_placed_one_run_after_the_other() {
    let mut memory = PhysicalMemory::new();
    let mut allocator = allocator_of(64);
    let manager = PageTableManager::new_from_allocator(&mut memory, &mut allocator, 0).unwrap();
    let mut info = BootInfo::default();
    info.next_availiable_kernel_page = VirtualAddress::new(0xFFFF_FFFF_8000_3000);
    let first = place_in_kernel_space(
        &manager,
        &mut memory,
        &mut allocator,
        &mut info,
        PhysicalAddress::new(0x7000),
        2,
    )
    .unwrap();
    assert_eq!(first.as_u64(), 0xFFFF_FFFF_8000_3000);
    assert_eq!(info.next_availiable_kernel_page.as_u64(), 0xFFFF_FFFF_8000_5000);
    let second = place_in_kernel_space(
        &manager,
        &mut memory,
        &mut allocator,
        &mut info,
        PhysicalAddress::new(0x20_0000),
        1,
    )
    .unwrap();
    assert_eq!(second.as_u64(), 0xFFFF_FFFF_8000_5000);
    assert_eq!(info.next_availiable_kernel_page.as_u64(), 0xFFFF_FFFF_8000_6000);
    let found = |v: u64| {
        manager.get_page_physical_address(&memory, VirtualAddress::new(v)).map(|p| p.as_u64())
    };
    assert_eq!(found(0xFFFF_FFFF_8000_3000), Some(0x7000));
    assert_eq!(found(0xFFFF_FFFF_8000_4000), Some(0x8000));
    assert_eq!(found(0xFFFF_FFFF_8000_5000), Some(0x20_0000));
    assert!(info.has_valid_magic());
    // without frames for the tables nothing is placed and the cursor stays
    let mut empty = allocator_of(8);
    let other = PageTableManager::new_from_allocator(&mut memory, &mut empty, 0).unwrap();
    assert_eq!(empty.lock_pages(PhysicalAddress::new(0), 8), Err(AllocError::AlreadyUsed));
    assert_eq!(empty.lock_pages(PhysicalAddress::new(0x1000), 7), Ok(()));
    let failed = place_in_kernel_space(
        &other,
        &mut memory,
        &mut empty,
        &mut info,
        PhysicalAddress::new(0x9000),
        1,
    );
    assert_eq!(failed, Err(AllocError::OutOfMemory));
    assert_eq!(info.next_availiable_kernel_page.as_u64(), 0xFFFF_FFFF_8000_6000);
}

#[test]
fn placing_no_page_needs_no_frame() {
    let mut memory = PhysicalMemory::new();
    let mut allocator = allocator_of(8);
    let manager = PageTableManager::new_from_allocator(&mut memory, &mut allocator, 0).unwrap();
    assert_eq!(allocator.lock_pages(PhysicalAddress::new(0x1000), 7), Ok(()));
    let mut info = BootInfo::default();
    info.next_availiable_kernel_page = VirtualAddress::new(0xFFFF_FFFF_8000_0000);
    let at = place_in_kernel_space(
        &manager,
        &mut memory,
        &mut allocator,
        &mut info,
        PhysicalAddress::new(0x9000),
        0,
    );
    assert_eq!(at.map(|v| v.as_u64()), Ok(0xFFFF_FFFF_8000_0000));
    assert_eq!(info.next_availiable_kernel_page.as_u64(), 0xFFFF_FFFF_8000_0000);
    // one page needs three tables, and the allocator has none
    let failed = place_in_kernel_space(
        &manager,
        &mut memory,
        &mut allocator,
        &mut info,
        PhysicalAddress::new(0x9000),
        1,
    );
    assert_eq!(failed.err(), Some(AllocError::OutOfMemory));
    assert_eq!(allocator.request_page().err(), Some(AllocError::OutOfMemory));
    assert_eq!(info.next_availiable_kernel_page.as_u64(), 0xFFFF_FFFF_8000_0000);
}
