use bootstack::bitmap::Bitmap;
use bootstack::memory::address::{PhysicalAddress, VirtualAddress};
use bootstack::memory::paging::page_frame_allocator::{
    AllocError, FrameAllocator, PageFrameAllocator,
};
use bootstack::memory::paging::page_table::{PageTable, PageTableEntry};
use bootstack::memory::paging::page_table_manager::{child_tables, PageTableManager};
use bootstack::memory::paging::physical_memory::PhysicalMemory;

fn allocator_of(frames: usize) -> PageFrameAllocator {
    let bytes = frames / 8;
    let bitmap = Bitmap::new_init_zero(bytes, vec![0; bytes]);
    PageFrameAllocator::new_from_bitmap(bitmap, (frames as u64) * 4096, 0)
}

#[test]
fn entry_flags_and_address_are_kept_apart() {
    let mut entry = PageTableEntry::default();
    assert!(entry.is_unused());
    entry.set_address(PhysicalAddress::new(0x0012_3456_7000));
    entry.set_present(true);
    entry.set_read_write(true);
    assert_eq!(entry.bits(), 0x0012_3456_7003);
    assert!(entry.present() && entry.read_write() && !entry.page_size());
    entry.set_page_size(true);
    assert_eq!(entry.bits(), 0x0012_3456_7083);
    entry.set_address(PhysicalAddress::new(0x1000));
    assert_eq!(entry.bits(), 0x1083);
    assert_eq!(entry.address().as_u64(), 0x1000);
    entry.set_present(false);
    assert_eq!(entry.bits(), 0x1082);
    assert!(entry.are_flag_set(0x82));
    entry.set_flags(0x82, false);
    assert_eq!(entry.bits(), 0x1000);
    entry.make_unused();
    assert!(entry.is_unused());
    assert_eq!(PageTableEntry::from_bits(0xFFFF_FFFF_FFFF_FFFF).address().as_u64(), 0x000F_FFFF_FFFF_F000);
}

#[test]
fn table_entries_can_be_read_and_written() {
    let mut table = PageTable::default();
    table.set_entry(511, PageTableEntry::from_bits(7));
    assert_eq!(table.get_entry(511).bits(), 7);
    assert_eq!(table.get_entry(0).bits(), 0);
    let mut copy = PageTable::default();
    copy.copy_from(&table);
    assert_eq!(copy.get_entry(511).bits(), 7);
    copy.make_unused();
    assert!(copy.get_entry(511).is_unused());
}

#[test]
fn map_then_lookup_then_unmap() {
    let mut memory = PhysicalMemory::new();
    let mut allocator = allocator_of(64);
    let manager = PageTableManager::new_from_allocator(&mut memory, &mut allocator, 0).unwrap();
    assert_eq!(manager.get_p4_address().as_u64(), 0);
    let v = VirtualAddress::new(0xFFFF_8000_0000_0000);
    assert_eq!(manager.get_page_physical_address(&memory, v), None);
    assert_eq!(
        manager.map_memory(&mut memory, v, PhysicalAddress::new(0x10_0000), &mut allocator),
        Ok(())
    );
    assert_eq!(
        manager.get_page_physical_address(&memory, v).map(|p| p.as_u64()),
        Some(0x10_0000)
    );
    assert_eq!(allocator.get_used_ram(), 4 * 4096);
    assert_eq!(manager.get_p4(&memory).get_entry(256).bits(), 0x1003);
    assert_eq!(manager.unmap_p4_index(&mut memory, v.p4_index(), &mut allocator), Ok(()));
    assert_eq!(manager.get_page_physical_address(&memory, v), None);
    assert_eq!(allocator.get_used_ram(), 4096);
    assert_eq!(manager.unmap_p4_index(&mut memory, 512, &mut allocator), Ok(()));
}

#[test]
fn neighbours_share_tables_and_keep_their_frames() {
    let mut memory = PhysicalMemory::new();
    let mut allocator = allocator_of(64);
    let manager = PageTableManager::new_from_allocator(&mut memory, &mut allocator, 0).unwrap();
    let v = VirtualAddress::new(0x4000_0000);
    assert_eq!(
        manager.map_memory_pages(&mut memory, v, PhysicalAddress::new(0x20_0000), 600, &mut allocator),
        Ok(())
    );
    for page in [0u64, 1, 511, 512, 599] {
        assert_eq!(
            manager
                .get_page_physical_address(&memory, v.increment_pages(page))
                .map(|p| p.as_u64()),
            Some(0x20_0000 + page * 4096)
        );
    }
    // root, one level-3 table, one level-2 table, two level-1 tables
    assert_eq!(allocator.get_used_ram(), 5 * 4096);
    // a page of the same level-1 table that was not mapped reads as frame 0
    assert_eq!(
        manager
            .get_page_physical_address(&memory, v.increment_pages(600))
            .map(|p| p.as_u64()),
        Some(0)
    );
    assert_eq!(manager.get_page_physical_address(&memory, VirtualAddress::new(0)), None);
}

#[test]
fn mapping_stops_when_frames_run_out() {
    let mut memory = PhysicalMemory::new();
    let mut allocator = allocator_of(8);
    let manager = PageTableManager::new_from_allocator(&mut memory, &mut allocator, 0).unwrap();
    assert_eq!(allocator.lock_pages(PhysicalAddress::new(0x4000), 4), Ok(()));
    // three frames are left: enough for the first page, not for a page
    // that needs a level-1 table of its own
    let v = VirtualAddress::new(0x1F_F000);
    let result =
        manager.map_memory_pages(&mut memory, v, PhysicalAddress::new(0x50_0000), 2, &mut allocator);
    assert_eq!(result, Err(AllocError::OutOfMemory));
    assert_eq!(
        manager.get_page_physical_address(&memory, v).map(|p| p.as_u64()),
        Some(0x50_0000)
    );
    assert_eq!(manager.get_page_physical_address(&memory, v.increment_pages(1)), None);
}

#[test]
fn release_gives_every_table_back() {
    let mut memory = PhysicalMemory::new();
    let mut allocator = allocator_of(64);
    let manager = PageTableManager::new_from_allocator(&mut memory, &mut allocator, 0).unwrap();
    for v in [0u64, 0x4000_0000, 0x7FFF_FFFF_F000, 0xFFFF_8000_0000_0000, 0xFFFF_FFFF_FFFF_F000] {
        assert_eq!(
            manager.map_memory(&mut memory, VirtualAddress::new(v), PhysicalAddress::new(0x30_0000), &mut allocator),
            Ok(())
        );
    }
    assert!(allocator.get_used_ram() > 4096);
    assert_eq!(manager.release_tables(&mut memory, &mut allocator), Ok(()));
    assert_eq!(allocator.get_used_ram(), 0);
    assert_eq!(manager.release_tables(&mut memory, &mut allocator), Err(AllocError::DoubleFree));
}

#[test]
fn large_pages_end_the_walk() {
    let mut memory = PhysicalMemory::new();
    let mut allocator = allocator_of(64);
    let manager = PageTableManager::new_from_allocator(&mut memory, &mut allocator, 0).unwrap();
    let v = VirtualAddress::new(0x20_0000);
    assert_eq!(
        manager.map_memory(&mut memory, v, PhysicalAddress::new(0x7000), &mut allocator),
        Ok(())
    );
    // turn the level-2 entry into a large page at 0x4000_0000
    let level3 = manager.get_p4(&memory).get_entry(0).address();
    let level2 = memory.read_entry(level3, 0).address();
    memory.write_entry(level2, 1, PageTableEntry::from_bits(0x4000_0083));
    assert_eq!(
        manager.get_page_physical_address(&memory, v).map(|p| p.as_u64()),
        Some(0x4000_0000)
    );
    // releasing clears the large page without following it
    assert_eq!(manager.release_tables(&mut memory, &mut allocator), Ok(()));
    assert_eq!(allocator.get_used_ram(), 4096);
}

#[test]
fn offset_shifts_the_address_at_which_frames_are_read() {
    let mut manager = PageTableManager::new(PhysicalAddress::new(0x5000), 0);
    assert_eq!(manager.translate_address(PhysicalAddress::new(0x9000)).as_u64(), 0x9000);
    manager.set_offset(0xFFFF_7FFF_8000_0000);
    assert_eq!(
        manager.translate_address(PhysicalAddress::new(0x9000)).as_u64(),
        0x0000_7FFF_8000_9000
    );
    assert_eq!(manager.get_p4_address().as_u64(), 0x5000);
}

#[test]
fn written_frames_are_listed() {
    let mut memory = PhysicalMemory::new();
    assert!(memory.frames_written().is_empty());
    let mut allocator = allocator_of(64);
    let manager = PageTableManager::new_from_allocator(&mut memory, &mut allocator, 0).unwrap();
    assert_eq!(
        manager.map_memory(&mut memory, VirtualAddress::new(0x5000), PhysicalAddress::new(0x9000), &mut allocator),
        Ok(())
    );
    let mut frames = memory.frames_written();
    frames.sort();
    assert_eq!(frames, vec![0, 1, 2, 3]);
    memory.clear_table(PhysicalAddress::new(0x40_0000));
    assert_eq!(memory.frames_written().len(), 5);
    assert!(memory.read_table(PhysicalAddress::new(0x40_0000)).get_entry(7).is_unused());
}

#[test]
fn a_root_needs_a_frame() {
    let mut memory = PhysicalMemory::new();
    let mut allocator = allocator_of(8);
    assert_eq!(allocator.lock_pages(PhysicalAddress::new(0), 8), Ok(()));
    let failed = PageTableManager::new_from_allocator(&mut memory, &mut allocator, 0);
    assert_eq!(failed.err(), Some(AllocError::OutOfMemory));
    assert_eq!(memory.frames_written().len(), 0);
    assert_eq!(allocator.get_used_ram(), 8 * 4096);
    // the root is the frame that the allocator hands out next
    assert_eq!(allocator.free_page(PhysicalAddress::new(0x5000)), Ok(()));
    let manager = PageTableManager::new_from_allocator(&mut memory, &mut allocator, 7).unwrap();
    assert_eq!(manager.get_p4_address().as_u64(), 0x5000);
    assert_eq!(memory.frames_written(), vec![5]);
}

#[test]
fn a_root_alone_is_released_as_the_allocator_says() {
    let mut memory = PhysicalMemory::new();
    let mut allocator = allocator_of(8);
    // a root that the allocator does not hold as used is not taken back
    let stray = PageTableManager::new(PhysicalAddress::new(0x3000), 0);
    assert_eq!(stray.release_tables(&mut memory, &mut allocator), Err(AllocError::DoubleFree));
    assert_eq!(memory.frames_written().len(), 0);
    assert_eq!(allocator.get_used_ram(), 0);
    // one that it holds is
    assert_eq!(allocator.lock_page(PhysicalAddress::new(0x3000)), Ok(()));
    assert_eq!(stray.release_tables(&mut memory, &mut allocator), Ok(()));
    assert_eq!(allocator.get_used_ram(), 0);
    assert_eq!(memory.frames_written().len(), 0);
}

#[test]
fn a_tree_is_released_whole_whatever_its_shape() {
    let mut memory = PhysicalMemory::new();
    let mut allocator = allocator_of(64);
    assert_eq!(allocator.lock_pages(PhysicalAddress::new(0), 3), Ok(()));
    let manager = PageTableManager::new_from_allocator(&mut memory, &mut allocator, 0).unwrap();
    // two pages below one level-1 table, one below another level-2 table,
    // one below another root entry
    for v in [0x1000u64, 0x2000, 0x4020_0000, 0xFFFF_9000_0000_0000] {
        assert_eq!(
            manager.map_memory(&mut memory, VirtualAddress::new(v), PhysicalAddress::new(v), &mut allocator),
            Ok(())
        );
    }
    // the root, three tables for the first page, two more for the third
    // page and three more for the last
    assert_eq!(allocator.get_used_ram(), (3 + 1 + 3 + 2 + 3) * 4096);
    assert_eq!(manager.release_tables(&mut memory, &mut allocator), Ok(()));
    assert_eq!(allocator.get_used_ram(), 3 * 4096);
    let root = manager.get_p4(&memory);
    for index in 0..512 {
        assert!(root.get_entry(index).is_unused());
    }
}

#[test]
fn a_hierarchy_with_a_large_page_is_released_whole() {
    let mut memory = PhysicalMemory::new();
    let mut allocator = allocator_of(64);
    assert_eq!(allocator.lock_pages(PhysicalAddress::new(0), 2), Ok(()));
    let manager = PageTableManager::new_from_allocator(&mut memory, &mut allocator, 0).unwrap();
    let v = VirtualAddress::new(0x20_0000);
    assert_eq!(
        manager.map_memory(&mut memory, v, PhysicalAddress::new(0x7000), &mut allocator),
        Ok(())
    );
    // a large page in an entry of the level-2 table that pointed at nothing
    let level3 = manager.get_p4(&memory).get_entry(0).address();
    let level2 = memory.read_entry(level3, 0).address();
    memory.write_entry(level2, 7, PageTableEntry::from_bits(0x4000_0083));
    assert_eq!(allocator.get_used_ram(), (2 + 4) * 4096);
    assert_eq!(manager.release_tables(&mut memory, &mut allocator), Ok(()));
    // every table is given back, and nothing else
    assert_eq!(allocator.get_used_ram(), 2 * 4096);
    assert!(memory.read_entry(level2, 7).is_unused());
    assert!(!manager.get_p4(&memory).get_entry(0).present());
}

#[test]
fn the_tables_below_a_table_are_found_by_level() {
    let mut table = PageTable::default();
    table.set_entry(0, PageTableEntry::from_bits(0x5003));
    table.set_entry(3, PageTableEntry::from_bits(0x4000_0083));
    table.set_entry(9, PageTableEntry::from_bits(0x8002));
    table.set_entry(511, PageTableEntry::from_bits(0xFFFF_FFFF_FFFF_FFFF));
    let found = |level: u8| -> Vec<u64> {
        child_tables(&table, level).iter().map(|a| a.as_u64()).collect()
    };
    // below the root every present entry points at a table
    assert_eq!(found(4), vec![0x5000, 0x4000_0000, 0x000F_FFFF_FFFF_F000]);
    // below that, large pages point at none
    assert_eq!(found(3), vec![0x5000]);
    assert_eq!(found(2), vec![0x5000]);
    // a level-1 table points at pages only
    assert_eq!(found(1), Vec::<u64>::new());
}
