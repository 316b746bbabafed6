use bootstack::bitmap::Bitmap;
use bootstack::memory::address::PhysicalAddress;
use bootstack::memory::paging::page_frame_allocator::{
    accounts_agree, AllocError, FrameAllocator, PageFrameAllocator, PageFrameAllocatorInner,
};

fn sixteen_free_frames() -> PageFrameAllocator {
    let bitmap = Bitmap::new_init_zero(2, vec![0; 2]);
    PageFrameAllocator::new_from_bitmap(bitmap, 16 * 4096, 0)
}

fn count_used(allocator: &PageFrameAllocator) -> u64 {
    let bitmap = allocator.page_bitmap();
    let mut count = 0;
    for i in 0..bitmap.size() * 8 {
        if bitmap.get(i) {
            count += 1;
        }
    }
    count
}

#[test]
fn request_hands_out_the_lowest_free_frame() {
    let mut allocator = sixteen_free_frames();
    assert_eq!(allocator.request_page().unwrap().as_u64(), 0);
    assert_eq!(allocator.request_page().unwrap().as_u64(), 0x1000);
    assert_eq!(allocator.lock_page(PhysicalAddress::new(0x2000)), Ok(()));
    assert_eq!(allocator.request_page().unwrap().as_u64(), 0x3000);
    assert_eq!(allocator.free_page(PhysicalAddress::new(0x1000)), Ok(()));
    assert_eq!(allocator.request_page().unwrap().as_u64(), 0x1000);
    assert_eq!(allocator.get_used_ram(), 4 * 4096);
    assert_eq!(allocator.get_free_ram(), 12 * 4096);
}

#[test]
fn request_fails_when_every_frame_is_used() {
    let bitmap = Bitmap::new_init(1, vec![0], 0xFF);
    let mut allocator = PageFrameAllocator::new_from_bitmap(bitmap, 0, 8 * 4096);
    assert_eq!(allocator.request_page().unwrap_err(), AllocError::OutOfMemory);
    assert_eq!(allocator.get_used_ram(), 8 * 4096);
}

#[test]
fn lock_and_free_report_frames_in_the_wrong_state() {
    let mut allocator = sixteen_free_frames();
    assert_eq!(allocator.free_page(PhysicalAddress::new(0x5000)), Err(AllocError::DoubleFree));
    assert_eq!(allocator.lock_page(PhysicalAddress::new(0x5000)), Ok(()));
    assert_eq!(allocator.lock_page(PhysicalAddress::new(0x5000)), Err(AllocError::AlreadyUsed));
    assert_eq!(allocator.free_page(PhysicalAddress::new(0x5000)), Ok(()));
    assert_eq!(allocator.free_page(PhysicalAddress::new(0x5000)), Err(AllocError::DoubleFree));
}

#[test]
fn frames_beyond_the_bitmap_are_not_tracked() {
    let mut allocator = sixteen_free_frames();
    assert_eq!(allocator.lock_page(PhysicalAddress::new(16 * 4096)), Ok(()));
    assert_eq!(allocator.get_used_ram(), 0);
    assert_eq!(allocator.free_page(PhysicalAddress::new(16 * 4096)), Err(AllocError::DoubleFree));
    assert_eq!(allocator.get_free_ram(), 16 * 4096);
}

#[test]
fn counters_follow_the_bits() {
    let mut allocator = sixteen_free_frames();
    let total = allocator.get_free_ram() + allocator.get_used_ram();
    let _ = allocator.lock_pages(PhysicalAddress::new(0x3000), 4);
    let _ = allocator.request_page();
    let _ = allocator.free_page(PhysicalAddress::new(0x4000));
    let _ = allocator.free_page(PhysicalAddress::new(0x4000));
    let _ = allocator.lock_page(PhysicalAddress::new(0x3000));
    let _ = allocator.free_pages(PhysicalAddress::new(0x5000), 8);
    assert_eq!(allocator.get_free_ram() + allocator.get_used_ram(), total);
    assert_eq!(allocator.get_used_ram(), 4096 * count_used(&allocator));
    assert_eq!(allocator.get_used_ram(), 2 * 4096);
}

#[test]
fn range_operations_stop_at_the_first_error() {
    let mut allocator = sixteen_free_frames();
    assert_eq!(allocator.lock_page(PhysicalAddress::new(0x6000)), Ok(()));
    assert_eq!(
        allocator.lock_pages(PhysicalAddress::new(0x4000), 4),
        Err(AllocError::AlreadyUsed)
    );
    assert!(allocator.page_bitmap().get(4));
    assert!(allocator.page_bitmap().get(5));
    assert!(allocator.page_bitmap().get(6));
    assert!(!allocator.page_bitmap().get(7));
    assert_eq!(allocator.free_pages(PhysicalAddress::new(0x5000), 4), Err(AllocError::DoubleFree));
    assert!(allocator.page_bitmap().get(4));
    assert!(!allocator.page_bitmap().get(5));
    assert!(!allocator.page_bitmap().get(6));
    assert_eq!(allocator.get_used_ram(), 4096);
    assert_eq!(allocator.lock_pages(PhysicalAddress::new(0x8000), 8), Ok(()));
    assert_eq!(allocator.get_used_ram(), 9 * 4096);
    assert_eq!(allocator.free_pages(PhysicalAddress::new(0x8000), 8), Ok(()));
    assert_eq!(allocator.get_used_ram(), 4096);
}

#[test]
fn inner_state_can_be_replaced() {
    let mut inner = PageFrameAllocatorInner::new_uninitialized();
    assert_eq!(inner.request_page().unwrap_err(), AllocError::OutOfMemory);
    inner.init(Bitmap::new_init_zero(1, vec![0xFF]), 8 * 4096, 0);
    assert_eq!(inner.lock_page(PhysicalAddress::new(0)), Ok(()));
    assert_eq!(inner.request_page().unwrap().as_u64(), 0x1000);
    assert_eq!(inner.free_page(PhysicalAddress::new(0)), Ok(()));
    assert_eq!(inner.request_page().unwrap().as_u64(), 0);
    assert_eq!(inner.get_used_ram(), 2 * 4096);
    let mut outer = PageFrameAllocator::new_uninitialized();
    assert_eq!(outer.get_free_ram(), 0);
    outer.init(Bitmap::new_init_zero(1, vec![0]), 8 * 4096, 0);
    assert_eq!(outer.get_free_ram(), 8 * 4096);
}

#[test]
fn byte_counts_must_agree_with_the_bits() {
    let bitmap = Bitmap::new(2, vec![0xF0, 0x01]);
    assert_eq!(bitmap.count_set(), 5);
    assert!(accounts_agree(&bitmap, 11 * 4096, 5 * 4096));
    assert!(!accounts_agree(&bitmap, 11 * 4096, 4 * 4096));
    assert!(!accounts_agree(&bitmap, 12 * 4096, 5 * 4096));
    assert!(accounts_agree(&Bitmap::new_uninitialized(), 0, 0));
}

#[test]
fn ranges_that_leave_the_physical_space_touch_no_frame() {
    let mut allocator = sixteen_free_frames();
    let top = PhysicalAddress::new(0x000F_FFFF_FFFF_F000);
    // frames that no bitmap tracks are left alone when locked
    assert_eq!(allocator.lock_pages(top, 3), Ok(()));
    assert_eq!(allocator.get_used_ram(), 0);
    // and are not in use when freed
    assert_eq!(allocator.lock_page(PhysicalAddress::new(0)), Ok(()));
    assert_eq!(allocator.free_pages(top, 2), Err(AllocError::DoubleFree));
    assert_eq!(allocator.get_used_ram(), 4096);
}
