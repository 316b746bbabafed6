use bootstack::bitmap::Bitmap;
use bootstack::bootinfo::framebuffer::{FrameBuffer, FrameBufferError};
use bootstack::bootinfo::handoff::BootInfo;
use bootstack::bootinfo::meminfo::MemInfo;
use bootstack::memory::address::PhysicalAddress;

#[test]
fn a_new_record_carries_the_magic() {
    let mut info = BootInfo::default();
    assert!(info.has_valid_magic());
    assert_eq!(&info.magic, b"BOOT");
    assert_eq!(info.page_table_memory_offset, 0);
    assert_eq!(info.next_availiable_kernel_page.as_u64(), 0);
    assert_eq!(info.font_file_size, 0);
    info.magic[3] = b'K';
    assert!(!info.has_valid_magic());
}

#[test]
fn memory_record_moves_out_and_leaves_nothing() {
    let bitmap = Bitmap::new(2, vec![0xF0, 0x01]);
    let mut info = MemInfo::new(bitmap, 0x5000, 0x1000, 0xB000, PhysicalAddress::new(0x10_0000));
    let taken = info.move_out();
    assert_eq!(taken.bitmap.size(), 2);
    assert!(taken.bitmap.get(0));
    assert_eq!(
        (taken.free_memory, taken.reserved_memory, taken.used_memory),
        (0x5000, 0x1000, 0xB000)
    );
    assert_eq!(taken.max_physical_address.as_u64(), 0x10_0000);
    assert_eq!(info.bitmap.size(), 0);
    assert_eq!((info.free_memory, info.reserved_memory, info.used_memory), (0, 0, 0));
    assert_eq!(info.max_physical_address.as_u64(), 0);
}

#[test]
fn frame_buffer_must_hold_every_line() {
    let base = PhysicalAddress::new(0x8000_0000);
    let buffer = FrameBuffer::new(base, 1024 * 768 * 4, 1024, 768, 1024).unwrap();
    assert_eq!((buffer.width, buffer.height, buffer.pixels_per_scan_line), (1024, 768, 1024));
    assert_eq!(
        FrameBuffer::new(base, 1024 * 768 * 4 - 1, 1024, 768, 1024).unwrap_err(),
        FrameBufferError::SizeTooSmall { required: 1024 * 768 * 4, available: 1024 * 768 * 4 - 1 }
    );
    let empty = FrameBuffer::default();
    assert_eq!((empty.width, empty.height, empty.buffer_size), (0, 0, 0));
}

#[test]
fn fill_paints_the_lines_and_spares_the_gaps() {
    let buffer = FrameBuffer::new(PhysicalAddress::new(0), 4 * 3 * 4, 3, 3, 4).unwrap();
    assert!(buffer.can_fill(12));
    assert!(buffer.can_fill(11));
    assert!(!buffer.can_fill(10));
    let mut pixels = [9u32; 12];
    buffer.fill(&mut pixels, 0x00FF_00FF);
    let c = 0x00FF_00FF;
    assert_eq!(pixels, [c, c, c, 9, c, c, c, 9, c, c, c, 9]);
}
