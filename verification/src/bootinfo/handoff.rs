//! The handoff record itself.
use crate::bootinfo::framebuffer::FrameBuffer;
use crate::bootinfo::meminfo::MemInfo;
use crate::memory::address::{lemma_page_base, VirtualAddress};
use vstd::prelude::*;

verus! {

/// The four bytes that mark a handoff record: `BOOT`.
pub const BOOTINFO_MAGIC: [u8; 4] = [0x42, 0x4F, 0x4F, 0x54];

/// What the bootloader tells the kernel: the frame buffer, the offset at
/// which physical memory is mapped, the first free page of the kernel's
/// virtual arena, the state of physical memory and the place of the font.
#[derive(Debug)]
pub struct BootInfo {
    pub magic: [u8; 4],
    pub framebuffer: FrameBuffer,
    pub page_table_memory_offset: u64,
    pub next_availiable_kernel_page: VirtualAddress,
    pub meminfo: MemInfo,
    pub font_file_address: VirtualAddress,
    pub font_file_size: usize,
}

impl BootInfo {
    /// The record starts with the bytes `BOOT`.
    pub fn has_valid_magic(&self) -> (r: bool)
        ensures
            r == (self.magic@ == seq![0x42u8, 0x4Fu8, 0x4Fu8, 0x54u8]),
    {
        let r = self.magic[0] == 0x42 && self.magic[1] == 0x4F && self.magic[2] == 0x4F
            && self.magic[3] == 0x54;
        proof {
            if r {
                assert(self.magic@ =~= seq![0x42u8, 0x4Fu8, 0x4Fu8, 0x54u8]);
            } else {
                assert(seq![0x42u8, 0x4Fu8, 0x4Fu8, 0x54u8][0] == 0x42);
                assert(seq![0x42u8, 0x4Fu8, 0x4Fu8, 0x54u8][1] == 0x4F);
                assert(seq![0x42u8, 0x4Fu8, 0x4Fu8, 0x54u8][2] == 0x4F);
                assert(seq![0x42u8, 0x4Fu8, 0x4Fu8, 0x54u8][3] == 0x54);
            }
        }
        r
    }
}

impl Default for BootInfo {
    fn default() -> (r: BootInfo)
        ensures
            r.magic@ == seq![0x42u8, 0x4Fu8, 0x4Fu8, 0x54u8],
            r.framebuffer.width == 0,
            r.framebuffer.height == 0,
            r.framebuffer.buffer_size == 0,
            r.page_table_memory_offset == 0,
            r.next_availiable_kernel_page.value() == 0,
            r.meminfo.is_empty(),
            r.font_file_address.value() == 0,
            r.font_file_size == 0,
    {
        proof {
            lemma_page_base(0);
        }
        let magic: [u8; 4] = [0x42, 0x4F, 0x4F, 0x54];
        assert(magic@ =~= seq![0x42u8, 0x4Fu8, 0x4Fu8, 0x54u8]);
        BootInfo {
            magic,
            framebuffer: FrameBuffer::default(),
            page_table_memory_offset: 0,
            next_availiable_kernel_page: VirtualAddress::new(0),
            meminfo: MemInfo::default(),
            font_file_address: VirtualAddress::new(0),
            font_file_size: 0,
        }
    }
}

} // verus!
