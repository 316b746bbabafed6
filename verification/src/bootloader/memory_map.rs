//! The firmware memory map and its digestion into a page-frame allocator.
use crate::bitmap::{bit_of, lemma_count_uniform, Bitmap};
use crate::elf::{le_u32, le_u64, read_u32, read_u64};
use crate::memory::address::physical_frame;
use crate::memory::address::{lemma_physical_frame, PhysicalAddress, PAGE_SIZE};
use crate::memory::paging::page_frame_allocator::{
    lemma_prefix, AllocError, FrameAccounts, PageFrameAllocator,
};
use vstd::prelude::*;

verus! {

#[derive(PartialEq, Eq, Structural, Debug, Clone, Copy)]
pub enum DescriptorType {
    EfiReservedMemoryType,
    EfiLoaderCode,
    EfiLoaderData,
    EfiBootServicesCode,
    EfiBootServicesData,
    EfiRuntimeServicesCode,
    EfiRuntimeServicesData,
    EfiConventionalMemory,
    EfiUnusableMemory,
    EfiACPIReclaimableMemory,
    EfiACPIMemoryNVS,
    EfiMemoryMappedIO,
    EfiMemoryMappedIOPortSpace,
    EfiPalCode,
    EfiPersistentMemory,
    EfiUnkown,
}

/// The kind of region that the firmware's number `code` stands for.
pub open spec fn descriptor_type_of(code: u32) -> DescriptorType {
    if code == 0 {
        DescriptorType::EfiReservedMemoryType
    } else if code == 1 {
        DescriptorType::EfiLoaderCode
    } else if code == 2 {
        DescriptorType::EfiLoaderData
    } else if code == 3 {
        DescriptorType::EfiBootServicesCode
    } else if code == 4 {
        DescriptorType::EfiBootServicesData
    } else if code == 5 {
        DescriptorType::EfiRuntimeServicesCode
    } else if code == 6 {
        DescriptorType::EfiRuntimeServicesData
    } else if code == 7 {
        DescriptorType::EfiConventionalMemory
    } else if code == 8 {
        DescriptorType::EfiUnusableMemory
    } else if code == 9 {
        DescriptorType::EfiACPIReclaimableMemory
    } else if code == 10 {
        DescriptorType::EfiACPIMemoryNVS
    } else if code == 11 {
        DescriptorType::EfiMemoryMappedIO
    } else if code == 12 {
        DescriptorType::EfiMemoryMappedIOPortSpace
    } else if code == 13 {
        DescriptorType::EfiPalCode
    } else if code == 14 {
        DescriptorType::EfiPersistentMemory
    } else {
        DescriptorType::EfiUnkown
    }
}

/// One region of the firmware memory map.
#[derive(Copy, Clone, Debug)]
pub struct EfiMemoryDescriptor {
    pub mem_type: u32,
    pub phys_addr: PhysicalAddress,
    pub virt_addr: u64,
    pub num_pages: u64,
    pub attribs: u64,
}

impl EfiMemoryDescriptor {
    /// The address just beyond the region.
    pub open spec fn end(self) -> int {
        self.phys_addr.value() + self.num_pages * 0x1000
    }

    /// The number of the first frame of the region.
    pub open spec fn first_frame(self) -> int {
        self.phys_addr.value() as int / 0x1000
    }

    /// The region is memory that is free for use once boot services have
    /// ended: loader or boot-services code or data, conventional memory or
    /// memory that ACPI gives back.
    pub open spec fn usable(self) -> bool {
        self.mem_type == 1 || self.mem_type == 2 || self.mem_type == 3 || self.mem_type == 4
            || self.mem_type == 7 || self.mem_type == 9
    }

    /// The region is conventional memory.
    pub open spec fn conventional(self) -> bool {
        self.mem_type == 7
    }

    /// The region lies within the 52-bit physical address space and its
    /// page count fits in `usize`.
    pub open spec fn wf(self) -> bool {
        &&& self.end() <= 0x10_0000_0000_0000
        &&& self.num_pages <= usize::MAX
    }

    /// The descriptor is what the forty bytes of `bytes` from `at` on
    /// encode: the kind in four bytes, four bytes that are skipped, then
    /// the physical start, the virtual start, the number of pages and the
    /// attributes in eight bytes each, least significant byte first.
    pub open spec fn encoded_at(self, bytes: Seq<u8>, at: int) -> bool {
        &&& self.mem_type == le_u32(bytes, at)
        &&& self.phys_addr.value() == physical_frame(le_u64(bytes, at + 8) as u64)
        &&& self.virt_addr == le_u64(bytes, at + 16)
        &&& self.num_pages == le_u64(bytes, at + 24)
        &&& self.attribs == le_u64(bytes, at + 32)
    }

    /// The descriptor in the forty bytes of `bytes` from `at` on; none
    /// where `bytes` ends before that.
    pub fn parse(bytes: &[u8], at: usize) -> (r: Option<EfiMemoryDescriptor>)
        ensures
            r is Some <==> at + 40 <= bytes@.len(),
            r matches Some(descriptor) ==> descriptor.encoded_at(bytes@, at as int),
    {
        if bytes.len() < 40 || at > bytes.len() - 40 {
            return None;
        }
        Some(
            EfiMemoryDescriptor {
                mem_type: read_u32(bytes, at),
                phys_addr: PhysicalAddress::new(read_u64(bytes, at + 8)),
                virt_addr: read_u64(bytes, at + 16),
                num_pages: read_u64(bytes, at + 24),
                attribs: read_u64(bytes, at + 32),
            },
        )
    }

    pub fn new(mem_type: u32, phys_addr: PhysicalAddress, num_pages: u64) -> (r:
        EfiMemoryDescriptor)
        ensures
            r.mem_type == mem_type,
            r.phys_addr == phys_addr,
            r.virt_addr == 0,
            r.num_pages == num_pages,
            r.attribs == 0,
    {
        EfiMemoryDescriptor { mem_type, phys_addr, virt_addr: 0, num_pages, attribs: 0 }
    }

    /// Whether the region is well formed.
    pub fn is_well_formed(&self) -> (r: bool)
        ensures
            r == self.wf(),
    {
        let start = self.phys_addr.as_u64();
        start <= 0x10_0000_0000_0000 && self.num_pages <= (0x10_0000_0000_0000 - start)
            / PAGE_SIZE && self.num_pages <= usize::MAX as u64
    }

    pub fn num_bytes(&self) -> (r: u64)
        requires
            self.num_pages * 0x1000 <= u64::MAX,
        ensures
            r == self.num_pages * 0x1000,
    {
        self.num_pages * PAGE_SIZE
    }

    /// The frame just beyond the region.
    pub fn max_physical_address(&self) -> (r: PhysicalAddress)
        requires
            self.end() <= u64::MAX,
        ensures
            r.value() == physical_frame(self.end() as u64),
    {
        self.phys_addr.increment_pages(self.num_pages)
    }

    /// The number just beyond the region.
    fn end_number(&self) -> (r: u64)
        requires
            self.end() <= u64::MAX,
        ensures
            r == self.end(),
    {
        self.phys_addr.as_u64() + self.num_pages * PAGE_SIZE
    }

    pub fn is_usable_memory(&self) -> (r: bool)
        ensures
            r == self.usable(),
    {
        match self.mem_type() {
            DescriptorType::EfiLoaderCode
            | DescriptorType::EfiLoaderData
            | DescriptorType::EfiBootServicesCode
            | DescriptorType::EfiBootServicesData
            | DescriptorType::EfiConventionalMemory
            | DescriptorType::EfiACPIReclaimableMemory => true,
            _ => false,
        }
    }

    pub fn mem_type(&self) -> (r: DescriptorType)
        ensures
            r == descriptor_type_of(self.mem_type),
    {
        match self.mem_type {
            0 => DescriptorType::EfiReservedMemoryType,
            1 => DescriptorType::EfiLoaderCode,
            2 => DescriptorType::EfiLoaderData,
            3 => DescriptorType::EfiBootServicesCode,
            4 => DescriptorType::EfiBootServicesData,
            5 => DescriptorType::EfiRuntimeServicesCode,
            6 => DescriptorType::EfiRuntimeServicesData,
            7 => DescriptorType::EfiConventionalMemory,
            8 => DescriptorType::EfiUnusableMemory,
            9 => DescriptorType::EfiACPIReclaimableMemory,
            10 => DescriptorType::EfiACPIMemoryNVS,
            11 => DescriptorType::EfiMemoryMappedIO,
            12 => DescriptorType::EfiMemoryMappedIOPortSpace,
            13 => DescriptorType::EfiPalCode,
            14 => DescriptorType::EfiPersistentMemory,
            _ => DescriptorType::EfiUnkown,
        }
    }
}

/// The highest end of a region of `regions`, of the usable ones alone
/// where `usable_only` is set; 0 where there is none.
pub open spec fn highest_end(regions: Seq<EfiMemoryDescriptor>, usable_only: bool) -> int
    decreases regions.len(),
{
    if regions.len() == 0 {
        0
    } else {
        let before = highest_end(regions.drop_last(), usable_only);
        if (!usable_only || regions.last().usable()) && regions.last().end() > before {
            regions.last().end()
        } else {
            before
        }
    }
}

/// The size in bytes and the start of the largest region of conventional
/// memory, the first of them where several are as large; (0, 0) where
/// there is none.
pub open spec fn largest_conventional(regions: Seq<EfiMemoryDescriptor>) -> (int, u64)
    decreases regions.len(),
{
    if regions.len() == 0 {
        (0, 0)
    } else {
        let before = largest_conventional(regions.drop_last());
        if regions.last().conventional() && regions.last().num_pages * 0x1000 > before.0 {
            (regions.last().num_pages * 0x1000, regions.last().phys_addr.value())
        } else {
            before
        }
    }
}

/// The accounts after the conventional regions of `regions` are released,
/// one region after the other, each as far as its frames are in use.
pub open spec fn conventional_released(
    regions: Seq<EfiMemoryDescriptor>,
    start: FrameAccounts,
) -> FrameAccounts
    decreases regions.len(),
{
    if regions.len() == 0 {
        start
    } else {
        let before = conventional_released(regions.drop_last(), start);
        if regions.last().conventional() {
            before.after_free_range(
                regions.last().first_frame(),
                before.freeable_prefix(
                    regions.last().first_frame(),
                    regions.last().num_pages as int,
                ),
            )
        } else {
            before
        }
    }
}

/// The number of frames that an allocator for `regions` tracks: those
/// below the highest end of usable memory, rounded up to a whole byte of
/// bitmap.
pub open spec fn tracked_frames(regions: Seq<EfiMemoryDescriptor>) -> int {
    8 * bitmap_bytes(regions)
}

/// The size in bytes of the bitmap of an allocator for `regions`.
pub open spec fn bitmap_bytes(regions: Seq<EfiMemoryDescriptor>) -> int {
    (highest_end(regions, true) / 0x1000 + 7) / 8
}

/// The accounts of an allocator for `regions` before its bitmap is
/// locked: every tracked frame used, then the conventional regions
/// released.
pub open spec fn digested(regions: Seq<EfiMemoryDescriptor>) -> FrameAccounts {
    conventional_released(
        regions,
        FrameAccounts {
            bits: Seq::new(tracked_frames(regions) as nat, |i: int| true),
            free_ram: 0,
            used_ram: 0x1000 * tracked_frames(regions),
        },
    )
}

/// The number of frames that the bitmap of an allocator for `regions`
/// takes.
pub open spec fn bitmap_frames(regions: Seq<EfiMemoryDescriptor>) -> int {
    (bitmap_bytes(regions) + 0xFFF) / 0x1000
}

/// The firmware memory map: its regions, and the buffer that the firmware
/// wrote it to.
#[derive(Debug)]
pub struct EfiMemoryMap {
    descriptors: Vec<EfiMemoryDescriptor>,
    buffer_address: PhysicalAddress,
    num_pages: usize,
}

impl View for EfiMemoryMap {
    type V = Seq<EfiMemoryDescriptor>;

    closed spec fn view(&self) -> Seq<EfiMemoryDescriptor> {
        self.descriptors@
    }
}

/// The highest end is that of some region or 0, and no region counted
/// ends above it.
pub proof fn lemma_highest_end(regions: Seq<EfiMemoryDescriptor>, usable_only: bool)
    requires
        forall|i: int| 0 <= i < regions.len() ==> (#[trigger] regions[i]).wf(),
    ensures
        0 <= highest_end(regions, usable_only) <= 0x10_0000_0000_0000,
        forall|i: int|
            0 <= i < regions.len() && (!usable_only || (#[trigger] regions[i]).usable())
                ==> regions[i].end() <= highest_end(regions, usable_only),
        0 <= largest_conventional(regions).0 <= 0x10_0000_0000_0000,
        largest_conventional(regions).1 <= 0x10_0000_0000_0000,
    decreases regions.len(),
{
    if regions.len() > 0 {
        let front = regions.drop_last();
        assert forall|i: int| 0 <= i < front.len() implies (#[trigger] front[i]).wf() by {
            assert(regions[i].wf());
        }
        lemma_highest_end(front, usable_only);
        assert(regions.last().wf());
        assert forall|i: int|
            0 <= i < regions.len() && (!usable_only || (#[trigger] regions[i]).usable())
            implies regions[i].end() <= highest_end(regions, usable_only) by {
            if i < regions.len() - 1 {
                assert(front[i] == regions[i]);
            }
        }
    }
}

impl EfiMemoryMap {
    /// The address of the buffer that holds the map.
    pub closed spec fn buffer(&self) -> u64 {
        self.buffer_address.value()
    }

    /// The number of pages of that buffer.
    pub closed spec fn buffer_pages(&self) -> int {
        self.num_pages as int
    }

    /// Every region is well formed, and the buffer ends within 64 bits.
    pub open spec fn wf(&self) -> bool {
        &&& forall|i: int| 0 <= i < self@.len() ==> (#[trigger] self@[i]).wf()
        &&& self.buffer() + self.buffer_pages() * 0x1000 <= u64::MAX
    }

    /// The map of the given regions in the buffer of `num_pages` pages at
    /// `buffer_address`; none where a region or the buffer is not well
    /// formed.
    pub fn new(
        descriptors: Vec<EfiMemoryDescriptor>,
        buffer_address: PhysicalAddress,
        num_pages: usize,
    ) -> (r: Option<EfiMemoryMap>)
        ensures
            r is Some <==> (forall|i: int|
                0 <= i < descriptors@.len() ==> (#[trigger] descriptors@[i]).wf())
                && buffer_address.value() + num_pages * 0x1000 <= u64::MAX,
            r matches Some(map) ==> {
                &&& map.wf()
                &&& map@ == descriptors@
                &&& map.buffer() == buffer_address.value()
                &&& map.buffer_pages() == num_pages
            },
    {
        if num_pages as u64 > (u64::MAX - buffer_address.as_u64()) / PAGE_SIZE {
            return None;
        }
        let mut index: usize = 0;
        while index < descriptors.len()
            invariant
                index <= descriptors@.len(),
                forall|i: int| 0 <= i < index ==> (#[trigger] descriptors@[i]).wf(),
            decreases descriptors@.len() - index,
        {
            if !descriptors[index].is_well_formed() {
                return None;
            }
            index += 1;
        }
        Some(EfiMemoryMap { descriptors, buffer_address, num_pages })
    }

    /// The map that the firmware wrote to `buffer`: `map_size` bytes of
    /// descriptors, each `descriptor_size` bytes after the one before it.
    /// None where a descriptor is shorter than forty bytes or does not lie
    /// within the buffer, or a region or the buffer is not well formed.
    pub fn parse(
        buffer: &[u8],
        map_size: usize,
        descriptor_size: usize,
        buffer_address: PhysicalAddress,
        num_pages: usize,
    ) -> (r: Option<EfiMemoryMap>)
        ensures
            r matches Some(map) ==> {
                &&& descriptor_size >= 40
                &&& map_size <= buffer@.len()
                &&& map.wf()
                &&& map@.len() == map_size as int / descriptor_size as int
                &&& forall|i: int|
                    0 <= i < map@.len() ==> (#[trigger] map@[i]).encoded_at(
                        buffer@,
                        i * descriptor_size,
                    )
                &&& map.buffer() == buffer_address.value()
                &&& map.buffer_pages() == num_pages
            },
            r is None ==> descriptor_size < 40 || map_size > buffer@.len()
                || buffer_address.value() + num_pages * 0x1000 > u64::MAX || exists|
                i: int,
                d: EfiMemoryDescriptor,
            |
                0 <= i < map_size as int / descriptor_size as int && #[trigger] d.encoded_at(
                    buffer@,
                    i * descriptor_size,
                ) && !d.wf(),
    {
        if descriptor_size < 40 || map_size > buffer.len() {
            return None;
        }
        let count = map_size / descriptor_size;
        let mut descriptors: Vec<EfiMemoryDescriptor> = Vec::new();
        let mut index: usize = 0;
        while index < count
            invariant
                index <= count,
                count == map_size as int / descriptor_size as int,
                descriptor_size >= 40,
                map_size <= buffer@.len(),
                descriptors@.len() == index,
                forall|i: int| 0 <= i < index ==> (#[trigger] descriptors@[i]).wf(),
                forall|i: int|
                    0 <= i < index ==> (#[trigger] descriptors@[i]).encoded_at(
                        buffer@,
                        i * descriptor_size,
                    ),
            decreases count - index,
        {
            assert(index * descriptor_size + descriptor_size <= count * descriptor_size && count
                * descriptor_size <= map_size) by (nonlinear_arith)
                requires
                    index < count,
                    count == map_size as int / descriptor_size as int,
                    descriptor_size > 0,
            ;
            match EfiMemoryDescriptor::parse(buffer, index * descriptor_size) {
                Some(descriptor) => {
                    if !descriptor.is_well_formed() {
                        return None;
                    }
                    descriptors.push(descriptor);
                },
                None => {
                    return None;
                },
            }
            index += 1;
        }
        Self::new(descriptors, buffer_address, num_pages)
    }

    pub fn get_descriptor(&self, index: usize) -> (r: Result<EfiMemoryDescriptor, ()>)
        ensures
            r == if index < self@.len() {
                Ok::<EfiMemoryDescriptor, ()>(self@[index as int])
            } else {
                Err(())
            },
    {
        if index >= self.descriptors.len() {
            return Err(());
        }
        Ok(self.descriptors[index])
    }

    pub fn entry_count(&self) -> (r: usize)
        ensures
            r == self@.len(),
    {
        self.descriptors.len()
    }

    /// A cursor at the first region.
    pub fn iter(&self) -> (r: EfiMemoryMapIterator<'_>)
        ensures
            r.map() == self,
            r.position() == 0,
            r.end() == self@.len(),
    {
        EfiMemoryMapIterator { memory_map: self, current_index: 0, max_index: self.entry_count() }
    }

    pub fn get_usable_memory_size_pages(&self) -> (r: u64)
        requires
            self.wf(),
        ensures
            r == highest_end(self@, true) / 0x1000,
    {
        self.highest(true) / PAGE_SIZE
    }

    pub fn get_usable_memory_size_bytes(&self) -> (r: u64)
        requires
            self.wf(),
        ensures
            r == (highest_end(self@, true) / 0x1000) * 0x1000,
    {
        proof {
            lemma_highest_end(self@, true);
        }
        self.get_usable_memory_size_pages() * PAGE_SIZE
    }

    /// The frame at the highest end of a usable region: that end itself
    /// where it is 4 KiB aligned and below 2^52.
    pub fn max_usable_physical_address(&self) -> (r: PhysicalAddress)
        requires
            self.wf(),
        ensures
            r.value() == physical_frame(highest_end(self@, true) as u64),
            highest_end(self@, true) % 0x1000 == 0 && highest_end(self@, true)
                < 0x10_0000_0000_0000 ==> r.value() == highest_end(self@, true),
    {
        proof {
            lemma_highest_end(self@, true);
            lemma_physical_frame(highest_end(self@, true) as u64);
        }
        PhysicalAddress::new(self.highest(true))
    }

    /// The frame at the highest end of any region: that end itself where
    /// it is 4 KiB aligned and below 2^52.
    pub fn max_physical_address(&self) -> (r: PhysicalAddress)
        requires
            self.wf(),
        ensures
            r.value() == physical_frame(highest_end(self@, false) as u64),
            highest_end(self@, false) % 0x1000 == 0 && highest_end(self@, false)
                < 0x10_0000_0000_0000 ==> r.value() == highest_end(self@, false),
    {
        proof {
            lemma_highest_end(self@, false);
            lemma_physical_frame(highest_end(self@, false) as u64);
        }
        PhysicalAddress::new(self.highest(false))
    }

    fn highest(&self, usable_only: bool) -> (r: u64)
        requires
            self.wf(),
        ensures
            r == highest_end(self@, usable_only),
    {
        let mut highest_address: u64 = 0;
        let mut index: usize = 0;
        while index < self.descriptors.len()
            invariant
                index <= self.descriptors@.len(),
                self.wf(),
                highest_address == highest_end(self@.subrange(0, index as int), usable_only),
            decreases self.descriptors@.len() - index,
        {
            proof {
                assert(self@.subrange(0, index + 1).drop_last() =~= self@.subrange(
                    0,
                    index as int,
                ));
                assert(self@[index as int].wf());
            }
            let descriptor = self.descriptors[index];
            if (!usable_only || descriptor.is_usable_memory()) && descriptor.end_number()
                > highest_address {
                highest_address = descriptor.end_number();
            }
            index += 1;
        }
        proof {
            assert(self@.subrange(0, index as int) =~= self@);
        }
        highest_address
    }

    /// The start and the size in bytes of the largest region of
    /// conventional memory: where the allocator's bitmap is placed.
    pub fn largest_conventional_region(&self) -> (r: (PhysicalAddress, u64))
        requires
            self.wf(),
        ensures
            r.0.value() == largest_conventional(self@).1,
            r.1 == largest_conventional(self@).0,
    {
        let mut largest_free_mem_seg_size: u64 = 0;
        let mut largest_free_mem_seg = PhysicalAddress::new(0);
        let mut index: usize = 0;
        proof {
            lemma_physical_frame(0);
        }
        while index < self.descriptors.len()
            invariant
                index <= self.descriptors@.len(),
                self.wf(),
                largest_free_mem_seg.value() == largest_conventional(
                    self@.subrange(0, index as int),
                ).1,
                largest_free_mem_seg_size == largest_conventional(
                    self@.subrange(0, index as int),
                ).0,
            decreases self.descriptors@.len() - index,
        {
            proof {
                assert(self@.subrange(0, index + 1).drop_last() =~= self@.subrange(
                    0,
                    index as int,
                ));
                assert(self@[index as int].wf());
            }
            let current_descriptor = self.descriptors[index];
            if current_descriptor.mem_type() == DescriptorType::EfiConventionalMemory
                && current_descriptor.num_bytes() > largest_free_mem_seg_size {
                largest_free_mem_seg_size = current_descriptor.num_bytes();
                largest_free_mem_seg = current_descriptor.phys_addr;
            }
            index += 1;
        }
        proof {
            assert(self@.subrange(0, index as int) =~= self@);
        }
        (largest_free_mem_seg, largest_free_mem_seg_size)
    }

    /// The allocator for the memory that the map describes. Its bitmap has
    /// a bit for every frame below the highest end of usable memory; every
    /// frame starts as used, the conventional regions are then released,
    /// and the frames of the bitmap itself, which lies at the start of the
    /// largest conventional region, are locked last. Fails with
    /// `OutOfMemory` where that region is too small for the bitmap, and
    /// with `AlreadyUsed` where a frame of the bitmap is in use.
    pub fn init_frame_allocator(&self) -> (r: Result<PageFrameAllocator, AllocError>)
        requires
            self.wf(),
        ensures
            match r {
                Ok(allocator) => {
                    &&& allocator.wf()
                    &&& bitmap_bytes(self@) <= largest_conventional(self@).0
                    &&& digested(self@).lockable_prefix(
                        largest_conventional(self@).1 as int / 0x1000,
                        bitmap_frames(self@),
                    ) == bitmap_frames(self@)
                    &&& allocator.accounts() == digested(self@).after_lock_range(
                        largest_conventional(self@).1 as int / 0x1000,
                        bitmap_frames(self@),
                    )
                },
                Err(e) => e == if bitmap_bytes(self@) > largest_conventional(self@).0
                    || 8 * bitmap_bytes(self@) > usize::MAX {
                    AllocError::OutOfMemory
                } else {
                    AllocError::AlreadyUsed
                } && (bitmap_bytes(self@) > largest_conventional(self@).0 || 8 * bitmap_bytes(
                    self@,
                ) > usize::MAX || digested(self@).lockable_prefix(
                    largest_conventional(self@).1 as int / 0x1000,
                    bitmap_frames(self@),
                ) < bitmap_frames(self@)),
            },
    {
        proof {
            lemma_highest_end(self@, true);
        }
        let (largest_free_mem_seg, largest_free_mem_seg_size) = self.largest_conventional_region();
        let memory_size_pages = self.get_usable_memory_size_pages();
        let bitmap_size: u64 = (memory_size_pages + (8 - 1)) / 8;
        if bitmap_size > largest_free_mem_seg_size || bitmap_size > (usize::MAX / 8) as u64 {
            return Err(AllocError::OutOfMemory);
        }
        let buffer: Vec<u8> = vec![0xFFu8; bitmap_size as usize];
        let bitmap = Bitmap::new_init(bitmap_size as usize, buffer, 0xFF);
        let ghost start = FrameAccounts {
            bits: Seq::new(tracked_frames(self@) as nat, |i: int| true),
            free_ram: 0,
            used_ram: 0x1000 * tracked_frames(self@),
        };
        proof {
            assert forall|i: int| 0 <= i < bitmap@.len() implies bitmap@[i] by {
                let j = (i % 8) as usize;
                assert(bit_of(0xFFu8, j)) by (bit_vector)
                    requires
                        j < 8,
                ;
            }
            assert(bitmap@ =~= start.bits);
            lemma_count_uniform(bitmap@, true);
        }
        let mut output = PageFrameAllocator::new_from_bitmap(bitmap, 0, 8 * bitmap_size * PAGE_SIZE);
        let mut index: usize = 0;
        while index < self.descriptors.len()
            invariant
                index <= self.descriptors@.len(),
                self.wf(),
                output.wf(),
                start.consistent(),
                output.accounts() == conventional_released(self@.subrange(0, index as int), start),
            decreases self.descriptors@.len() - index,
        {
            proof {
                assert(self@.subrange(0, index + 1).drop_last() =~= self@.subrange(
                    0,
                    index as int,
                ));
                assert(self@[index as int].wf());
            }
            let current_descriptor = self.descriptors[index];
            if current_descriptor.mem_type() == DescriptorType::EfiConventionalMemory {
                let _ = output.free_pages(
                    current_descriptor.phys_addr,
                    current_descriptor.num_pages as usize,
                );
            }
            index += 1;
        }
        proof {
            assert(self@.subrange(0, index as int) =~= self@);
        }
        let bitmap_size_in_pages: u64 = (bitmap_size + (PAGE_SIZE - 1)) / PAGE_SIZE;
        proof {
            lemma_prefix(
                output.accounts(),
                largest_free_mem_seg.value() as int / 0x1000,
                bitmap_size_in_pages as int,
            );
        }
        match output.lock_pages(largest_free_mem_seg, bitmap_size_in_pages as usize) {
            Ok(_) => Ok(output),
            Err(e) => Err(e),
        }
    }

    /// Gives the frames of the buffer that held the map back to
    /// `allocator`, as far as they are in use.
    pub fn free_pages(self, allocator: &mut PageFrameAllocator) -> (r: Result<(), AllocError>)
        requires
            self.wf(),
            old(allocator).wf(),
        ensures
            final(allocator).wf(),
            final(allocator).accounts() == old(allocator).accounts().after_free_range(
                self.buffer() as int / 0x1000,
                old(allocator).accounts().freeable_prefix(
                    self.buffer() as int / 0x1000,
                    self.buffer_pages(),
                ),
            ),
            r == if old(allocator).accounts().freeable_prefix(
                self.buffer() as int / 0x1000,
                self.buffer_pages(),
            ) == self.buffer_pages() {
                Ok::<(), AllocError>(())
            } else {
                Err(AllocError::DoubleFree)
            },
    {
        allocator.free_pages(self.buffer_address, self.num_pages)
    }
}

/// A cursor over the regions of a memory map.
pub struct EfiMemoryMapIterator<'a> {
    memory_map: &'a EfiMemoryMap,
    current_index: usize,
    max_index: usize,
}

impl<'a> EfiMemoryMapIterator<'a> {
    /// The map that the cursor runs over.
    pub closed spec fn map(&self) -> &'a EfiMemoryMap {
        self.memory_map
    }

    /// The index of the region that comes next.
    pub closed spec fn position(&self) -> int {
        self.current_index as int
    }

    /// The index at which the cursor stops.
    pub closed spec fn end(&self) -> int {
        self.max_index as int
    }

    /// The region under the cursor, which then moves on; none at the end
    /// of the map.
    pub fn next(&mut self) -> (r: Option<EfiMemoryDescriptor>)
        ensures
            final(self).map() == old(self).map(),
            final(self).end() == old(self).end(),
            r == if old(self).position() < old(self).end() && old(self).position() < old(
                self,
            ).map()@.len() {
                Some(old(self).map()@[old(self).position()])
            } else {
                None::<EfiMemoryDescriptor>
            },
            final(self).position() == if r is Some {
                old(self).position() + 1
            } else {
                old(self).position()
            },
    {
        if self.current_index >= self.max_index {
            return None;
        }
        match self.memory_map.get_descriptor(self.current_index) {
            Ok(descriptor) => {
                self.current_index += 1;
                Some(descriptor)
            },
            Err(_) => None,
        }
    }
}

} // verus!
