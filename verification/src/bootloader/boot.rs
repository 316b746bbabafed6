//! The layout of the address space that the bootloader builds before it
//! hands over to the kernel.
use crate::bootinfo::handoff::BootInfo;
use crate::bootloader::loaded_asset_list::{LoadedAsset, LoadedAssetList};
use crate::memory::address::{
    canonical_form, lemma_canonical_form, lemma_page_base, lemma_physical_frame, physical_frame,
    PhysicalAddress, VirtualAddress, MAX_VIRTUAL_ADDRESS, PAGE_SIZE,
};
use crate::memory::paging::page_table_manager::lookup_p4;
use crate::memory::paging::page_frame_allocator::{AllocError, FrameAllocator};
use crate::memory::paging::page_table::unused_table;
use crate::memory::paging::page_table_manager::{
    maps_pages, maps_run, pages_found, PageTableManager, MAX_MEM_SIZE, MEM_1G,
};
use crate::memory::paging::table_tree::{lemma_same_page, outside_pages, same_page, tree_ok};
use crate::memory::paging::physical_memory::{frame_of, PhysicalMemory};
use vstd::prelude::*;

verus! {

/// Why the address space could not be built.
#[derive(Debug, Clone, Copy, PartialEq, Eq, Structural)]
pub enum BootError {
    /// Physical memory reaches beyond 512 GiB.
    MemoryTooLarge,
    /// The allocator gave no frame for a page table.
    Alloc(AllocError),
}

/// The lowest virtual base of an asset, and the highest virtual address
/// where there is no asset.
pub open spec fn lowest_base(assets: Seq<LoadedAsset>) -> u64
    decreases assets.len(),
{
    if assets.len() == 0 {
        0xFFFF_FFFF_FFFF_FFFF
    } else {
        let before = lowest_base(assets.drop_last());
        if assets.last().virtual_address.value() < before {
            assets.last().virtual_address.value()
        } else {
            before
        }
    }
}

/// The base of the kernel: the lowest virtual address at which an asset is
/// to be mapped.
pub fn kernel_base_address(assets: &LoadedAssetList) -> (r: VirtualAddress)
    ensures
        r.value() == lowest_base(assets@),
{
    proof {
        lemma_page_base(0xFFFF_FFFF_FFFF_FFFF);
    }
    let mut kernel_base_address = VirtualAddress::new(MAX_VIRTUAL_ADDRESS);
    let count = assets.size();
    let mut index: usize = 0;
    while index < count
        invariant
            index <= count,
            count == assets@.len(),
            kernel_base_address.value() == lowest_base(assets@.subrange(0, index as int)),
        decreases count - index,
    {
        proof {
            assert(assets@.subrange(0, index + 1).drop_last() =~= assets@.subrange(
                0,
                index as int,
            ));
        }
        match assets.get_asset(index) {
            Some(asset) => {
                if asset.virtual_address.as_u64() < kernel_base_address.as_u64() {
                    kernel_base_address = asset.virtual_address;
                }
            },
            None => {},
        }
        index += 1;
    }
    proof {
        assert(assets@.subrange(0, count as int) =~= assets@);
    }
    kernel_base_address
}

/// The first page beyond what is mapped: `cursor`, or the end of an asset
/// where that lies higher, the end taken in canonical form.
pub open spec fn page_after(assets: Seq<LoadedAsset>, cursor: u64) -> int
    decreases assets.len(),
{
    if assets.len() == 0 {
        cursor as int
    } else {
        let before = page_after(assets.drop_last(), cursor);
        let end = canonical_form(
            (assets.last().virtual_address.value() + assets.last().num_pages * 0x1000) as u64,
        );
        if end > before {
            end as int
        } else {
            before
        }
    }
}

/// The first page of the kernel's virtual arena that lies beyond `cursor`
/// and beyond every asset.
pub fn next_page_after_assets(assets: &LoadedAssetList, cursor: VirtualAddress) -> (r:
    VirtualAddress)
    requires
        forall|i: int|
            0 <= i < assets@.len() ==> (#[trigger] assets@[i]).virtual_address.value()
                + assets@[i].num_pages * 0x1000 <= u64::MAX,
    ensures
        r.value() == page_after(assets@, cursor.value()),
{
    let mut next = cursor;
    let count = assets.size();
    let mut index: usize = 0;
    while index < count
        invariant
            index <= count,
            count == assets@.len(),
            forall|i: int|
                0 <= i < assets@.len() ==> (#[trigger] assets@[i]).virtual_address.value()
                    + assets@[i].num_pages * 0x1000 <= u64::MAX,
            next.value() == page_after(assets@.subrange(0, index as int), cursor.value()),
        decreases count - index,
    {
        proof {
            assert(assets@.subrange(0, index + 1).drop_last() =~= assets@.subrange(
                0,
                index as int,
            ));
            assert(assets@[index as int].virtual_address.value() + assets@[index as int].num_pages
                * 0x1000 <= u64::MAX);
        }
        match assets.get_asset(index) {
            Some(asset) => {
                let max_address = asset.virtual_address.increment_pages(asset.num_pages as u64);
                if max_address.as_u64() > next.as_u64() {
                    next = max_address;
                }
            },
            None => {},
        }
        index += 1;
    }
    proof {
        assert(assets@.subrange(0, count as int) =~= assets@);
    }
    next
}

/// The offset at which all of physical memory is mapped a second time:
/// the kernel's base less the size of physical memory rounded up to whole
/// gibibytes, or 0 where the base does not lie above that size.
pub open spec fn direct_map_offset(max_physical: u64, kernel_base: u64) -> int {
    let reserved = ((max_physical + 0x3FFF_FFFF) / 0x4000_0000) * 0x4000_0000;
    if reserved < kernel_base {
        kernel_base - reserved
    } else {
        0
    }
}

/// A second mapping of `max_physical` bytes at the canonical form of the
/// offset ends within 64 bits.
proof fn lemma_offset_range(max_physical: u64, kernel_base: u64, reserved: u64)
    requires
        kernel_base < 0x8000_0000_0000 || kernel_base >= 0xFFFF_8000_0000_0000,
        max_physical <= reserved,
        reserved <= 0x80_0000_0000,
        reserved < kernel_base,
    ensures
        canonical_form((kernel_base - reserved) as u64) + max_physical <= u64::MAX,
{
    let offset = (kernel_base - reserved) as u64;
    assert({
        let c = if offset & 0x8000_0000_0000 != 0 {
            (offset & 0x0000_FFFF_FFFF_FFFF) | 0xFFFF_0000_0000_0000
        } else {
            offset & 0x0000_FFFF_FFFF_FFFF
        };
        c + max_physical <= 0xFFFF_FFFF_FFFF_FFFF
    }) by (bit_vector)
        requires
            kernel_base < 0x8000_0000_0000 || kernel_base >= 0xFFFF_8000_0000_0000,
            max_physical <= reserved,
            reserved <= 0x80_0000_0000,
            reserved < kernel_base,
            offset == kernel_base - reserved,
    ;
}

/// The direct-map offset for physical memory of `max_physical` bytes and a
/// kernel at `kernel_base`: see `direct_map_offset`.
pub fn choose_direct_map_offset(max_physical: u64, kernel_base: u64) -> (r: u64)
    requires
        max_physical <= 0x80_0000_0000,
        canonical_form(kernel_base) == kernel_base,
    ensures
        r == direct_map_offset(max_physical, kernel_base),
        canonical_form(r) + max_physical <= u64::MAX,
{
    let num_gb = (max_physical + MEM_1G - 1) / MEM_1G;
    proof {
        lemma_page_base(kernel_base);
        lemma_page_base(0);
    }
    if num_gb * MEM_1G < kernel_base {
        proof {
            lemma_offset_range(max_physical, kernel_base, (num_gb * MEM_1G) as u64);
        }
        kernel_base - num_gb * MEM_1G
    } else {
        0
    }
}

/// The tables `after` are the tables `before` with the first `pages` pages
/// of physical memory mapped to themselves and, where `offset` is not 0,
/// mapped a second time from the canonical form of `offset` on.
pub open spec fn address_space_built(
    before: Map<int, Seq<u64>>,
    used: Set<int>,
    after: Map<int, Seq<u64>>,
    used_after: Set<int>,
    root: int,
    offset: u64,
    pages: int,
) -> bool {
    exists|identity: Map<int, Seq<u64>>, used_identity: Set<int>|
        {
            &&& #[trigger] maps_run(before, used, identity, used_identity, root, 0, 0, pages)
            &&& if offset == 0 {
                after == identity && used_after == used_identity
            } else {
                maps_run(
                    identity,
                    used_identity,
                    after,
                    used_after,
                    root,
                    canonical_form(offset),
                    0,
                    pages,
                )
            }
        }
}

/// A page of physical memory below `max_physical` lies in none of the
/// pages of a second mapping that starts at a canonical address `second`
/// not below `max_physical`.
proof fn lemma_identity_outside(max_physical: u64, second: u64, page: int)
    requires
        max_physical <= 0x80_0000_0000,
        canonical_form(second) == second,
        second >= max_physical,
        second + max_physical <= u64::MAX,
        0 <= page < max_physical / 0x1000,
    ensures
        outside_pages((page * 0x1000) as u64, second, max_physical as int / 0x1000),
{
    let w = (page * 0x1000) as u64;
    lemma_page_base(second);
    assert forall|k: int| 0 <= k < max_physical as int / 0x1000 implies !#[trigger] same_page(
        w,
        (second + k * 0x1000) as u64,
    ) by {
        let x = (second + k * 0x1000) as u64;
        if second < 0x8000_0000_0000 {
            lemma_same_page(w, x);
        } else {
            assert((w / 0x80_0000_0000) % 512 != (x / 0x80_0000_0000) % 512) by (bit_vector)
                requires
                    w < 0x80_0000_0000,
                    x >= 0xFFFF_8000_0000_0000,
            ;
        }
    }
}

/// Builds the page tables of the kernel's address space: a new root table,
/// every page of physical memory below `max_physical_address` mapped to
/// itself, and, where the kernel's base leaves room for it below, every
/// page mapped a second time from the direct-map offset on. Gives the
/// manager of the tables, which still reads them at offset 0, and the
/// offset. Fails with `MemoryTooLarge`, with nothing changed and the
/// allocator left as it was, where physical memory reaches beyond 512 GiB;
/// else it fails only where the allocator runs out of frames, with the
/// allocator's error.
pub fn init_page_table_manager<A: FrameAllocator>(
    memory: &mut PhysicalMemory,
    allocator: &mut A,
    max_physical_address: PhysicalAddress,
    kernel_base_address: VirtualAddress,
) -> (r: Result<(PageTableManager, u64), BootError>)
    requires
        old(allocator).valid(),
    ensures
        final(allocator).valid(),
        old(allocator).used_frames().subset_of(final(allocator).used_frames()),
        max_physical_address.value() > 0x80_0000_0000 ==> {
            &&& r == Err::<(PageTableManager, u64), BootError>(BootError::MemoryTooLarge)
            &&& final(memory)@ == old(memory)@
            &&& final(allocator).used_frames() == old(allocator).used_frames()
            &&& *final(allocator) == *old(allocator)
        },
        max_physical_address.value() <= 0x80_0000_0000 && r is Err ==> r->Err_0 is Alloc,
        r matches Err(BootError::Alloc(e)) ==> final(allocator).request_outcome() == Err::<
            u64,
            AllocError,
        >(e),
        r matches Ok(built) ==> {
            &&& built.1 == direct_map_offset(
                max_physical_address.value(),
                kernel_base_address.value(),
            )
            &&& built.0.direct_map_offset() == 0
            &&& !old(allocator).used_frames().contains(frame_of(built.0.root()))
        },
        r matches Ok(built) ==> {
            &&& tree_ok(
                final(memory)@,
                frame_of(built.0.root()),
                final(allocator).used_frames(),
            )
            &&& built.1 != 0 ==> pages_found(
                final(memory)@,
                frame_of(built.0.root()),
                canonical_form(built.1),
                0,
                max_physical_address.value() as int / 0x1000,
            )
            &&& built.1 == 0 || canonical_form(built.1) >= max_physical_address.value()
                ==> pages_found(
                final(memory)@,
                frame_of(built.0.root()),
                0,
                0,
                max_physical_address.value() as int / 0x1000,
            )
        },
        r matches Ok(built) ==> address_space_built(
            old(memory)@.insert(frame_of(built.0.root()), unused_table()),
            old(allocator).used_frames().insert(frame_of(built.0.root())),
            final(memory)@,
            final(allocator).used_frames(),
            frame_of(built.0.root()),
            built.1,
            max_physical_address.value() as int / 0x1000,
        ),
{
    if max_physical_address.as_u64() > MAX_MEM_SIZE {
        return Err(BootError::MemoryTooLarge);
    }
    let page_table_manager = match PageTableManager::new_from_allocator(memory, allocator, 0) {
        Ok(manager) => manager,
        Err(e) => {
            return Err(BootError::Alloc(e));
        },
    };
    let ghost root = frame_of(page_table_manager.root());
    let ghost started = memory@;
    let ghost used_started = allocator.used_frames();
    proof {
        lemma_page_base(0);
        lemma_physical_frame(0);
    }
    let num_mem_pages = max_physical_address.as_u64() / PAGE_SIZE;
    match page_table_manager.map_memory_pages(
        memory,
        VirtualAddress::new(0),
        PhysicalAddress::new(0),
        num_mem_pages,
        allocator,
    ) {
        Ok(_) => {},
        Err(e) => {
            return Err(BootError::Alloc(e));
        },
    }
    let ghost identity = memory@;
    let ghost used_identity = allocator.used_frames();
    proof {
        assert(tree_ok(identity, root, used_identity));
        assert(pages_found(identity, root, 0, 0, max_physical_address.value() as int / 0x1000));
    }
    let offset = choose_direct_map_offset(
        max_physical_address.as_u64(),
        kernel_base_address.as_u64(),
    );
    if offset != 0 {
        match page_table_manager.map_memory_pages(
            memory,
            VirtualAddress::new(offset),
            PhysicalAddress::new(0),
            num_mem_pages,
            allocator,
        ) {
            Ok(_) => {},
            Err(e) => {
                return Err(BootError::Alloc(e));
            },
        }
    }
    proof {
        let pages = max_physical_address.value() as int / 0x1000;
        let second = canonical_form(offset);
        if offset != 0 && second >= max_physical_address.value() {
            lemma_canonical_form(offset);
            assert forall|k: int| 0 <= k < pages implies #[trigger] lookup_p4(
                memory@,
                root,
                canonical_form((0 + k * 0x1000) as u64),
            ) == Some(physical_frame((0 + k * 0x1000) as u64)) by {
                let raw = (0 + k * 0x1000) as u64;
                lemma_page_base(raw);
                lemma_identity_outside(max_physical_address.value(), second, k);
                assert(lookup_p4(identity, root, canonical_form(raw)) == Some(
                    physical_frame((0 + k * 0x1000) as u64),
                ));
                assert(lookup_p4(memory@, root, raw) == lookup_p4(identity, root, raw));
            }
        }
        assert(started == old(memory)@.insert(root, unused_table()));
        assert(used_started == old(allocator).used_frames().insert(root));
        assert(maps_run(started, used_started, identity, used_identity, root, 0, 0, pages));
        if offset != 0 {
            assert(maps_run(
                identity,
                used_identity,
                memory@,
                allocator.used_frames(),
                root,
                canonical_form(offset),
                0,
                pages,
            ));
        }
        assert(address_space_built(
            started,
            used_started,
            memory@,
            allocator.used_frames(),
            root,
            offset,
            pages,
        ));
    }
    Ok((page_table_manager, offset))
}

/// Maps `num_pages` pages of physical memory from `physical_address` on at
/// the first free page of the kernel's arena and moves the first free
/// page beyond them, in canonical form. Gives the address at which they
/// are mapped. It
/// fails only where the allocator has no frame left for a table, with the
/// allocator's error; the pages before the one that failed stay mapped,
/// and the first free page stays where it was.
pub fn place_in_kernel_space<A: FrameAllocator>(
    manager: &PageTableManager,
    memory: &mut PhysicalMemory,
    allocator: &mut A,
    bootinfo: &mut BootInfo,
    physical_address: PhysicalAddress,
    num_pages: u64,
) -> (r: Result<VirtualAddress, AllocError>)
    requires
        old(allocator).valid(),
        old(bootinfo).next_availiable_kernel_page.value() + num_pages * 0x1000 <= u64::MAX,
        physical_address.value() + num_pages * 0x1000 <= u64::MAX,
    ensures
        final(allocator).valid(),
        old(allocator).used_frames().subset_of(final(allocator).used_frames()),
        final(bootinfo).magic == old(bootinfo).magic,
        final(bootinfo).framebuffer == old(bootinfo).framebuffer,
        final(bootinfo).page_table_memory_offset == old(bootinfo).page_table_memory_offset,
        final(bootinfo).meminfo == old(bootinfo).meminfo,
        final(bootinfo).font_file_address == old(bootinfo).font_file_address,
        final(bootinfo).font_file_size == old(bootinfo).font_file_size,
        match r {
            Ok(at) => {
                &&& at == old(bootinfo).next_availiable_kernel_page
                &&& final(bootinfo).next_availiable_kernel_page.value() == canonical_form(
                    (at.value() + num_pages * 0x1000) as u64,
                )
                &&& maps_run(
                    old(memory)@,
                    old(allocator).used_frames(),
                    final(memory)@,
                    final(allocator).used_frames(),
                    frame_of(manager.root()),
                    at.value(),
                    physical_address.value(),
                    num_pages as int,
                )
            },
            Err(e) => {
                &&& final(bootinfo).next_availiable_kernel_page == old(
                    bootinfo,
                ).next_availiable_kernel_page
                &&& final(allocator).request_outcome() == Err::<u64, AllocError>(e)
                &&& num_pages > 0
            },
        },
        exists|tables: Seq<Map<int, Seq<u64>>>, used: Seq<Set<int>>|
            {
                &&& #[trigger] maps_pages(
                    tables,
                    used,
                    frame_of(manager.root()),
                    old(bootinfo).next_availiable_kernel_page.value(),
                    physical_address.value(),
                    tables.len() - 1,
                )
                &&& 1 <= tables.len() <= num_pages + 1
                &&& tables[0] == old(memory)@
                &&& used[0] == old(allocator).used_frames()
                &&& used.last().subset_of(final(allocator).used_frames())
                &&& match r {
                    Ok(_) => {
                        &&& tables.len() == num_pages + 1
                        &&& tables.last() == final(memory)@
                        &&& used.last() == final(allocator).used_frames()
                    },
                    Err(_) => {
                        &&& tables.len() <= num_pages
                        &&& forall|f: int|
                            used.last().contains(f) ==> #[trigger] final(memory)@[f]
                                == tables.last()[f]
                    },
                }
            },
        tree_ok(old(memory)@, frame_of(manager.root()), old(allocator).used_frames()) ==> {
            &&& tree_ok(final(memory)@, frame_of(manager.root()), final(allocator).used_frames())
            &&& r is Ok && num_pages <= 0x10_0000_0000 ==> pages_found(
                final(memory)@,
                frame_of(manager.root()),
                old(bootinfo).next_availiable_kernel_page.value(),
                physical_address.value(),
                num_pages as int,
            )
            &&& forall|w: u64|
                lookup_p4(old(memory)@, frame_of(manager.root()), w) is Some && outside_pages(
                    w,
                    old(bootinfo).next_availiable_kernel_page.value(),
                    num_pages as int,
                ) ==> #[trigger] lookup_p4(final(memory)@, frame_of(manager.root()), w)
                    == lookup_p4(old(memory)@, frame_of(manager.root()), w)
        },
{
    let virtual_address = bootinfo.next_availiable_kernel_page;
    match manager.map_memory_pages(memory, virtual_address, physical_address, num_pages, allocator) {
        Ok(_) => {
            bootinfo.next_availiable_kernel_page = virtual_address.increment_pages(num_pages);
            Ok(virtual_address)
        },
        Err(e) => Err(e),
    }
}

} // verus!
