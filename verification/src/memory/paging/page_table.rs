//! The 64-bit page-table entry and the 512-entry table.
use crate::memory::address::{
    lemma_physical_frame, physical_frame, PhysicalAddress, PHYSICAL_ADDRESS_MASK,
};
use vstd::prelude::*;

verus! {

pub const PAGE_TABLE_MAX_INDEX: usize = 511;

pub const PRESENT_FLAG: u64 = 0x1;

pub const READ_WRITE_FLAG: u64 = 0x2;

pub const USER_SUPERVISION_FLAG: u64 = 0x4;

pub const PAGE_SIZE_FLAG: u64 = 0x80;

pub const EXECUTE_DISABLE_FLAG: u64 = 0x8000_0000_0000_0000;

/// All bits of `flags` are set in `entry`.
pub open spec fn has_flags(entry: u64, flags: u64) -> bool {
    entry & flags == flags
}

/// `entry` with the bits of `flags` set or cleared.
pub open spec fn with_flags(entry: u64, flags: u64, value: bool) -> u64 {
    if value {
        entry | flags
    } else {
        entry & !flags
    }
}

/// `entry` with its frame address replaced by `addr`, its other bits kept.
pub open spec fn with_address(entry: u64, addr: u64) -> u64 {
    (entry & !0x000F_FFFF_FFFF_F000u64) | addr
}

/// `entry` made to point at `addr`, present and writable: what a walk
/// leaves in an entry that it fills.
pub open spec fn linked_to(entry: u64, addr: u64) -> u64 {
    with_flags(with_flags(with_address(entry, addr), 0x1, true), 0x2, true)
}

/// An entry that was pointed at a frame is present and writable, holds
/// that frame, and keeps the large-page flag it had.
pub proof fn lemma_linked_to(entry: u64, addr: u64)
    ensures
        has_flags(linked_to(entry, addr), 0x1),
        has_flags(linked_to(entry, addr), 0x2),
        physical_frame(linked_to(entry, addr)) == physical_frame(addr),
        physical_frame(addr) == addr ==> has_flags(linked_to(entry, addr), 0x80) == has_flags(
            entry,
            0x80,
        ),
        physical_frame(addr) == addr ==> linked_to(0, addr) == addr | 0x3,
        !has_flags(0, 0x1),
        !has_flags(0, 0x80),
        physical_frame(0) == 0,
{
    assert({
        let l = (((entry & !0x000F_FFFF_FFFF_F000u64) | addr) | 0x1) | 0x2;
        let z = (((0u64 & !0x000F_FFFF_FFFF_F000u64) | addr) | 0x1) | 0x2;
        &&& l & 0x1 == 0x1
        &&& l & 0x2 == 0x2
        &&& l & 0x000F_FFFF_FFFF_F000 == addr & 0x000F_FFFF_FFFF_F000
        &&& (addr & 0x000F_FFFF_FFFF_F000 == addr ==> ((l & 0x80 == 0x80) == (entry & 0x80 == 0x80)))
        &&& (addr & 0x000F_FFFF_FFFF_F000 == addr ==> z == addr | 0x3)
        &&& 0u64 & 0x1 != 0x1
        &&& 0u64 & 0x80 != 0x80
        &&& 0u64 & 0x000F_FFFF_FFFF_F000 == 0
    }) by (bit_vector);
}

/// One entry of a page table: flag bits and the address of a 4 KiB frame.
#[derive(Clone, Copy, Debug)]
pub struct PageTableEntry {
    entry: u64,
}

impl PageTableEntry {
    /// The 64 bits of the entry.
    pub closed spec fn value(self) -> u64 {
        self.entry
    }

    /// Two entries with the same bits are the same entry.
    pub proof fn lemma_value_decides(self, other: PageTableEntry)
        requires
            self.value() == other.value(),
        ensures
            self == other,
    {
    }

    /// An entry with the given bits.
    pub fn from_bits(entry: u64) -> (r: PageTableEntry)
        ensures
            r.value() == entry,
    {
        PageTableEntry { entry }
    }

    /// The 64 bits of the entry.
    pub fn bits(&self) -> (r: u64)
        ensures
            r == self.value(),
    {
        self.entry
    }

    pub fn is_unused(&self) -> (r: bool)
        ensures
            r == (self.value() == 0),
    {
        self.entry == 0
    }

    pub fn make_unused(&mut self)
        ensures
            final(self).value() == 0,
    {
        self.entry = 0
    }

    pub fn present(&self) -> (r: bool)
        ensures
            r == has_flags(self.value(), 0x1),
    {
        self.are_flag_set(PRESENT_FLAG)
    }

    pub fn set_present(&mut self, value: bool)
        ensures
            final(self).value() == with_flags(old(self).value(), 0x1, value),
    {
        self.set_flags(PRESENT_FLAG, value);
    }

    pub fn read_write(&self) -> (r: bool)
        ensures
            r == has_flags(self.value(), 0x2),
    {
        self.are_flag_set(READ_WRITE_FLAG)
    }

    pub fn set_read_write(&mut self, value: bool)
        ensures
            final(self).value() == with_flags(old(self).value(), 0x2, value),
    {
        self.set_flags(READ_WRITE_FLAG, value);
    }

    pub fn page_size(&self) -> (r: bool)
        ensures
            r == has_flags(self.value(), 0x80),
    {
        self.are_flag_set(PAGE_SIZE_FLAG)
    }

    pub fn set_page_size(&mut self, value: bool)
        ensures
            final(self).value() == with_flags(old(self).value(), 0x80, value),
    {
        self.set_flags(PAGE_SIZE_FLAG, value);
    }

    /// The frame that the entry points at.
    pub fn address(&self) -> (r: PhysicalAddress)
        ensures
            r.value() == physical_frame(self.value()),
            r.is_frame(),
    {
        proof {
            lemma_physical_frame(self.entry);
        }
        PhysicalAddress::new(self.entry & PHYSICAL_ADDRESS_MASK)
    }

    /// Replaces the frame address and keeps the flag bits.
    pub fn set_address(&mut self, addr: PhysicalAddress)
        ensures
            final(self).value() == with_address(old(self).value(), addr.value()),
    {
        self.entry = (self.entry & !PHYSICAL_ADDRESS_MASK) | addr.as_u64();
    }

    pub fn are_flag_set(&self, flags: u64) -> (r: bool)
        ensures
            r == has_flags(self.value(), flags),
    {
        (self.entry & flags) == flags
    }

    pub fn set_flags(&mut self, flags: u64, value: bool)
        ensures
            final(self).value() == with_flags(old(self).value(), flags, value),
    {
        if value {
            self.entry = self.entry | flags;
        } else {
            self.entry = self.entry & !flags;
        }
    }
}

impl Default for PageTableEntry {
    fn default() -> (r: Self)
        ensures
            r.value() == 0,
    {
        PageTableEntry { entry: 0 }
    }
}

/// A page table: 512 entries.
#[derive(Clone, Copy, Debug)]
pub struct PageTable {
    pub table: [PageTableEntry; 512],
}

impl View for PageTable {
    type V = Seq<u64>;

    /// The bits of the 512 entries, in index order.
    open spec fn view(&self) -> Seq<u64> {
        Seq::new(512, |i: int| self.table@[i].value())
    }
}

impl PageTable {
    /// Clears every entry.
    pub fn make_unused(&mut self)
        ensures
            final(self)@ == unused_table(),
    {
        let mut i: usize = 0;
        while i < 512
            invariant
                i <= 512,
                forall|k: int| 0 <= k < i ==> self.table@[k].value() == 0,
            decreases 512 - i,
        {
            self.table[i] = PageTableEntry::default();
            i += 1;
        }
        assert(self@ =~= unused_table());
    }

    pub fn copy_from(&mut self, other_page_table: &PageTable)
        ensures
            final(self)@ == other_page_table@,
            *final(self) == *other_page_table,
    {
        self.table = other_page_table.table;
    }

    pub fn get_entry(&self, index: usize) -> (r: PageTableEntry)
        requires
            index < 512,
        ensures
            r.value() == self@[index as int],
            r == self.table@[index as int],
    {
        self.table[index]
    }

    pub fn set_entry(&mut self, index: usize, entry: PageTableEntry)
        requires
            index < 512,
        ensures
            final(self)@ == old(self)@.update(index as int, entry.value()),
            final(self).table@ == old(self).table@.update(index as int, entry),
    {
        self.table[index] = entry;
        assert(self@ =~= old(self)@.update(index as int, entry.value()));
    }
}

/// The view of a table whose entries are all unused.
pub open spec fn unused_table() -> Seq<u64> {
    Seq::new(512, |i: int| 0u64)
}

impl Default for PageTable {
    fn default() -> (r: Self)
        ensures
            r@ == unused_table(),
    {
        let blank_entry = PageTableEntry::default();
        let r = PageTable { table: [blank_entry;512] };
        assert(r@ =~= unused_table());
        r
    }
}

} // verus!
