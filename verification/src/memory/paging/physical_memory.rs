//! The frames of physical memory that hold page tables, as the page-table
//! manager reads and writes them.
use crate::memory::address::PhysicalAddress;
use crate::memory::paging::page_table::{unused_table, PageTable, PageTableEntry};
use std::collections::HashMap;
use vstd::prelude::*;
use vstd::std_specs::iter::IteratorSpec;

verus! {

broadcast use vstd::std_specs::hash::group_hash_axioms;

/// The number of the 4 KiB frame that `addr` lies in.
pub open spec fn frame_of(addr: u64) -> int {
    addr as int / 0x1000
}

/// Every frame number has a table of 512 entries.
pub open spec fn is_memory(m: Map<int, Seq<u64>>) -> bool {
    &&& forall|f: int| #[trigger] m.dom().contains(f)
    &&& forall|f: int| (#[trigger] m[f]).len() == 512
}

/// Page-table memory by frame number. A frame that was never written reads
/// as a table of unused entries.
pub struct PhysicalMemory {
    frames: HashMap<u64, PageTable>,
}

impl View for PhysicalMemory {
    type V = Map<int, Seq<u64>>;

    /// For every frame number the 512 entries that the frame holds.
    closed spec fn view(&self) -> Map<int, Seq<u64>> {
        Map::new(
            |f: int| true,
            |f: int|
                if 0 <= f <= u64::MAX && self.frames@.contains_key(f as u64) {
                    self.frames@[f as u64]@
                } else {
                    unused_table()
                },
        )
    }
}

impl PhysicalMemory {
    /// Every frame number has a table, and every table has 512 entries.
    pub broadcast proof fn lemma_total(&self, f: int)
        ensures
            #![trigger self@[f]]
            self@.dom().contains(f),
            self@[f].len() == 512,
    {
    }

    /// The view has a table of 512 entries for every frame number.
    pub proof fn lemma_is_memory(&self)
        ensures
            is_memory(self@),
    {
    }

    /// Memory in which no frame was written yet.
    pub fn new() -> (r: PhysicalMemory)
        ensures
            forall|f: int| #[trigger] r@[f] == unused_table(),
    {
        PhysicalMemory { frames: HashMap::new() }
    }

    /// The numbers of the frames that were written, each once and in no
    /// particular order: every frame that does not read as a table of
    /// unused entries is among them.
    pub fn frames_written(&self) -> (r: Vec<u64>)
        ensures
            forall|f: int|
                #[trigger] self@[f] != unused_table() ==> 0 <= f <= u64::MAX && r@.contains(
                    f as u64,
                ),
            r@.no_duplicates(),
    {
        let mut r: Vec<u64> = Vec::new();
        let keys = self.frames.keys();
        let ghost all = keys.remaining().unref();
        proof {
            vstd::std_specs::hash::axiom_spec_keys_iter(&self.frames);
        }
        for key in iter: keys
            invariant
                r@.len() == iter.index(),
                forall|j: int| 0 <= j < r@.len() ==> r@[j] == *iter.seq()[j],
        {
            r.push(*key);
        }
        proof {
            assert(r@ =~= all);
            assert forall|f: int| #[trigger] self@[f] != unused_table() implies 0 <= f <= u64::MAX
                && r@.contains(f as u64) by {
                assert(self.frames@.dom().contains(f as u64));
                assert(all.to_set().contains(f as u64));
            }
        }
        r
    }

    /// A copy of the table in the frame of `address`.
    pub fn read_table(&self, address: PhysicalAddress) -> (r: PageTable)
        ensures
            r@ == self@[frame_of(address.value())],
    {
        let key: u64 = address.as_u64() / 0x1000;
        match self.frames.get(&key) {
            Some(table) => *table,
            None => PageTable::default(),
        }
    }

    /// Puts `table` into the frame of `address`.
    pub fn write_table(&mut self, address: PhysicalAddress, table: PageTable)
        ensures
            final(self)@ == old(self)@.insert(frame_of(address.value()), table@),
    {
        let key: u64 = address.as_u64() / 0x1000;
        self.frames.insert(key, table);
        assert(self@ =~= old(self)@.insert(frame_of(address.value()), table@));
    }

    /// The entry at `index` of the table in the frame of `address`.
    pub fn read_entry(&self, address: PhysicalAddress, index: usize) -> (r: PageTableEntry)
        requires
            index < 512,
        ensures
            r.value() == self@[frame_of(address.value())][index as int],
    {
        let key: u64 = address.as_u64() / 0x1000;
        match self.frames.get(&key) {
            Some(table) => table.get_entry(index),
            None => PageTableEntry::default(),
        }
    }

    /// Replaces the entry at `index` of the table in the frame of `address`.
    pub fn write_entry(&mut self, address: PhysicalAddress, index: usize, entry: PageTableEntry)
        requires
            index < 512,
        ensures
            final(self)@ == old(self)@.insert(
                frame_of(address.value()),
                old(self)@[frame_of(address.value())].update(index as int, entry.value()),
            ),
    {
        let mut table = self.read_table(address);
        table.set_entry(index, entry);
        self.write_table(address, table);
    }

    /// Clears every entry of the table in the frame of `address`.
    pub fn clear_table(&mut self, address: PhysicalAddress)
        ensures
            final(self)@ == old(self)@.insert(frame_of(address.value()), unused_table()),
    {
        let mut table = self.read_table(address);
        table.make_unused();
        self.write_table(address, table);
    }
}

} // verus!
