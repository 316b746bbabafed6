//! The extended system description table: a header and the 64-bit physical
//! addresses of further tables.
use crate::acpi::rsdt::{entries_in, SystemDescriptionTable, TABLE_HEADER_SIZE};
use crate::elf::{le_u32, le_u64, read_u32, read_u64};
use vstd::prelude::*;

verus! {

/// The extended system description table, as the bytes that it is made of.
#[derive(Debug)]
pub struct ExtendedSystemDescriptionTable {
    table: Vec<u8>,
    mem_offset: u64,
}

impl ExtendedSystemDescriptionTable {
    /// The bytes of the table.
    pub closed spec fn bytes(&self) -> Seq<u8> {
        self.table@
    }

    /// The offset at which physical memory is mapped.
    pub closed spec fn offset(&self) -> u64 {
        self.mem_offset
    }

    pub fn new(table: Vec<u8>, offset: u64) -> (r: ExtendedSystemDescriptionTable)
        ensures
            r.bytes() == table@,
            r.offset() == offset,
    {
        ExtendedSystemDescriptionTable { table, mem_offset: offset }
    }

    pub fn num_entries(&self) -> (r: usize)
        ensures
            r == entries_in(self.bytes(), 8),
    {
        let available = self.table.len();
        if available < TABLE_HEADER_SIZE {
            return 0;
        }
        let table_len = read_u32(self.table.as_slice(), 4) as u64;
        if table_len < TABLE_HEADER_SIZE as u64 {
            return 0;
        }
        if table_len <= available as u64 {
            ((table_len as usize) - TABLE_HEADER_SIZE) / 8
        } else {
            (available - TABLE_HEADER_SIZE) / 8
        }
    }

    /// The table that entry `index` points at.
    pub fn get_entry(&self, index: usize) -> (r: Option<SystemDescriptionTable>)
        ensures
            r == if index < entries_in(self.bytes(), 8) {
                Some(
                    SystemDescriptionTable {
                        physical_address: le_u64(self.bytes(), 36 + 8 * index) as u64,
                        mem_offset: self.offset(),
                    },
                )
            } else {
                None::<SystemDescriptionTable>
            },
    {
        if index >= self.num_entries() {
            return None;
        }
        let entry = read_u64(self.table.as_slice(), TABLE_HEADER_SIZE + 8 * index);
        Some(SystemDescriptionTable::new(entry, self.mem_offset))
    }

    /// A cursor at the first entry.
    pub fn iter(&self) -> (r: ExtendedSystemDescriptionTableIterator<'_>)
        ensures
            r.table() == self,
            r.position() == 0,
            r.end() == entries_in(self.bytes(), 8),
    {
        ExtendedSystemDescriptionTableIterator {
            xsdt: self,
            current_index: 0,
            max_index: self.num_entries(),
        }
    }
}

/// A cursor over the entries of an extended root table.
pub struct ExtendedSystemDescriptionTableIterator<'a> {
    xsdt: &'a ExtendedSystemDescriptionTable,
    current_index: usize,
    max_index: usize,
}

impl<'a> ExtendedSystemDescriptionTableIterator<'a> {
    /// The table that the cursor runs over.
    pub closed spec fn table(&self) -> &'a ExtendedSystemDescriptionTable {
        self.xsdt
    }

    /// The index of the entry that comes next.
    pub closed spec fn position(&self) -> int {
        self.current_index as int
    }

    /// The index at which the cursor stops.
    pub closed spec fn end(&self) -> int {
        self.max_index as int
    }

    /// The table that the entry under the cursor points at; the cursor
    /// then moves on. None at the end of the table.
    pub fn next(&mut self) -> (r: Option<SystemDescriptionTable>)
        ensures
            final(self).table() == old(self).table(),
            final(self).end() == old(self).end(),
            r == if old(self).position() != old(self).end() && old(self).position() < entries_in(
                old(self).table().bytes(),
                8,
            ) {
                Some(
                    SystemDescriptionTable {
                        physical_address: le_u64(
                            old(self).table().bytes(),
                            36 + 8 * old(self).position(),
                        ) as u64,
                        mem_offset: old(self).table().offset(),
                    },
                )
            } else {
                None::<SystemDescriptionTable>
            },
            final(self).position() == if r is Some {
                old(self).position() + 1
            } else {
                old(self).position()
            },
    {
        if self.current_index == self.max_index {
            return None;
        }
        let count = self.xsdt.num_entries();
        if self.current_index < count {
            let output = self.xsdt.get_entry(self.current_index);
            self.current_index += 1;
            output
        } else {
            None
        }
    }
}

} // verus!
