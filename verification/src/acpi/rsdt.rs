//! The root system description table: a header and the 32-bit physical
//! addresses of further tables.
use crate::elf::{le_u32, read_u32};
use vstd::prelude::*;

verus! {

/// The size in bytes of the header that every description table starts
/// with.
pub const TABLE_HEADER_SIZE: usize = 36;

/// A description table that a root table points at: its physical address
/// and the offset at which physical memory is mapped.
#[derive(Copy, Clone, Debug, PartialEq, Eq, Structural)]
pub struct SystemDescriptionTable {
    pub physical_address: u64,
    pub mem_offset: u64,
}

impl SystemDescriptionTable {
    pub fn new(physical_address: u64, mem_offset: u64) -> (r: SystemDescriptionTable)
        ensures
            r.physical_address == physical_address,
            r.mem_offset == mem_offset,
    {
        SystemDescriptionTable { physical_address, mem_offset }
    }
}

/// The number of entries of `size` bytes that a table with the bytes
/// `table` holds: as many as its length field leaves room for behind the
/// header, and as lie within the bytes.
pub open spec fn entries_in(table: Seq<u8>, size: int) -> int {
    if table.len() < 36 || le_u32(table, 4) < 36 {
        0
    } else if le_u32(table, 4) <= table.len() {
        (le_u32(table, 4) - 36) / size
    } else {
        (table.len() - 36) / size
    }
}

/// The root system description table, as the bytes that it is made of.
#[derive(Debug)]
pub struct RootSystemDescriptionTable {
    table: Vec<u8>,
    mem_offset: u64,
}

impl RootSystemDescriptionTable {
    /// The bytes of the table.
    pub closed spec fn bytes(&self) -> Seq<u8> {
        self.table@
    }

    /// The offset at which physical memory is mapped.
    pub closed spec fn offset(&self) -> u64 {
        self.mem_offset
    }

    pub fn new(table: Vec<u8>, offset: u64) -> (r: RootSystemDescriptionTable)
        ensures
            r.bytes() == table@,
            r.offset() == offset,
    {
        RootSystemDescriptionTable { table, mem_offset: offset }
    }

    pub fn num_entries(&self) -> (r: usize)
        ensures
            r == entries_in(self.bytes(), 4),
    {
        let available = self.table.len();
        if available < TABLE_HEADER_SIZE {
            return 0;
        }
        let table_len = read_u32(self.table.as_slice(), 4) as u64;
        if table_len < TABLE_HEADER_SIZE as u64 {
            return 0;
        }
        if table_len <= available as u64 {
            ((table_len as usize) - TABLE_HEADER_SIZE) / 4
        } else {
            (available - TABLE_HEADER_SIZE) / 4
        }
    }

    /// The table that entry `index` points at.
    pub fn get_entry(&self, index: usize) -> (r: Option<SystemDescriptionTable>)
        ensures
            r == if index < entries_in(self.bytes(), 4) {
                Some(
                    SystemDescriptionTable {
                        physical_address: le_u32(self.bytes(), 36 + 4 * index) as u64,
                        mem_offset: self.offset(),
                    },
                )
            } else {
                None::<SystemDescriptionTable>
            },
    {
        if index >= self.num_entries() {
            return None;
        }
        let entry = read_u32(self.table.as_slice(), TABLE_HEADER_SIZE + 4 * index);
        Some(SystemDescriptionTable::new(entry as u64, self.mem_offset))
    }

    /// A cursor at the first entry.
    pub fn iter(&self) -> (r: RootSystemDescriptionTableIterator<'_>)
        ensures
            r.table() == self,
            r.position() == 0,
            r.end() == entries_in(self.bytes(), 4),
    {
        RootSystemDescriptionTableIterator {
            rsdt: self,
            current_index: 0,
            max_index: self.num_entries(),
        }
    }
}

/// A cursor over the entries of a root table.
pub struct RootSystemDescriptionTableIterator<'a> {
    rsdt: &'a RootSystemDescriptionTable,
    current_index: usize,
    max_index: usize,
}

impl<'a> RootSystemDescriptionTableIterator<'a> {
    /// The table that the cursor runs over.
    pub closed spec fn table(&self) -> &'a RootSystemDescriptionTable {
        self.rsdt
    }

    /// The index of the entry that comes next.
    pub closed spec fn position(&self) -> int {
        self.current_index as int
    }

    /// The index at which the cursor stops.
    pub closed spec fn end(&self) -> int {
        self.max_index as int
    }

    /// The table that the entry under the cursor points at; the cursor
    /// then moves on. None at the end of the table.
    pub fn next(&mut self) -> (r: Option<SystemDescriptionTable>)
        ensures
            final(self).table() == old(self).table(),
            final(self).end() == old(self).end(),
            r == if old(self).position() != old(self).end() && old(self).position() < entries_in(
                old(self).table().bytes(),
                4,
            ) {
                Some(
                    SystemDescriptionTable {
                        physical_address: le_u32(
                            old(self).table().bytes(),
                            36 + 4 * old(self).position(),
                        ) as u64,
                        mem_offset: old(self).table().offset(),
                    },
                )
            } else {
                None::<SystemDescriptionTable>
            },
            final(self).position() == if r is Some {
                old(self).position() + 1
            } else {
                old(self).position()
            },
    {
        if self.current_index == self.max_index {
            return None;
        }
        let count = self.rsdt.num_entries();
        if self.current_index < count {
            let output = self.rsdt.get_entry(self.current_index);
            self.current_index += 1;
            output
        } else {
            None
        }
    }
}

} // verus!
