//! The firmware's configuration table: vendor tables found by their GUID.
use vstd::prelude::*;

verus! {

/// The sixteen bytes of a GUID with the given fields: the first three
/// fields least significant byte first, the rest in the order given.
pub open spec fn guid_layout(
    time_low: u32,
    time_mid: u16,
    time_hi_and_version: u16,
    clk_seq_hi_res: u8,
    clk_seq_low: u8,
    node: Seq<u8>,
) -> Seq<u8> {
    seq![
        (time_low % 0x100) as u8,
        (time_low / 0x100 % 0x100) as u8,
        (time_low / 0x1_0000 % 0x100) as u8,
        (time_low / 0x100_0000) as u8,
        (time_mid % 0x100) as u8,
        (time_mid / 0x100) as u8,
        (time_hi_and_version % 0x100) as u8,
        (time_hi_and_version / 0x100) as u8,
        clk_seq_hi_res,
        clk_seq_low,
        node[0],
        node[1],
        node[2],
        node[3],
        node[4],
        node[5],
    ]
}

/// The bytes of the GUID that `r_efi::efi::Guid::from_fields` builds from
/// the given fields, read with `Guid::as_bytes`. The contract claims the
/// layout that the source of `from_fields` shows: the 32-bit and the two
/// 16-bit fields are stored least significant byte first, the two clock
/// bytes and the six node bytes as they are given.
#[verifier::external_body]
fn guid_bytes(
    time_low: u32,
    time_mid: u16,
    time_hi_and_version: u16,
    clk_seq_hi_res: u8,
    clk_seq_low: u8,
    node: &[u8; 6],
) -> (r: [u8; 16])
    ensures
        r@ == guid_layout(
            time_low,
            time_mid,
            time_hi_and_version,
            clk_seq_hi_res,
            clk_seq_low,
            node@,
        ),
{
    *r_efi::efi::Guid::from_fields(
        time_low,
        time_mid,
        time_hi_and_version,
        clk_seq_hi_res,
        clk_seq_low,
        node,
    ).as_bytes()
}

/// The GUID of the ACPI 1.0 root pointer:
/// EB9D2D30-2D88-11D3-9A16-0090273FC14D.
pub open spec fn acpi_v1_guid() -> Seq<u8> {
    seq![
        0x30u8,
        0x2Du8,
        0x9Du8,
        0xEBu8,
        0x88u8,
        0x2Du8,
        0xD3u8,
        0x11u8,
        0x9Au8,
        0x16u8,
        0x00u8,
        0x90u8,
        0x27u8,
        0x3Fu8,
        0xC1u8,
        0x4Du8,
    ]
}

/// The GUID of the ACPI 2.0 root pointer:
/// 8868E871-E4F1-11D3-BC22-0080C73C8881.
pub open spec fn acpi_v2_guid() -> Seq<u8> {
    seq![
        0x71u8,
        0xE8u8,
        0x68u8,
        0x88u8,
        0xF1u8,
        0xE4u8,
        0xD3u8,
        0x11u8,
        0xBCu8,
        0x22u8,
        0x00u8,
        0x80u8,
        0xC7u8,
        0x3Cu8,
        0x88u8,
        0x81u8,
    ]
}

#[derive(PartialEq, Eq, Structural, Debug, Clone, Copy)]
pub enum TableType {
    AcpiV1_0,
    AcpiV2_0,
    Unknown,
}

/// The kind of table that a vendor GUID stands for.
pub open spec fn table_type_of(guid: Seq<u8>) -> TableType {
    if guid == acpi_v1_guid() {
        TableType::AcpiV1_0
    } else if guid == acpi_v2_guid() {
        TableType::AcpiV2_0
    } else {
        TableType::Unknown
    }
}

/// Whether two GUIDs are the same sixteen bytes.
pub fn same_guid(a: &[u8; 16], b: &[u8; 16]) -> (r: bool)
    ensures
        r == (a@ == b@),
{
    let mut index: usize = 0;
    while index < 16
        invariant
            index <= 16,
            forall|k: int| 0 <= k < index ==> a@[k] == b@[k],
        decreases 16 - index,
    {
        if a[index] != b[index] {
            return false;
        }
        index += 1;
    }
    assert(a@ =~= b@);
    true
}

/// One entry of the configuration table: the GUID of a vendor table and
/// the address at which the table lies.
#[derive(Clone, Copy, Debug)]
pub struct ConfigurationTableEntry {
    pub vendor_guid: [u8; 16],
    pub vendor_table: u64,
}

impl ConfigurationTableEntry {
    pub fn new(vendor_guid: [u8; 16], vendor_table: u64) -> (r: ConfigurationTableEntry)
        ensures
            r.vendor_guid == vendor_guid,
            r.vendor_table == vendor_table,
    {
        ConfigurationTableEntry { vendor_guid, vendor_table }
    }

    /// The kind of table that the entry points at.
    pub fn get_type(&self) -> (r: TableType)
        ensures
            r == table_type_of(self.vendor_guid@),
    {
        let node_v1: [u8; 6] = [0x00, 0x90, 0x27, 0x3F, 0xC1, 0x4D];
        let node_v2: [u8; 6] = [0x00, 0x80, 0xC7, 0x3C, 0x88, 0x81];
        let acpi_v1 = guid_bytes(0xEB9D2D30, 0x2D88, 0x11D3, 0x9A, 0x16, &node_v1);
        let acpi_v2 = guid_bytes(0x8868E871, 0xE4F1, 0x11D3, 0xBC, 0x22, &node_v2);
        proof {
            assert(acpi_v1@ =~= acpi_v1_guid());
            assert(acpi_v2@ =~= acpi_v2_guid());
        }
        if same_guid(&self.vendor_guid, &acpi_v1) {
            TableType::AcpiV1_0
        } else if same_guid(&self.vendor_guid, &acpi_v2) {
            TableType::AcpiV2_0
        } else {
            TableType::Unknown
        }
    }

    /// The address of the ACPI 1.0 root pointer, where the entry points at
    /// one.
    pub fn get_rsdp_v1(&self) -> (r: Option<u64>)
        ensures
            r == if table_type_of(self.vendor_guid@) == TableType::AcpiV1_0 {
                Some(self.vendor_table)
            } else {
                None::<u64>
            },
    {
        if self.get_type() == TableType::AcpiV1_0 {
            return Some(self.vendor_table);
        }
        None
    }

    /// The address of the ACPI 2.0 root pointer, where the entry points at
    /// one.
    pub fn get_rsdp_v2(&self) -> (r: Option<u64>)
        ensures
            r == if table_type_of(self.vendor_guid@) == TableType::AcpiV2_0 {
                Some(self.vendor_table)
            } else {
                None::<u64>
            },
    {
        if self.get_type() == TableType::AcpiV2_0 {
            return Some(self.vendor_table);
        }
        None
    }
}

/// The index of the first entry of `entries` that points at a table of
/// kind `kind`, or the number of entries where none does.
pub open spec fn first_of_type(entries: Seq<ConfigurationTableEntry>, kind: TableType) -> int
    decreases entries.len(),
{
    if entries.len() == 0 {
        0
    } else if table_type_of(entries[0].vendor_guid@) == kind {
        0
    } else {
        1 + first_of_type(entries.subrange(1, entries.len() as int), kind)
    }
}

/// The configuration table of the firmware.
#[derive(Debug)]
pub struct ConfigurationTable {
    entries: Vec<ConfigurationTableEntry>,
}

impl View for ConfigurationTable {
    type V = Seq<ConfigurationTableEntry>;

    closed spec fn view(&self) -> Seq<ConfigurationTableEntry> {
        self.entries@
    }
}

impl ConfigurationTable {
    pub fn new(entries: Vec<ConfigurationTableEntry>) -> (r: ConfigurationTable)
        ensures
            r@ == entries@,
    {
        ConfigurationTable { entries }
    }

    fn find(&self, kind: TableType) -> (r: Option<u64>)
        ensures
            r == if first_of_type(self@, kind) < self@.len() {
                Some(self@[first_of_type(self@, kind)].vendor_table)
            } else {
                None::<u64>
            },
            0 <= first_of_type(self@, kind) <= self@.len(),
    {
        let mut index: usize = 0;
        proof {
            assert(self@.subrange(0, self@.len() as int) =~= self@);
        }
        while index < self.entries.len()
            invariant
                index <= self@.len(),
                first_of_type(self@, kind) == index + first_of_type(
                    self@.subrange(index as int, self@.len() as int),
                    kind,
                ),
            decreases self@.len() - index,
        {
            let ghost rest = self@.subrange(index as int, self@.len() as int);
            proof {
                assert(rest[0] == self@[index as int]);
                assert(rest.subrange(1, rest.len() as int) =~= self@.subrange(
                    index + 1,
                    self@.len() as int,
                ));
            }
            if self.entries[index].get_type() == kind {
                return Some(self.entries[index].vendor_table);
            }
            index += 1;
        }
        None
    }

    /// The address of the ACPI 1.0 root pointer: that of the first entry
    /// that points at one.
    pub fn get_rsdp_v1(&self) -> (r: Option<u64>)
        ensures
            r == if first_of_type(self@, TableType::AcpiV1_0) < self@.len() {
                Some(self@[first_of_type(self@, TableType::AcpiV1_0)].vendor_table)
            } else {
                None::<u64>
            },
    {
        self.find(TableType::AcpiV1_0)
    }

    /// The address of the ACPI 2.0 root pointer: that of the first entry
    /// that points at one.
    pub fn get_rsdp_v2(&self) -> (r: Option<u64>)
        ensures
            r == if first_of_type(self@, TableType::AcpiV2_0) < self@.len() {
                Some(self@[first_of_type(self@, TableType::AcpiV2_0)].vendor_table)
            } else {
                None::<u64>
            },
    {
        self.find(TableType::AcpiV2_0)
    }

    pub fn get_entry(&self, index: usize) -> (r: Option<ConfigurationTableEntry>)
        ensures
            r == if index < self@.len() {
                Some(self@[index as int])
            } else {
                None::<ConfigurationTableEntry>
            },
    {
        if index >= self.entries.len() {
            return None;
        }
        Some(self.entries[index])
    }

    /// A cursor at the first entry.
    pub fn iter(&self) -> (r: ConfigurationTableIterator<'_>)
        ensures
            r.table() == self,
            r.position() == 0,
            r.end() == self@.len(),
    {
        ConfigurationTableIterator {
            asset_list: self,
            current_index: 0,
            max_index: self.entries.len(),
        }
    }
}

/// A cursor over the entries of a configuration table.
pub struct ConfigurationTableIterator<'a> {
    asset_list: &'a ConfigurationTable,
    current_index: usize,
    max_index: usize,
}

impl<'a> ConfigurationTableIterator<'a> {
    /// The table that the cursor runs over.
    pub closed spec fn table(&self) -> &'a ConfigurationTable {
        self.asset_list
    }

    /// The index of the entry that comes next.
    pub closed spec fn position(&self) -> int {
        self.current_index as int
    }

    /// The index at which the cursor stops.
    pub closed spec fn end(&self) -> int {
        self.max_index as int
    }

    /// The entry under the cursor, which then moves on; none at the end of
    /// the table.
    pub fn next(&mut self) -> (r: Option<ConfigurationTableEntry>)
        ensures
            final(self).table() == old(self).table(),
            final(self).end() == old(self).end(),
            r == if old(self).position() != old(self).end() && old(self).position() < old(
                self,
            ).table()@.len() {
                Some(old(self).table()@[old(self).position()])
            } else {
                None::<ConfigurationTableEntry>
            },
            final(self).position() == if r is Some {
                old(self).position() + 1
            } else {
                old(self).position()
            },
    {
        if self.current_index == self.max_index {
            None
        } else {
            let count = self.asset_list.entries.len();
            if self.current_index < count {
                let output = self.asset_list.get_entry(self.current_index);
                self.current_index += 1;
                output
            } else {
                None
            }
        }
    }
}

} // verus!
