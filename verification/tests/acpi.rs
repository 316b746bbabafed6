use bootstack::acpi::rsdp::{RsdpV1, RsdpV2};
use bootstack::acpi::rsdt::{RootSystemDescriptionTable, SystemDescriptionTable};
use bootstack::acpi::xsdt::ExtendedSystemDescriptionTable;
use bootstack::bootloader::configuration_table::{
    same_guid, ConfigurationTable, ConfigurationTableEntry, TableType,
};

const ACPI_V1: [u8; 16] = [
    0x30, 0x2D, 0x9D, 0xEB, 0x88, 0x2D, 0xD3, 0x11, 0x9A, 0x16, 0x00, 0x90, 0x27, 0x3F, 0xC1, 0x4D,
];
const ACPI_V2: [u8; 16] = [
    0x71, 0xE8, 0x68, 0x88, 0xF1, 0xE4, 0xD3, 0x11, 0xBC, 0x22, 0x00, 0x80, 0xC7, 0x3C, 0x88, 0x81,
];

fn root_pointer() -> Vec<u8> {
    let mut bytes = Vec::new();
    bytes.extend_from_slice(b"RSD PTR ");
    bytes.push(0);
    bytes.extend_from_slice(b"OEMIDX");
    bytes.push(2);
    bytes.extend_from_slice(&0x7FE1_4000u32.to_le_bytes());
    let sum: u32 = bytes.iter().map(|b| *b as u32).sum();
    bytes[8] = (0x100 - (sum & 0xFF)) as u8;
    bytes.extend_from_slice(&36u32.to_le_bytes());
    bytes.extend_from_slice(&0x0000_0001_7FE1_5000u64.to_le_bytes());
    bytes.push(0);
    bytes.extend_from_slice(&[0, 0, 0]);
    let sum: u32 = bytes[20..].iter().map(|b| *b as u32).sum();
    bytes[32] = ((0x100 - (sum & 0xFF)) & 0xFF) as u8;
    bytes
}

#[test]
fn root_pointers_are_checked_by_signature_and_sum() {
    let bytes = root_pointer();
    let v1 = RsdpV1::parse(&bytes).unwrap();
    assert!(v1.valid_signature());
    assert!(v1.valid_checksum());
    assert!(v1.is_valid());
    assert_eq!(v1.get_rsdt(0x1000), Some(0x7FE1_5000));
    assert_eq!(v1.get_rsdt(u64::MAX), None);
    let v2 = RsdpV2::parse(&bytes).unwrap();
    assert!(v2.valid_checksum());
    assert!(v2.is_valid());
    assert_eq!(v2.get_xsdt(0), Some(0x0000_0001_7FE1_5000));

    let mut wrong_sum = bytes.clone();
    wrong_sum[10] ^= 1;
    let v1 = RsdpV1::parse(&wrong_sum).unwrap();
    assert!(v1.valid_signature() && !v1.valid_checksum() && !v1.is_valid());
    assert!(!RsdpV2::parse(&wrong_sum).unwrap().is_valid());

    let mut wrong_name = bytes.clone();
    wrong_name[0] = b'Q';
    wrong_name[8] = wrong_name[8].wrapping_add(1);
    let v1 = RsdpV1::parse(&wrong_name).unwrap();
    assert!(!v1.valid_signature() && v1.valid_checksum() && !v1.is_valid());

    let mut wrong_extension = bytes.clone();
    wrong_extension[33] = 9;
    let v2 = RsdpV2::parse(&wrong_extension).unwrap();
    assert!(!v2.valid_checksum() && !v2.is_valid());
    assert!(RsdpV1::parse(&bytes[..19]).is_none());
    assert!(RsdpV2::parse(&bytes[..35]).is_none());
}

fn table(length: u32, entries: &[u8]) -> Vec<u8> {
    let mut bytes = vec![0u8; 36];
    bytes[4..8].copy_from_slice(&length.to_le_bytes());
    bytes.extend_from_slice(entries);
    bytes
}

#[test]
fn root_table_lists_its_entries() {
    let entries: Vec<u8> = [0x1000u32, 0x2000, 0x3000].iter().flat_map(|e| e.to_le_bytes()).collect();
    let rsdt = RootSystemDescriptionTable::new(table(48, &entries), 0x10);
    assert_eq!(rsdt.num_entries(), 3);
    assert_eq!(rsdt.get_entry(1), Some(SystemDescriptionTable::new(0x2000, 0x10)));
    assert_eq!(rsdt.get_entry(3), None);
    let mut cursor = rsdt.iter();
    let mut seen = Vec::new();
    while let Some(entry) = cursor.next() {
        seen.push(entry.physical_address);
    }
    assert_eq!(seen, vec![0x1000, 0x2000, 0x3000]);
    // a length that reaches beyond the bytes counts only what is there
    assert_eq!(RootSystemDescriptionTable::new(table(400, &entries), 0).num_entries(), 3);
    assert_eq!(RootSystemDescriptionTable::new(table(35, &entries), 0).num_entries(), 0);
    assert_eq!(RootSystemDescriptionTable::new(vec![0; 10], 0).num_entries(), 0);
    assert_eq!(RootSystemDescriptionTable::new(table(43, &entries), 0).num_entries(), 1);
}

#[test]
fn extended_root_table_lists_its_entries() {
    let entries: Vec<u8> =
        [0x1_0000_1000u64, 0x2_0000_2000].iter().flat_map(|e| e.to_le_bytes()).collect();
    let xsdt = ExtendedSystemDescriptionTable::new(table(52, &entries), 0);
    assert_eq!(xsdt.num_entries(), 2);
    assert_eq!(xsdt.get_entry(0), Some(SystemDescriptionTable::new(0x1_0000_1000, 0)));
    assert_eq!(xsdt.get_entry(1), Some(SystemDescriptionTable::new(0x2_0000_2000, 0)));
    assert_eq!(xsdt.get_entry(2), None);
    let mut cursor = xsdt.iter();
    assert_eq!(cursor.next().unwrap().physical_address, 0x1_0000_1000);
    assert_eq!(cursor.next().unwrap().physical_address, 0x2_0000_2000);
    assert!(cursor.next().is_none());
}

#[test]
fn vendor_tables_are_told_apart_by_their_guid() {
    let v1 = ConfigurationTableEntry::new(ACPI_V1, 0xE0000);
    let v2 = ConfigurationTableEntry::new(ACPI_V2, 0xF0000);
    let mut other_guid = ACPI_V1;
    other_guid[15] = 0x4E;
    let other = ConfigurationTableEntry::new(other_guid, 0x1234);
    assert_eq!(v1.get_type(), TableType::AcpiV1_0);
    assert_eq!(v2.get_type(), TableType::AcpiV2_0);
    assert_eq!(other.get_type(), TableType::Unknown);
    assert_eq!(v1.get_rsdp_v1(), Some(0xE0000));
    assert_eq!(v1.get_rsdp_v2(), None);
    assert_eq!(v2.get_rsdp_v2(), Some(0xF0000));
    assert_eq!(other.get_rsdp_v1(), None);
    assert!(same_guid(&ACPI_V1, &ACPI_V1));
    assert!(!same_guid(&ACPI_V1, &ACPI_V2));
    // a GUID with the bytes of its first field reversed is another GUID
    let mut reversed = ACPI_V1;
    reversed[0..4].reverse();
    assert_eq!(ConfigurationTableEntry::new(reversed, 0).get_type(), TableType::Unknown);
}

#[test]
fn the_first_entry_of_a_kind_is_found() {
    let mut other_guid = ACPI_V2;
    other_guid[0] = 0;
    let table = ConfigurationTable::new(vec![
        ConfigurationTableEntry::new(other_guid, 1),
        ConfigurationTableEntry::new(ACPI_V2, 2),
        ConfigurationTableEntry::new(ACPI_V1, 3),
        ConfigurationTableEntry::new(ACPI_V2, 4),
    ]);
    assert_eq!(table.get_rsdp_v1(), Some(3));
    assert_eq!(table.get_rsdp_v2(), Some(2));
    assert_eq!(table.get_entry(3).unwrap().vendor_table, 4);
    assert!(table.get_entry(4).is_none());
    let mut cursor = table.iter();
    let mut seen = Vec::new();
    while let Some(entry) = cursor.next() {
        seen.push(entry.vendor_table);
    }
    assert_eq!(seen, vec![1, 2, 3, 4]);
    let empty = ConfigurationTable::new(Vec::new());
    assert_eq!(empty.get_rsdp_v1(), None);
}
