use bootstack::memory::address::{PhysicalAddress, VirtualAddress};

#[test]
fn physical_address_is_masked_to_a_frame() {
    assert_eq!(PhysicalAddress::new(0xFFFF_FFFF_FFFF_FFFF).as_u64(), 0x000F_FFFF_FFFF_F000);
    assert_eq!(PhysicalAddress::new(0x1234).as_u64(), 0x1000);
    assert_eq!(PhysicalAddress::new(0x10_0000).increment_pages(3).as_u64(), 0x10_3000);
}

#[test]
fn virtual_address_is_sign_extended_from_bit_47() {
    assert_eq!(VirtualAddress::new(0x0000_8000_0000_0000).as_u64(), 0xFFFF_8000_0000_0000);
    assert_eq!(VirtualAddress::new(0xFFFF_7FFF_FFFF_F123).as_u64(), 0x0000_7FFF_FFFF_F123);
    assert_eq!(VirtualAddress::new(0x1234_0000_0000_1000).as_u64(), 0x0000_0000_0000_1000);
}

#[test]
fn indexes_round_trip() {
    let v = VirtualAddress::new_from_page_table_indexes(511, 3, 200, 17, 0xABC);
    assert_eq!(v.p4_index(), 511);
    assert_eq!(v.p3_index(), 3);
    assert_eq!(v.p2_index(), 200);
    assert_eq!(v.p1_index(), 17);
    assert_eq!(v.page_offset(), 0xABC);
    assert_eq!(v.get_pn_index(4), 511);
    assert_eq!(v.get_pn_index(1), 17);
    assert_eq!(v.as_u64() >> 48, 0xFFFF);
}

#[test]
fn a_page_increment_keeps_addresses_well_formed() {
    // the last page of the lower half is followed by the first of the upper
    let last_low = VirtualAddress::new(0x0000_7FFF_FFFF_F000);
    assert_eq!(last_low.increment_pages(1).as_u64(), 0xFFFF_8000_0000_0000);
    assert_eq!(last_low.increment_pages(0).as_u64(), 0x0000_7FFF_FFFF_F000);
    let kernel = VirtualAddress::new(0xFFFF_FFFF_8000_0123);
    assert_eq!(kernel.increment_pages(2).as_u64(), 0xFFFF_FFFF_8000_2123);
    assert_eq!(
        kernel.increment_pages(2).as_u64(),
        VirtualAddress::new(kernel.as_u64() + 2 * 4096).as_u64()
    );
    // the frame after the last of the 52-bit space is the first
    let last_frame = PhysicalAddress::new(0x000F_FFFF_FFFF_F000);
    assert_eq!(last_frame.increment_pages(1).as_u64(), 0);
    assert_eq!(PhysicalAddress::new(0x7000).increment_pages(2).as_u64(), 0x9000);
}
