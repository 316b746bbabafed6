use bootstack::bootloader::boot_data::BootData;
use bootstack::bootloader::elf::{
    ElfClass, ElfHeader, ElfIdentifier, ElfInstructionSet, ElfType, Endianness, ProgramHeader,
    ProgramHeaderSectionType,
};
use bootstack::bootloader::loader::{
    load_program_segments, relocated_entry, validate_elf_header, validate_elf_identifier,
};
use bootstack::devices::ioport::Port;
use bootstack::devices::uart::{
    divisor_bytes, is_transmit_empty, line_control_with_dlab, SerialPort, COM1_BASE,
};
use bootstack::kernel::boot_data::PixelFormat;

fn segment(kind: u32, at: u64, size: u64) -> ProgramHeader {
    ProgramHeader {
        segment_type: kind,
        flags: 0,
        data_offset: 0,
        virtual_address: at,
        physical_address: at,
        file_size: size,
        mem_size: size,
        alignment: 0x1000,
    }
}

#[test]
fn field_codes() {
    assert_eq!((ElfClass::Bit32.code(), ElfClass::Bit64.code()), (1, 2));
    assert_eq!((Endianness::Little.code(), Endianness::Big.code()), (1, 2));
    assert_eq!(ElfType::Executable.code(), 2);
    assert_eq!(ElfType::Core.code(), 4);
    assert_eq!(ElfInstructionSet::X86_64.code(), 0x3E);
    assert_eq!(ElfInstructionSet::RISCV.code(), 0xF3);
    assert_eq!(ElfInstructionSet::Unspecified.code(), 0);
    assert_eq!(ProgramHeaderSectionType::Load.code(), 1);
    assert_eq!(ProgramHeaderSectionType::Note.code(), 4);
}

#[test]
fn identifier_and_header_are_checked() {
    let mut identifier = ElfIdentifier::new();
    assert_eq!(identifier.magic, [0; 4]);
    assert!(!validate_elf_identifier(&identifier));
    identifier.magic = [0x7F, 0x45, 0x4C, 0x46];
    identifier.class = ElfClass::Bit64.code();
    identifier.endianness = Endianness::Little.code();
    assert!(validate_elf_identifier(&identifier));
    identifier.class = 1;
    assert!(!validate_elf_identifier(&identifier));
    identifier.class = 2;
    identifier.endianness = 2;
    assert!(!validate_elf_identifier(&identifier));
    let mut header = ElfHeader {
        identifier,
        elf_type: 2,
        instruction_set: 0x3E,
        elf_version: 1,
        entry_offset: 0,
        program_header_table_offset: 64,
        section_header_table_offset: 0,
        flags: 0,
        header_size: 64,
        program_header_entry_size: 56,
        program_header_entry_count: 0,
        section_header_entry_size: 0,
        section_header_entry_count: 0,
        section_header_string_index: 0,
    };
    assert!(validate_elf_header(&header));
    header.instruction_set = 0x03;
    assert!(!validate_elf_header(&header));
}

#[test]
fn the_block_spans_the_segments_to_load() {
    let headers =
        [segment(1, 0x40_2000, 0x500), segment(4, 0x10, 0x10), segment(1, 0x40_0000, 0x1800)];
    assert_eq!(load_program_segments(&headers), Some((0x40_0000, 0x40_2500)));
    assert_eq!(load_program_segments(&[segment(2, 0x1000, 1)]), None);
    assert_eq!(load_program_segments(&[]), None);
    assert_eq!(load_program_segments(&[segment(1, u64::MAX, 1)]), None);
    assert_eq!(relocated_entry(0x40_1000, 0x40_0000, 0x10_0000), Some(0x10_1000));
    assert_eq!(relocated_entry(0x3F_0000, 0x40_0000, 0x10_0000), None);
    assert_eq!(relocated_entry(u64::MAX, 0, 1), None);
}

#[test]
fn empty_boot_data() {
    let data = BootData::empty();
    assert_eq!(data.graphics_mode.format, PixelFormat::Bgr);
    assert_eq!((data.graphics_mode.width, data.graphics_mode.height), (0, 0));
    assert_eq!((data.font_file_address, data.font_file_size, data.memory_map), (0, 0, 0));
}

#[test]
fn serial_port_registers_and_values() {
    let com1 = SerialPort::new(COM1_BASE);
    assert_eq!(com1.data_reg.port_number(), 0x3F8);
    assert_eq!(com1.inter_reg.port_number(), 0x3F9);
    assert_eq!(com1.line_control_reg.port_number(), 0x3FB);
    assert_eq!(com1.line_status_reg.port_number(), 0x3FD);
    assert_eq!(com1.scratch_reg.port_number(), 0x3FF);
    assert_eq!(Port::new(0x80).port_number(), 0x80);
    assert_eq!(divisor_bytes(1), (1, 0));
    assert_eq!(divisor_bytes(0x1234), (0x34, 0x12));
    assert_eq!(line_control_with_dlab(0x03, true), 0x83);
    assert_eq!(line_control_with_dlab(0x83, false), 0x03);
    assert!(is_transmit_empty(0x20));
    assert!(is_transmit_empty(0x61));
    assert!(!is_transmit_empty(0x1F));
}
