//! What the bootloader computes between its firmware calls: the sections
//! of the kernel image, the assets it loads, the digest of the firmware
//! memory map and the layout of the address space it hands over.
pub mod boot;
pub mod boot_data;
pub mod configuration_table;
pub mod elf;
pub mod elf_section_list;
pub mod kernel_loader;
pub mod loaded_asset_list;
pub mod loader;
pub mod memory_map;
pub mod merge_order;
pub mod unicode;
