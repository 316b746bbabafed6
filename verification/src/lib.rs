//! Memory plane of a UEFI boot stack for 64-bit x86: address types, the
//! page-frame allocator and its bitmap, the 4-level page-table manager, the
//! ELF64 segment merger and the record handed from the bootloader to the
//! kernel.
pub mod acpi;
pub mod bitmap;
pub mod bootinfo;
pub mod bootloader;
pub mod devices;
pub mod elf;
pub mod kernel;
pub mod memory;
