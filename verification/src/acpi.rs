//! The ACPI root pointers and the root tables that they lead to.
pub mod rsdp;
pub mod rsdt;
pub mod xsdt;
