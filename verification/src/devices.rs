//! Devices that the boot stack talks to through I/O ports.
pub mod ioport;
pub mod uart;
