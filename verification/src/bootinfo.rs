//! The record that the bootloader hands to the kernel.
pub mod framebuffer;
pub mod handoff;
pub mod meminfo;
