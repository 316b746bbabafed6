//! The graphics mode and the boot data of an earlier handoff format.
use vstd::prelude::*;

verus! {

#[derive(Debug, Clone, Copy, PartialEq, Eq, Structural)]
pub enum PixelFormat {
    Rgb,
    Bgr,
    Bitmask,
    BltOnly,
}

#[derive(Debug, Clone, Copy)]
pub struct GraphicsMode {
    pub width: usize,
    pub height: usize,
    pub stride: usize,
    pub frame_buffer: u64,
    pub frame_buffer_size: usize,
    pub format: PixelFormat,
}

#[derive(Debug, Clone, Copy)]
pub struct BootData {
    pub graphics_mode: GraphicsMode,
    pub font_file_address: u64,
    pub font_file_size: usize,
    pub memory_map_size: usize,
    pub memory_descriptor_size: usize,
    pub memory_map: u64,
}

} // verus!
