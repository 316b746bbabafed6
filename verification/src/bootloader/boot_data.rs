//! The boot data of an earlier handoff format.
use crate::kernel::boot_data::PixelFormat;
use vstd::prelude::*;

verus! {

#[derive(Debug, Clone, Copy)]
pub struct GraphicsMode {
    pub width: usize,
    pub height: usize,
    pub stride: usize,
    pub frame_buffer: u64,
    pub frame_buffer_size: usize,
    pub format: PixelFormat,
}

#[derive(Debug, Clone, Copy)]
pub struct BootData {
    pub graphics_mode: GraphicsMode,
    pub font_file_address: u64,
    pub font_file_size: usize,
    pub memory_map_size: usize,
    pub memory_descriptor_size: usize,
    pub memory_map: u64,
}

impl BootData {
    /// Boot data that names no frame buffer, no font and no memory map.
    pub fn empty() -> (r: BootData)
        ensures
            r.graphics_mode.width == 0,
            r.graphics_mode.height == 0,
            r.graphics_mode.stride == 0,
            r.graphics_mode.frame_buffer == 0,
            r.graphics_mode.frame_buffer_size == 0,
            r.graphics_mode.format == PixelFormat::Bgr,
            r.font_file_address == 0,
            r.font_file_size == 0,
            r.memory_map_size == 0,
            r.memory_descriptor_size == 0,
            r.memory_map == 0,
    {
        BootData {
            graphics_mode: GraphicsMode {
                width: 0,
                height: 0,
                stride: 0,
                frame_buffer: 0,
                frame_buffer_size: 0,
                format: PixelFormat::Bgr,
            },
            font_file_address: 0,
            font_file_size: 0,
            memory_map_size: 0,
            memory_descriptor_size: 0,
            memory_map: 0,
        }
    }
}

} // verus!
