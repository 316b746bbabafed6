//! What the kernel's first stage computes: colours and pixels, the text
//! layout on the frame buffer, and the levels of its log.
pub mod boot_data;
pub mod errors;
pub mod font_renderer;
pub mod graphics_renderer;
pub mod layout_renderer;
pub mod logger;
