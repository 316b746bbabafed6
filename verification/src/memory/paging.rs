//! Page tables, the allocator that hands out their frames and the manager
//! that builds and walks them.
pub mod page_frame_allocator;
pub mod page_table;
pub mod page_table_manager;
pub mod physical_memory;
pub mod table_tree;
