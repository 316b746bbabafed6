//! Physical and virtual addresses and the paging structures built on them.
pub mod address;
pub mod paging;
