//! What the kernel is told of physical memory: the allocator's bitmap and
//! its byte counts.
use crate::bitmap::Bitmap;
use crate::memory::address::{lemma_physical_frame, PhysicalAddress};
use vstd::prelude::*;

verus! {

#[derive(Debug)]
pub struct MemInfo {
    pub bitmap: Bitmap,
    pub free_memory: u64,
    pub reserved_memory: u64,
    pub used_memory: u64,
    pub max_physical_address: PhysicalAddress,
}

impl MemInfo {
    /// The record of no memory: an empty bitmap and every count zero.
    pub open spec fn is_empty(&self) -> bool {
        &&& self.bitmap.wf()
        &&& self.bitmap.byte_count() == 0
        &&& self.bitmap@ =~= Seq::<bool>::empty()
        &&& self.free_memory == 0
        &&& self.reserved_memory == 0
        &&& self.used_memory == 0
        &&& self.max_physical_address.value() == 0
    }

    pub fn new(
        bitmap: Bitmap,
        free_memory: u64,
        reserved_memory: u64,
        used_memory: u64,
        max_physical_address: PhysicalAddress,
    ) -> (r: MemInfo)
        ensures
            r.bitmap == bitmap,
            r.free_memory == free_memory,
            r.reserved_memory == reserved_memory,
            r.used_memory == used_memory,
            r.max_physical_address == max_physical_address,
    {
        MemInfo { bitmap, free_memory, reserved_memory, used_memory, max_physical_address }
    }

    /// Hands out what the record holds and leaves the record of no memory
    /// behind.
    pub fn move_out(&mut self) -> (r: MemInfo)
        ensures
            r == *old(self),
            final(self).is_empty(),
    {
        let mut output = MemInfo::default();
        core::mem::swap(self, &mut output);
        output
    }
}

impl Default for MemInfo {
    fn default() -> (r: MemInfo)
        ensures
            r.is_empty(),
    {
        proof {
            lemma_physical_frame(0);
        }
        MemInfo {
            bitmap: Bitmap::new(0, Vec::new()),
            free_memory: 0,
            reserved_memory: 0,
            used_memory: 0,
            max_physical_address: PhysicalAddress::new(0),
        }
    }
}

} // verus!
