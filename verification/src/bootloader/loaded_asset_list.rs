//! The ranges of physical frames that hold parts of the kernel image, each
//! with the virtual address at which it is to be mapped.
use crate::memory::address::{PhysicalAddress, VirtualAddress, PAGE_SIZE};
use vstd::prelude::*;

verus! {

/// The size in bytes of one asset record: the list holds as many as fit in
/// its pages.
pub const ASSET_RECORD_SIZE: usize = 24;

/// A run of `num_pages` frames from `physical_address` on, to be mapped at
/// `virtual_address`.
#[derive(Copy, Clone, Debug)]
pub struct LoadedAsset {
    pub physical_address: PhysicalAddress,
    pub num_pages: usize,
    pub virtual_address: VirtualAddress,
}

impl LoadedAsset {
    pub fn new(
        physical_address: PhysicalAddress,
        num_pages: usize,
        virtual_address: VirtualAddress,
    ) -> (r: LoadedAsset)
        ensures
            r.physical_address == physical_address,
            r.num_pages == num_pages,
            r.virtual_address == virtual_address,
    {
        LoadedAsset { physical_address, num_pages, virtual_address }
    }
}

/// The assets loaded for one image, in the order in which they were added.
#[derive(Debug)]
pub struct LoadedAssetList {
    assets: Vec<LoadedAsset>,
    num_pages: usize,
}

impl View for LoadedAssetList {
    type V = Seq<LoadedAsset>;

    closed spec fn view(&self) -> Seq<LoadedAsset> {
        self.assets@
    }
}

impl LoadedAssetList {
    /// The most assets that the list holds.
    pub closed spec fn capacity(&self) -> int {
        (0x1000 * self.num_pages) / 24
    }

    /// There are no more assets than the list holds.
    pub closed spec fn wf(&self) -> bool {
        &&& 0x1000 * self.num_pages <= usize::MAX
        &&& self.assets@.len() <= self.capacity()
    }

    /// An empty list of whole pages that holds at least `max_items` assets.
    pub fn new(max_items: usize) -> (r: LoadedAssetList)
        requires
            24 * max_items + 0xFFF <= usize::MAX,
        ensures
            r.wf(),
            r@.len() == 0,
            r.capacity() == (0x1000 * ((24 * max_items + 0xFFF) / 0x1000)) / 24,
            r.capacity() >= max_items,
    {
        let min_mem_size = ASSET_RECORD_SIZE * max_items;
        let num_pages = (min_mem_size + (PAGE_SIZE as usize - 1)) / (PAGE_SIZE as usize);
        LoadedAssetList { assets: Vec::new(), num_pages }
    }

    /// The most assets that the list holds.
    pub fn max_items(&self) -> (r: usize)
        requires
            self.wf(),
        ensures
            r == self.capacity(),
    {
        ((PAGE_SIZE as usize) * self.num_pages) / ASSET_RECORD_SIZE
    }

    /// Appends `asset` and gives its index; none, with the list unchanged,
    /// where the list is full.
    pub fn add_asset(&mut self, asset: LoadedAsset) -> (r: Option<usize>)
        requires
            old(self).wf(),
        ensures
            final(self).wf(),
            final(self).capacity() == old(self).capacity(),
            r is None <==> old(self)@.len() == old(self).capacity(),
            r is None ==> final(self)@ == old(self)@,
            r matches Some(index) ==> index == old(self)@.len() && final(self)@ == old(self)@.push(
                asset,
            ),
    {
        if self.max_items() == self.assets.len() {
            return None;
        }
        let index = self.assets.len();
        self.assets.push(asset);
        Some(index)
    }

    /// The asset at `index`, if there is one.
    pub fn get_asset(&self, index: usize) -> (r: Option<LoadedAsset>)
        ensures
            r == if index < self@.len() {
                Some(self@[index as int])
            } else {
                None::<LoadedAsset>
            },
    {
        if index >= self.assets.len() {
            return None;
        }
        Some(self.assets[index])
    }

    /// The number of assets in the list.
    pub fn size(&self) -> (r: usize)
        ensures
            r == self@.len(),
    {
        self.assets.len()
    }

    /// A cursor at the first asset.
    pub fn iter(&self) -> (r: LoadedAssetListIterator<'_>)
        ensures
            r.list() == self,
            r.position() == 0,
            r.end() == self@.len(),
    {
        LoadedAssetListIterator { asset_list: self, current_index: 0, max_index: self.assets.len() }
    }
}

/// A cursor over the assets of a list.
pub struct LoadedAssetListIterator<'a> {
    asset_list: &'a LoadedAssetList,
    current_index: usize,
    max_index: usize,
}

impl<'a> LoadedAssetListIterator<'a> {
    /// The list that the cursor runs over.
    pub closed spec fn list(&self) -> &'a LoadedAssetList {
        self.asset_list
    }

    /// The index of the asset that comes next.
    pub closed spec fn position(&self) -> int {
        self.current_index as int
    }

    /// The index at which the cursor stops.
    pub closed spec fn end(&self) -> int {
        self.max_index as int
    }

    /// The asset under the cursor, which then moves on; none at the end of
    /// the list.
    pub fn next(&mut self) -> (r: Option<LoadedAsset>)
        ensures
            final(self).list() == old(self).list(),
            final(self).end() == old(self).end(),
            r == if old(self).position() != old(self).end() && old(self).position() < old(
                self,
            ).list()@.len() {
                Some(old(self).list()@[old(self).position()])
            } else {
                None::<LoadedAsset>
            },
            final(self).position() == if r is Some {
                old(self).position() + 1
            } else {
                old(self).position()
            },
    {
        if self.current_index == self.max_index {
            None
        } else {
            let count = self.asset_list.size();
            if self.current_index < count {
                let output = self.asset_list.get_asset(self.current_index);
                self.current_index += 1;
                output
            } else {
                None
            }
        }
    }
}

} // verus!
