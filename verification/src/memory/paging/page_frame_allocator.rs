//! The page-frame allocator: one bit per 4 KiB frame of physical memory,
//! and the count of free and used bytes.
use crate::bitmap::{count_true, lemma_count_bound, lemma_count_update, Bitmap};
use crate::memory::address::{lemma_physical_frame, PhysicalAddress, PAGE_SIZE};
use vstd::prelude::*;

verus! {

/// The most frames that an allocator tracks: those of a 52-bit physical
/// address space.
pub const MAX_TRACKED_FRAMES: u64 = 0x100_0000_0000;

#[derive(Debug, Clone, Copy, PartialEq, Eq, Structural)]
pub enum AllocError {
    OutOfMemory,
    DoubleFree,
    AlreadyUsed,
}

/// What an allocator accounts for: which frames are used, and the bytes it
/// counts as free and as used.
pub struct FrameAccounts {
    pub bits: Seq<bool>,
    pub free_ram: int,
    pub used_ram: int,
}

/// One operation on an allocator, by the number of the frame it names.
pub enum FrameOp {
    Lock(int),
    Free(int),
    Request,
}

impl FrameAccounts {
    /// `frame` is tracked and used.
    pub open spec fn is_used(self, frame: int) -> bool {
        0 <= frame < self.bits.len() && self.bits[frame]
    }

    /// `frame` is tracked and free.
    pub open spec fn is_free(self, frame: int) -> bool {
        0 <= frame < self.bits.len() && !self.bits[frame]
    }

    /// The numbers of the frames in use.
    pub open spec fn used_frames(self) -> Set<int> {
        Set::new(|f: int| self.is_used(f))
    }

    /// The byte counts agree with the bits.
    pub open spec fn consistent(self) -> bool {
        &&& self.used_ram == 0x1000 * count_true(self.bits)
        &&& self.free_ram == 0x1000 * (self.bits.len() - count_true(self.bits))
    }

    /// The lowest free frame, if there is one.
    pub open spec fn first_free(self) -> Option<int> {
        if exists|f: int| self.is_free(f) {
            Some(choose|f: int| self.is_free(f) && forall|g: int| 0 <= g < f ==> self.bits[g])
        } else {
            None
        }
    }

    /// The accounts after `frame` is marked used: one page moves from free
    /// to used where the frame is tracked and free, else nothing changes.
    pub open spec fn after_lock(self, frame: int) -> FrameAccounts {
        if self.is_free(frame) {
            FrameAccounts {
                bits: self.bits.update(frame, true),
                free_ram: self.free_ram - 0x1000,
                used_ram: self.used_ram + 0x1000,
            }
        } else {
            self
        }
    }

    /// What locking `frame` reports: an error where it is used already;
    /// success otherwise, also where the frame is not tracked.
    pub open spec fn lock_result(self, frame: int) -> Result<(), AllocError> {
        if self.is_used(frame) {
            Err(AllocError::AlreadyUsed)
        } else {
            Ok(())
        }
    }

    /// The accounts after `frame` is released: one page moves from used to
    /// free where the frame is tracked and used, else nothing changes.
    pub open spec fn after_free(self, frame: int) -> FrameAccounts {
        if self.is_used(frame) {
            FrameAccounts {
                bits: self.bits.update(frame, false),
                free_ram: self.free_ram + 0x1000,
                used_ram: self.used_ram - 0x1000,
            }
        } else {
            self
        }
    }

    /// What releasing `frame` reports: success where it is tracked and
    /// used, an error otherwise.
    pub open spec fn free_result(self, frame: int) -> Result<(), AllocError> {
        if self.is_used(frame) {
            Ok(())
        } else {
            Err(AllocError::DoubleFree)
        }
    }

    /// The accounts after the lowest free frame, if any, is handed out.
    pub open spec fn after_request(self) -> FrameAccounts {
        match self.first_free() {
            Some(f) => self.after_lock(f),
            None => self,
        }
    }

    /// The accounts after one operation.
    pub open spec fn after(self, op: FrameOp) -> FrameAccounts {
        match op {
            FrameOp::Lock(f) => self.after_lock(f),
            FrameOp::Free(f) => self.after_free(f),
            FrameOp::Request => self.after_request(),
        }
    }

    /// The accounts after a sequence of operations, first to last.
    pub open spec fn after_all(self, ops: Seq<FrameOp>) -> FrameAccounts
        decreases ops.len(),
    {
        if ops.len() == 0 {
            self
        } else {
            self.after_all(ops.drop_last()).after(ops.last())
        }
    }

    /// The accounts with the first `count` frames from `start` on released,
    /// each of which must be in use.
    pub open spec fn after_free_range(self, start: int, count: int) -> FrameAccounts
        decreases count,
    {
        if count <= 0 {
            self
        } else {
            self.after_free_range(start, count - 1).after_free(start + count - 1)
        }
    }

    /// The accounts with the first `count` frames from `start` on locked.
    pub open spec fn after_lock_range(self, start: int, count: int) -> FrameAccounts
        decreases count,
    {
        if count <= 0 {
            self
        } else {
            self.after_lock_range(start, count - 1).after_lock(start + count - 1)
        }
    }

    /// How many of the `count` frames from `start` on can be released one
    /// after the other before one is met that is not in use.
    pub open spec fn freeable_prefix(self, start: int, count: int) -> int
        decreases count,
    {
        if count <= 0 {
            0
        } else {
            let before = self.freeable_prefix(start, count - 1);
            if before == count - 1 && self.is_used(start + count - 1) {
                count
            } else {
                before
            }
        }
    }

    /// How many of the `count` frames from `start` on can be locked one
    /// after the other before one is met that is in use already.
    pub open spec fn lockable_prefix(self, start: int, count: int) -> int
        decreases count,
    {
        if count <= 0 {
            0
        } else {
            let before = self.lockable_prefix(start, count - 1);
            if before == count - 1 && !self.is_used(start + count - 1) {
                count
            } else {
                before
            }
        }
    }
}

/// One operation keeps the sum of free and used bytes and the number of
/// frames, and keeps the byte counts in agreement with the bits.
pub proof fn lemma_op_keeps_accounts(s: FrameAccounts, op: FrameOp)
    ensures
        s.after(op).free_ram + s.after(op).used_ram == s.free_ram + s.used_ram,
        s.after(op).bits.len() == s.bits.len(),
        s.consistent() ==> s.after(op).consistent(),
{
    let frame = match op {
        FrameOp::Lock(f) => f,
        FrameOp::Free(f) => f,
        FrameOp::Request => match s.first_free() {
            Some(f) => f,
            None => -1,
        },
    };
    if 0 <= frame < s.bits.len() {
        lemma_count_update(s.bits, frame, true);
        lemma_count_update(s.bits, frame, false);
    }
}

/// The counter law: whatever operations are applied, in whatever order,
/// the sum of free and used bytes stays what it was at the start, and
/// where the used bytes were 4 KiB times the number of set bits (and the
/// free bytes 4 KiB times the number of clear ones) they still are.
pub proof fn lemma_counter_law(s: FrameAccounts, ops: Seq<FrameOp>)
    ensures
        s.after_all(ops).free_ram + s.after_all(ops).used_ram == s.free_ram + s.used_ram,
        s.after_all(ops).bits.len() == s.bits.len(),
        s.consistent() ==> s.after_all(ops).consistent(),
        s.consistent() ==> s.after_all(ops).used_ram == 0x1000 * count_true(
            s.after_all(ops).bits,
        ),
    decreases ops.len(),
{
    if ops.len() > 0 {
        lemma_counter_law(s, ops.drop_last());
        lemma_op_keeps_accounts(s.after_all(ops.drop_last()), ops.last());
    }
}

/// Source of page frames and sink for frames given back.
pub trait FrameAllocator: Sized {
    /// The allocator's own invariant.
    spec fn valid(&self) -> bool;

    /// The numbers of the frames that the allocator holds as used.
    spec fn used_frames(&self) -> Set<int>;

    /// What a request gives in this state: the address of the frame that
    /// is handed out, or the error.
    spec fn request_outcome(&self) -> Result<u64, AllocError>;

    /// What giving back the frame that `address` lies in reports in this
    /// state.
    spec fn free_outcome(&self, address: u64) -> Result<(), AllocError>;

    /// Hands out a frame that was not in use and marks it used, or fails
    /// and changes nothing. Which of these, and which frame or error, is
    /// what `request_outcome` says of the state before.
    fn request_page(&mut self) -> (r: Result<PhysicalAddress, AllocError>)
        requires
            old(self).valid(),
        ensures
            final(self).valid(),
            match r {
                Ok(p) => old(self).request_outcome() == Ok::<u64, AllocError>(p.value()),
                Err(e) => old(self).request_outcome() == Err::<u64, AllocError>(e),
            },
            r is Err ==> *final(self) == *old(self),
            match r {
                Ok(p) => {
                    &&& p.is_frame()
                    &&& !old(self).used_frames().contains(p.value() as int / 0x1000)
                    &&& final(self).used_frames() == old(self).used_frames().insert(
                        p.value() as int / 0x1000,
                    )
                },
                Err(_) => final(self).used_frames() == old(self).used_frames(),
            },
    ;

    /// Takes back the frame that `address` lies in, or fails and changes
    /// nothing. Which of these, and which error, is what `free_outcome`
    /// says of the state before.
    fn free_page(&mut self, address: PhysicalAddress) -> (r: Result<(), AllocError>)
        requires
            old(self).valid(),
        ensures
            final(self).valid(),
            r == old(self).free_outcome(address.value()),
            r is Err ==> *final(self) == *old(self),
            match r {
                Ok(_) => {
                    &&& old(self).used_frames().contains(address.value() as int / 0x1000)
                    &&& final(self).used_frames() == old(self).used_frames().remove(
                        address.value() as int / 0x1000,
                    )
                },
                Err(_) => final(self).used_frames() == old(self).used_frames(),
            },
    ;
}

/// The allocator refuses, with the error `e`, to take back a frame that it
/// holds as used.
pub open spec fn refuses<A: FrameAllocator>(allocator: A, e: AllocError) -> bool {
    exists|address: u64|
        allocator.used_frames().contains(address as int / 0x1000)
            && #[trigger] allocator.free_outcome(address) == Err::<(), AllocError>(e)
}

/// The allocator's state: the bitmap, the byte counts and the index from
/// which the search for a free frame starts.
#[derive(Debug)]
pub struct PageFrameAllocatorInner {
    page_bitmap: Bitmap,
    free_memory: u64,
    used_memory: u64,
    last_allocated_page: usize,
}

impl PageFrameAllocatorInner {
    /// The bits and byte counts.
    pub closed spec fn accounts(&self) -> FrameAccounts {
        FrameAccounts {
            bits: self.page_bitmap@,
            free_ram: self.free_memory as int,
            used_ram: self.used_memory as int,
        }
    }

    /// The index from which the search for a free frame starts.
    pub closed spec fn cursor(&self) -> int {
        self.last_allocated_page as int
    }

    /// The bitmap is well formed and tracks no more than a 52-bit address
    /// space, the byte counts agree with the bits, and no frame below the
    /// cursor is free.
    pub closed spec fn wf(&self) -> bool {
        &&& self.page_bitmap.wf()
        &&& self.accounts().bits.len() <= 0x100_0000_0000
        &&& self.accounts().consistent()
        &&& forall|f: int| 0 <= f < self.cursor() ==> !self.accounts().is_free(f)
    }

    /// The bitmap that the allocator keeps.
    pub closed spec fn bitmap(&self) -> Bitmap {
        self.page_bitmap
    }

    /// What well-formedness says.
    pub proof fn lemma_wf(&self)
        requires
            self.wf(),
        ensures
            self.bitmap().wf(),
            self.accounts().bits == self.bitmap()@,
            self.accounts().bits.len() <= 0x100_0000_0000,
            self.accounts().consistent(),
            forall|f: int| 0 <= f < self.cursor() ==> !self.accounts().is_free(f),
    {
    }

    /// An allocator that tracks no frames.
    pub fn new_uninitialized() -> (r: PageFrameAllocatorInner)
        ensures
            r.wf(),
            r.accounts() == (FrameAccounts { bits: Seq::<bool>::empty(), free_ram: 0, used_ram: 0 }),
            r.cursor() == 0,
    {
        PageFrameAllocatorInner {
            page_bitmap: Bitmap::new_uninitialized(),
            free_memory: 0,
            used_memory: 0,
            last_allocated_page: 0,
        }
    }

    /// Replaces the state by the given bitmap and byte counts; the search
    /// starts at frame 0 again.
    pub fn init(&mut self, page_bitmap: Bitmap, free_memory: u64, used_memory: u64)
        requires
            page_bitmap.wf(),
            page_bitmap@.len() <= 0x100_0000_0000,
            (FrameAccounts {
                bits: page_bitmap@,
                free_ram: free_memory as int,
                used_ram: used_memory as int,
            }).consistent(),
        ensures
            final(self).wf(),
            final(self).accounts() == (FrameAccounts {
                bits: page_bitmap@,
                free_ram: free_memory as int,
                used_ram: used_memory as int,
            }),
            final(self).cursor() == 0,
            final(self).bitmap() == page_bitmap,
    {
        self.page_bitmap = page_bitmap;
        self.free_memory = free_memory;
        self.used_memory = used_memory;
        self.last_allocated_page = 0;
    }

    pub fn page_bitmap(&self) -> (r: &Bitmap)
        ensures
            *r == self.bitmap(),
    {
        &self.page_bitmap
    }

    pub fn get_free_ram(&self) -> (r: u64)
        ensures
            r == self.accounts().free_ram,
    {
        self.free_memory
    }

    pub fn get_used_ram(&self) -> (r: u64)
        ensures
            r == self.accounts().used_ram,
    {
        self.used_memory
    }

    /// Marks the frame of `address` used. Fails where it is used already;
    /// a frame that the bitmap does not track is left alone and reported as
    /// success.
    pub fn lock_page(&mut self, address: PhysicalAddress) -> (r: Result<(), AllocError>)
        requires
            old(self).wf(),
        ensures
            final(self).wf(),
            r == old(self).accounts().lock_result(address.value() as int / 0x1000),
            final(self).accounts() == old(self).accounts().after_lock(
                address.value() as int / 0x1000,
            ),
            final(self).cursor() == old(self).cursor(),
            r is Err ==> final(self).accounts() == old(self).accounts(),
    {
        let page: u64 = address.as_u64() / PAGE_SIZE;
        proof {
            self.page_bitmap.lemma_view();
        }
        if page >= (self.page_bitmap.size() as u64) * 8 {
            return Ok(());
        }
        let page_number: usize = page as usize;
        if self.page_bitmap.get(page_number) {
            return Err(AllocError::AlreadyUsed);
        }
        proof {
            lemma_count_update(self.page_bitmap@, page_number as int, true);
            lemma_count_bound(self.page_bitmap@.update(page_number as int, true));
        }
        if self.page_bitmap.set(page_number, true) {
            self.free_memory -= PAGE_SIZE;
            self.used_memory += PAGE_SIZE;
        }
        proof {
            assert forall|f: int| 0 <= f < self.cursor() implies !self.accounts().is_free(f) by {
                assert(!old(self).accounts().is_free(f));
            }
        }
        Ok(())
    }

    /// Hands out the lowest free frame and marks it used; fails where no
    /// frame is free.
    pub fn request_page(&mut self) -> (r: Result<PhysicalAddress, AllocError>)
        requires
            old(self).wf(),
        ensures
            final(self).wf(),
            final(self).accounts() == old(self).accounts().after_request(),
            match r {
                Ok(p) => {
                    &&& old(self).accounts().first_free() == Some(p.value() as int / 0x1000)
                    &&& p.value() % 0x1000 == 0
                    &&& p.is_frame()
                    &&& old(self).accounts().is_free(p.value() as int / 0x1000)
                    &&& final(self).cursor() == p.value() as int / 0x1000
                },
                Err(e) => {
                    &&& e == AllocError::OutOfMemory
                    &&& old(self).accounts().first_free() is None
                    &&& final(self).cursor() == old(self).cursor()
                    &&& *final(self) == *old(self)
                },
            },
    {
        proof {
            self.page_bitmap.lemma_view();
        }
        let limit: usize = self.page_bitmap.size() * 8;
        let mut index: usize = self.last_allocated_page;
        while index < limit
            invariant
                self.wf(),
                *self == *old(self),
                limit == self.page_bitmap@.len(),
                forall|f: int| 0 <= f < index ==> !self.accounts().is_free(f),
            decreases limit - index,
        {
            if !self.page_bitmap.get(index) {
                self.last_allocated_page = index;
                let addr = PhysicalAddress::new(index as u64 * PAGE_SIZE);
                proof {
                    lemma_physical_frame((index * 0x1000) as u64);
                    let s = old(self).accounts();
                    assert(s.is_free(index as int));
                    let c = choose|f: int|
                        s.is_free(f) && forall|g: int| 0 <= g < f ==> s.bits[g];
                    assert forall|g: int| 0 <= g < index implies s.bits[g] by {
                        assert(!s.is_free(g));
                    }
                    assert(c == index) by {
                        if c < index {
                            assert(!s.is_free(c));
                        } else if c > index {
                            assert(s.bits[index as int]);
                        }
                    }
                }
                match self.lock_page(addr) {
                    Ok(_) => {
                        return Ok(addr);
                    },
                    Err(e) => {
                        proof {
                            assert(false);
                        }
                        return Err(e);
                    },
                }
            }
            index += 1;
        }
        proof {
            let s = old(self).accounts();
            assert(!exists|f: int| s.is_free(f));
        }
        Err(AllocError::OutOfMemory)
    }

    /// Marks the frame of `address` free. Fails where the frame is free
    /// already or not tracked.
    pub fn free_page(&mut self, address: PhysicalAddress) -> (r: Result<(), AllocError>)
        requires
            old(self).wf(),
        ensures
            final(self).wf(),
            r == old(self).accounts().free_result(address.value() as int / 0x1000),
            r is Err ==> *final(self) == *old(self),
            final(self).accounts() == old(self).accounts().after_free(
                address.value() as int / 0x1000,
            ),
            final(self).cursor() == if r is Ok && address.value() as int / 0x1000 < old(
                self,
            ).cursor() {
                address.value() as int / 0x1000
            } else {
                old(self).cursor()
            },
    {
        let page: u64 = address.as_u64() / PAGE_SIZE;
        proof {
            self.page_bitmap.lemma_view();
        }
        if page >= (self.page_bitmap.size() as u64) * 8 {
            return Err(AllocError::DoubleFree);
        }
        let page_number: usize = page as usize;
        if !self.page_bitmap.get(page_number) {
            return Err(AllocError::DoubleFree);
        }
        proof {
            lemma_count_update(self.page_bitmap@, page_number as int, false);
            lemma_count_bound(self.page_bitmap@);
        }
        if self.page_bitmap.set(page_number, false) {
            self.free_memory += PAGE_SIZE;
            self.used_memory -= PAGE_SIZE;
            if self.last_allocated_page > page_number {
                self.last_allocated_page = page_number
            }
        }
        proof {
            assert forall|f: int| 0 <= f < self.cursor() implies !self.accounts().is_free(f) by {
                assert(!old(self).accounts().is_free(f));
            }
        }
        Ok(())
    }
}

/// Releasing or locking a run of frames leaves every frame outside the run
/// as it was, and the number of frames too.
pub proof fn lemma_range_frame(s: FrameAccounts, start: int, count: int)
    requires
        0 <= count,
    ensures
        s.after_free_range(start, count).bits.len() == s.bits.len(),
        s.after_lock_range(start, count).bits.len() == s.bits.len(),
        forall|f: int|
            0 <= f < s.bits.len() && !(start <= f < start + count) ==> #[trigger] s.after_free_range(
                start,
                count,
            ).bits[f] == s.bits[f],
        forall|f: int|
            0 <= f < s.bits.len() && !(start <= f < start + count) ==> #[trigger] s.after_lock_range(
                start,
                count,
            ).bits[f] == s.bits[f],
        forall|f: int|
            0 <= f < s.bits.len() && start <= f < start + count ==> #[trigger] s.after_lock_range(
                start,
                count,
            ).bits[f],
        s.freeable_prefix(start, count) == count ==> forall|f: int|
            0 <= f < s.bits.len() && start <= f < start + count ==> !(
            #[trigger] s.after_free_range(start, count).bits[f]),
    decreases count,
{
    if count > 0 {
        lemma_range_frame(s, start, count - 1);
        lemma_prefix(s, start, count);
    }
}

/// The prefix that can be released (or locked) is the run up to the first
/// frame that cannot: every frame in it can, the frame after it, if the run
/// goes on, cannot, and asking for more frames does not lengthen it.
pub proof fn lemma_prefix(s: FrameAccounts, start: int, count: int)
    requires
        0 <= count,
    ensures
        0 <= s.freeable_prefix(start, count) <= count,
        0 <= s.lockable_prefix(start, count) <= count,
        forall|i: int|
            0 <= i < s.freeable_prefix(start, count) ==> #[trigger] s.is_used(start + i),
        forall|i: int|
            0 <= i < s.lockable_prefix(start, count) ==> !(#[trigger] s.is_used(start + i)),
        s.freeable_prefix(start, count) < count ==> !s.is_used(
            start + s.freeable_prefix(start, count),
        ),
        s.lockable_prefix(start, count) < count ==> s.is_used(
            start + s.lockable_prefix(start, count),
        ),
        forall|c: int|
            0 <= c <= count ==> #[trigger] s.freeable_prefix(start, c) == if s.freeable_prefix(
                start,
                count,
            ) < c {
                s.freeable_prefix(start, count)
            } else {
                c
            },
        forall|c: int|
            0 <= c <= count ==> #[trigger] s.lockable_prefix(start, c) == if s.lockable_prefix(
                start,
                count,
            ) < c {
                s.lockable_prefix(start, count)
            } else {
                c
            },
    decreases count,
{
    if count > 0 {
        lemma_prefix(s, start, count - 1);
    }
}

/// Whether the byte counts `free_memory` and `used_memory` agree with the
/// bits of `page_bitmap`, and the bitmap tracks no more than a 52-bit
/// address space: whether an allocator can be made of them.
pub fn accounts_agree(page_bitmap: &Bitmap, free_memory: u64, used_memory: u64) -> (r: bool)
    requires
        page_bitmap.wf(),
    ensures
        r == (page_bitmap@.len() <= 0x100_0000_0000 && (FrameAccounts {
            bits: page_bitmap@,
            free_ram: free_memory as int,
            used_ram: used_memory as int,
        }).consistent()),
{
    proof {
        page_bitmap.lemma_view();
        lemma_count_bound(page_bitmap@);
    }
    let bytes: u64 = page_bitmap.size() as u64;
    if bytes > 0x20_0000_0000 {
        return false;
    }
    let frames: u64 = bytes * 8;
    let used: u64 = page_bitmap.count_set() as u64;
    used_memory == used * PAGE_SIZE && free_memory == (frames - used) * PAGE_SIZE
}

/// The page-frame allocator over a bitmap of frames.
#[derive(Debug)]
pub struct PageFrameAllocator {
    lockable_allocator: PageFrameAllocatorInner,
}

impl PageFrameAllocator {
    /// The bits and byte counts.
    pub closed spec fn accounts(&self) -> FrameAccounts {
        self.lockable_allocator.accounts()
    }

    /// The bitmap that the allocator keeps.
    pub closed spec fn bitmap(&self) -> Bitmap {
        self.lockable_allocator.bitmap()
    }

    /// The index from which the search for a free frame starts.
    pub closed spec fn cursor(&self) -> int {
        self.lockable_allocator.cursor()
    }

    /// The state is well formed: see `lemma_wf`.
    pub closed spec fn wf(&self) -> bool {
        self.lockable_allocator.wf()
    }

    /// What well-formedness says: the bitmap is well formed and tracks no
    /// more than a 52-bit address space, the byte counts agree with the
    /// bits, and no frame below the cursor is free.
    pub proof fn lemma_wf(&self)
        requires
            self.wf(),
        ensures
            self.bitmap().wf(),
            self.accounts().bits == self.bitmap()@,
            self.accounts().bits.len() <= 0x100_0000_0000,
            self.accounts().consistent(),
            self.accounts().used_ram == 0x1000 * count_true(self.accounts().bits),
            forall|f: int| 0 <= f < self.cursor() ==> !self.accounts().is_free(f),
    {
        self.lockable_allocator.lemma_wf();
    }

    /// An allocator over `page_bitmap` with the given byte counts, which
    /// must agree with the bitmap.
    pub fn new_from_bitmap(page_bitmap: Bitmap, free_memory: u64, used_memory: u64) -> (r:
        PageFrameAllocator)
        requires
            page_bitmap.wf(),
            page_bitmap@.len() <= 0x100_0000_0000,
            (FrameAccounts {
                bits: page_bitmap@,
                free_ram: free_memory as int,
                used_ram: used_memory as int,
            }).consistent(),
        ensures
            r.wf(),
            r.accounts() == (FrameAccounts {
                bits: page_bitmap@,
                free_ram: free_memory as int,
                used_ram: used_memory as int,
            }),
            r.bitmap() == page_bitmap,
            r.cursor() == 0,
    {
        let mut inner = PageFrameAllocatorInner::new_uninitialized();
        inner.init(page_bitmap, free_memory, used_memory);
        PageFrameAllocator { lockable_allocator: inner }
    }

    /// An allocator that tracks no frames.
    pub fn new_uninitialized() -> (r: PageFrameAllocator)
        ensures
            r.wf(),
            r.accounts() == (FrameAccounts { bits: Seq::<bool>::empty(), free_ram: 0, used_ram: 0 }),
            r.cursor() == 0,
    {
        PageFrameAllocator { lockable_allocator: PageFrameAllocatorInner::new_uninitialized() }
    }

    /// Replaces the state by the given bitmap and byte counts, which must
    /// agree with the bitmap.
    pub fn init(&mut self, page_bitmap: Bitmap, free_memory: u64, used_memory: u64)
        requires
            page_bitmap.wf(),
            page_bitmap@.len() <= 0x100_0000_0000,
            (FrameAccounts {
                bits: page_bitmap@,
                free_ram: free_memory as int,
                used_ram: used_memory as int,
            }).consistent(),
        ensures
            final(self).wf(),
            final(self).accounts() == (FrameAccounts {
                bits: page_bitmap@,
                free_ram: free_memory as int,
                used_ram: used_memory as int,
            }),
            final(self).bitmap() == page_bitmap,
            final(self).cursor() == 0,
    {
        self.lockable_allocator.init(page_bitmap, free_memory, used_memory);
    }

    pub fn page_bitmap(&self) -> (r: &Bitmap)
        ensures
            *r == self.bitmap(),
    {
        self.lockable_allocator.page_bitmap()
    }

    pub fn get_free_ram(&self) -> (r: u64)
        ensures
            r == self.accounts().free_ram,
    {
        self.lockable_allocator.get_free_ram()
    }

    pub fn get_used_ram(&self) -> (r: u64)
        ensures
            r == self.accounts().used_ram,
    {
        self.lockable_allocator.get_used_ram()
    }

    /// Releases `page_count` frames from that of `address` on, one after
    /// the other, and stops at the first that is not in use: the frames
    /// before it stay released, it and those after it are not touched.
    pub fn free_pages(&mut self, address: PhysicalAddress, page_count: usize) -> (r: Result<
        (),
        AllocError,
    >)
        requires
            old(self).wf(),
            page_count > 0 ==> address.value() + (page_count - 1) * 0x1000 <= u64::MAX,
        ensures
            final(self).wf(),
            final(self).accounts() == old(self).accounts().after_free_range(
                address.value() as int / 0x1000,
                old(self).accounts().freeable_prefix(
                    address.value() as int / 0x1000,
                    page_count as int,
                ),
            ),
            r == if old(self).accounts().freeable_prefix(
                address.value() as int / 0x1000,
                page_count as int,
            ) == page_count {
                Ok::<(), AllocError>(())
            } else {
                Err(AllocError::DoubleFree)
            },
    {
        let ghost start = address.value() as int / 0x1000;
        let ghost s = self.accounts();
        let mut i: usize = 0;
        proof {
            lemma_prefix(s, start, page_count as int);
        }
        while i < page_count
            invariant
                self.wf(),
                i <= page_count,
                page_count > 0 ==> address.value() + (page_count - 1) * 0x1000 <= u64::MAX,
                start == address.value() as int / 0x1000,
                s == old(self).accounts(),
                s.freeable_prefix(start, i as int) == i,
                self.accounts() == s.after_free_range(start, i as int),
            decreases page_count - i,
        {
            proof {
                lemma_range_frame(s, start, i as int);
                lemma_prefix(s, start, page_count as int);
            }
            if address.as_u64() / PAGE_SIZE + i as u64 >= MAX_TRACKED_FRAMES {
                // beyond the frames that any bitmap tracks: not in use
                proof {
                    self.lemma_wf();
                    assert(!s.is_used(start + i));
                    assert(s.freeable_prefix(start, i + 1) == i as int);
                }
                return Err(AllocError::DoubleFree);
            }
            let page = address.increment_pages(i as u64);
            proof {
                assert(page.value() as int / 0x1000 == start + i);
                let cur = s.after_free_range(start, i as int);
                if 0 <= start + i < s.bits.len() {
                    assert(cur.bits[start + i] == s.bits[start + i]);
                }
                assert(cur.is_used(start + i) == s.is_used(start + i));
                assert(s.freeable_prefix(start, i + 1) == if s.is_used(start + i) == true {
                    i + 1
                } else {
                    i as int
                });
                assert(s.after_free_range(start, i + 1) == cur.after_free(start + i));
            }
            match self.lockable_allocator.free_page(page) {
                Ok(_) => {},
                Err(e) => {
                    return Err(e);
                },
            }
            i += 1;
        }
        Ok(())
    }

    /// Marks the frame of `address` used. Fails where it is used already;
    /// a frame that the bitmap does not track is left alone and reported as
    /// success.
    pub fn lock_page(&mut self, address: PhysicalAddress) -> (r: Result<(), AllocError>)
        requires
            old(self).wf(),
        ensures
            final(self).wf(),
            r == old(self).accounts().lock_result(address.value() as int / 0x1000),
            final(self).accounts() == old(self).accounts().after_lock(
                address.value() as int / 0x1000,
            ),
    {
        self.lockable_allocator.lock_page(address)
    }

    /// Locks `page_count` frames from that of `address` on, one after the
    /// other, and stops at the first that is in use already: the frames
    /// before it stay locked, those after it are not touched.
    pub fn lock_pages(&mut self, address: PhysicalAddress, page_count: usize) -> (r: Result<
        (),
        AllocError,
    >)
        requires
            old(self).wf(),
            page_count > 0 ==> address.value() + (page_count - 1) * 0x1000 <= u64::MAX,
        ensures
            final(self).wf(),
            final(self).accounts() == old(self).accounts().after_lock_range(
                address.value() as int / 0x1000,
                old(self).accounts().lockable_prefix(
                    address.value() as int / 0x1000,
                    page_count as int,
                ),
            ),
            r == if old(self).accounts().lockable_prefix(
                address.value() as int / 0x1000,
                page_count as int,
            ) == page_count {
                Ok::<(), AllocError>(())
            } else {
                Err(AllocError::AlreadyUsed)
            },
    {
        let ghost start = address.value() as int / 0x1000;
        let ghost s = self.accounts();
        let mut i: usize = 0;
        proof {
            lemma_prefix(s, start, page_count as int);
        }
        while i < page_count
            invariant
                self.wf(),
                i <= page_count,
                page_count > 0 ==> address.value() + (page_count - 1) * 0x1000 <= u64::MAX,
                start == address.value() as int / 0x1000,
                s == old(self).accounts(),
                s.lockable_prefix(start, i as int) == i,
                self.accounts() == s.after_lock_range(start, i as int),
            decreases page_count - i,
        {
            proof {
                lemma_range_frame(s, start, i as int);
                lemma_prefix(s, start, page_count as int);
            }
            if address.as_u64() / PAGE_SIZE + i as u64 >= MAX_TRACKED_FRAMES {
                // beyond the frames that any bitmap tracks: left alone
                proof {
                    self.lemma_wf();
                    let cur = s.after_lock_range(start, i as int);
                    assert(!s.is_used(start + i));
                    assert(s.lockable_prefix(start, i + 1) == i + 1);
                    assert(s.after_lock_range(start, i + 1) == cur.after_lock(start + i));
                }
            } else {
                let page = address.increment_pages(i as u64);
                proof {
                    assert(page.value() as int / 0x1000 == start + i);
                    let cur = s.after_lock_range(start, i as int);
                    if 0 <= start + i < s.bits.len() {
                        assert(cur.bits[start + i] == s.bits[start + i]);
                    }
                    assert(cur.is_used(start + i) == s.is_used(start + i));
                    assert(s.lockable_prefix(start, i + 1) == if s.is_used(start + i) == false {
                        i + 1
                    } else {
                        i as int
                    });
                    assert(s.after_lock_range(start, i + 1) == cur.after_lock(start + i));
                }
                match self.lockable_allocator.lock_page(page) {
                    Ok(_) => {},
                    Err(e) => {
                        return Err(e);
                    },
                }
            }
            i += 1;
        }
        Ok(())
    }
}

impl FrameAllocator for PageFrameAllocator {
    open spec fn valid(&self) -> bool {
        self.wf()
    }

    open spec fn used_frames(&self) -> Set<int> {
        self.accounts().used_frames()
    }

    open spec fn request_outcome(&self) -> Result<u64, AllocError> {
        match self.accounts().first_free() {
            Some(frame) => Ok((frame * 0x1000) as u64),
            None => Err(AllocError::OutOfMemory),
        }
    }

    open spec fn free_outcome(&self, address: u64) -> Result<(), AllocError> {
        self.accounts().free_result(address as int / 0x1000)
    }

    /// Hands out the lowest free frame.
    fn request_page(&mut self) -> (r: Result<PhysicalAddress, AllocError>)
        ensures
            final(self).accounts() == old(self).accounts().after_request(),
            match r {
                Ok(p) => {
                    &&& old(self).accounts().first_free() == Some(p.value() as int / 0x1000)
                    &&& p.value() % 0x1000 == 0
                },
                Err(e) => e == AllocError::OutOfMemory && old(self).accounts().first_free() is None,
            },
    {
        let r = self.lockable_allocator.request_page();
        proof {
            let s = old(self).accounts();
            match r {
                Ok(p) => {
                    let f = p.value() as int / 0x1000;
                    assert(self.accounts().used_frames() =~= s.used_frames().insert(f));
                },
                Err(_) => {},
            }
        }
        r
    }

    /// Releases the frame of `address`; fails where it is free already or
    /// not tracked.
    fn free_page(&mut self, address: PhysicalAddress) -> (r: Result<(), AllocError>)
        ensures
            r == old(self).accounts().free_result(address.value() as int / 0x1000),
            final(self).accounts() == old(self).accounts().after_free(
                address.value() as int / 0x1000,
            ),
    {
        let r = self.lockable_allocator.free_page(address);
        proof {
            let s = old(self).accounts();
            let f = address.value() as int / 0x1000;
            if r is Ok {
                assert(self.accounts().used_frames() =~= s.used_frames().remove(f));
            }
        }
        r
    }
}

/// This allocator takes back every frame that it holds as used: it
/// refuses none of them, with whatever error.
pub proof fn lemma_refuses_none(allocator: PageFrameAllocator, e: AllocError)
    ensures
        !refuses(allocator, e),
{
}

} // verus!
