//! The page-aligned sections of an ELF image, kept in ascending order of
//! their virtual base, and the merge of sections that share pages.
use crate::bootloader::kernel_loader::LoadError;
use crate::elf::ElfPhysicalHeader64;
use crate::memory::address::{
    canonical_form, lemma_canonical_form, lemma_page_base, lemma_physical_frame, physical_frame,
    PhysicalAddress, VirtualAddress, PAGE_OFFSET_MASK, PAGE_SIZE,
};
use vstd::prelude::*;

verus! {

/// The size in bytes of one section record: the list holds as many as fit
/// in its pages.
pub const SECTION_RECORD_SIZE: usize = 32;

/// The ranges that a section covers: `file_pages` pages of the file from
/// `file_base` on, and `mem_pages` pages of virtual memory from `virt_base`
/// on.
pub struct SectionSpan {
    pub file_base: int,
    pub virt_base: int,
    pub file_pages: int,
    pub mem_pages: int,
}

impl SectionSpan {
    pub open spec fn file_end(self) -> int {
        self.file_base + self.file_pages * 0x1000
    }

    pub open spec fn mem_end(self) -> int {
        self.virt_base + self.mem_pages * 0x1000
    }

    /// The section lies within bounds and takes at least as many pages of
    /// memory as of the file.
    pub open spec fn wf(self) -> bool {
        &&& self.bounded()
        &&& self.file_pages <= self.mem_pages
    }

    /// Both bases are page aligned, the file base is a frame address, the
    /// virtual base is canonical, and both ranges end within 64 bits.
    pub open spec fn bounded(self) -> bool {
        &&& 0 <= self.file_base < 0x10_0000_0000_0000
        &&& self.file_base % 0x1000 == 0
        &&& 0 <= self.virt_base <= u64::MAX
        &&& self.virt_base % 0x1000 == 0
        &&& canonical_form(self.virt_base as u64) == self.virt_base
        &&& 0 <= self.file_pages
        &&& 0 <= self.mem_pages
        &&& self.file_end() <= u64::MAX
        &&& self.mem_end() <= u64::MAX
    }

    /// The base of one of the two virtual ranges lies in the other range.
    pub open spec fn overlaps(self, other: SectionSpan) -> bool {
        (self.virt_base <= other.virt_base < self.mem_end()) || (other.virt_base <= self.virt_base
            < other.mem_end())
    }

    /// Both sections lie at the same distance from their place in the
    /// file.
    pub open spec fn same_offset(self, other: SectionSpan) -> bool {
        self.virt_base - self.file_base == other.virt_base - other.file_base
    }

    /// The section that spans the file ranges and the virtual ranges of
    /// both.
    pub open spec fn union(self, other: SectionSpan) -> SectionSpan {
        let file_base = if self.file_base <= other.file_base {
            self.file_base
        } else {
            other.file_base
        };
        let virt_base = if self.virt_base <= other.virt_base {
            self.virt_base
        } else {
            other.virt_base
        };
        let file_end = if self.file_end() >= other.file_end() {
            self.file_end()
        } else {
            other.file_end()
        };
        let mem_end = if self.mem_end() >= other.mem_end() {
            self.mem_end()
        } else {
            other.mem_end()
        };
        SectionSpan {
            file_base,
            virt_base,
            file_pages: (file_end - file_base) / 0x1000,
            mem_pages: (mem_end - virt_base) / 0x1000,
        }
    }

    /// The section of a segment that lies at `file_address` in the file
    /// and at `virtual_address` in memory: both addresses rounded down to a
    /// page, both sizes rounded up to whole pages from there.
    pub open spec fn of_segment(
        file_address: u64,
        virtual_address: u64,
        file_size: u64,
        memory_size: u64,
    ) -> SectionSpan {
        SectionSpan {
            file_base: physical_frame(file_address) as int,
            virt_base: canonical_form((virtual_address - virtual_address % 0x1000) as u64) as int,
            file_pages: (file_size + file_address % 0x1000 + 0xFFF) / 0x1000,
            mem_pages: (memory_size + file_address % 0x1000 + 0xFFF) / 0x1000,
        }
    }

    /// The segment takes no more of the file than of memory, its sizes can
    /// be rounded up, and its section is well formed.
    pub open spec fn segment_fits(
        file_address: u64,
        virtual_address: u64,
        file_size: u64,
        memory_size: u64,
    ) -> bool {
        &&& file_size <= memory_size
        &&& file_size + file_address % 0x1000 + 0xFFF <= u64::MAX
        &&& memory_size + file_address % 0x1000 + 0xFFF <= u64::MAX
        &&& Self::of_segment(file_address, virtual_address, file_size, memory_size).file_end()
            <= u64::MAX
        &&& Self::of_segment(file_address, virtual_address, file_size, memory_size).mem_end()
            <= u64::MAX
    }
}

/// A whole number of pages is as many pages rounded up as rounded down.
pub proof fn lemma_whole_pages(base: int, pages: int, end: int)
    requires
        base % 0x1000 == 0,
        end == base + pages * 0x1000,
    ensures
        end % 0x1000 == 0,
        (end - base) / 0x1000 == pages,
        (end - base + 0xFFF) / 0x1000 == pages,
{
}

/// The union of two sections within bounds lies within bounds, and is the
/// section of the segment that starts at the lower bases and ends at the
/// higher ends. Where both are well formed and lie at the same distance
/// from their place in the file, the union is well formed.
pub proof fn lemma_union(a: SectionSpan, b: SectionSpan)
    requires
        a.bounded(),
        b.bounded(),
    ensures
        a.union(b).bounded(),
        a.wf() && b.wf() && a.same_offset(b) ==> a.union(b).wf(),
        a.union(b) == b.union(a),
        a.union(b).file_end() == if a.file_end() >= b.file_end() {
            a.file_end()
        } else {
            b.file_end()
        },
        a.union(b).mem_end() == if a.mem_end() >= b.mem_end() {
            a.mem_end()
        } else {
            b.mem_end()
        },
{
    let u = a.union(b);
    let file_end = if a.file_end() >= b.file_end() {
        a.file_end()
    } else {
        b.file_end()
    };
    let mem_end = if a.mem_end() >= b.mem_end() {
        a.mem_end()
    } else {
        b.mem_end()
    };
    lemma_whole_pages(a.file_base, a.file_pages, a.file_end());
    lemma_whole_pages(b.file_base, b.file_pages, b.file_end());
    lemma_whole_pages(a.virt_base, a.mem_pages, a.mem_end());
    lemma_whole_pages(b.virt_base, b.mem_pages, b.mem_end());
    assert((file_end - u.file_base) % 0x1000 == 0);
    assert((mem_end - u.virt_base) % 0x1000 == 0);
    assert(u.file_pages * 0x1000 == file_end - u.file_base);
    assert(u.mem_pages * 0x1000 == mem_end - u.virt_base);
}

/// The section of a segment that fits is well formed.
pub proof fn lemma_segment_wf(
    file_address: u64,
    virtual_address: u64,
    file_size: u64,
    memory_size: u64,
)
    requires
        SectionSpan::segment_fits(file_address, virtual_address, file_size, memory_size),
    ensures
        SectionSpan::of_segment(file_address, virtual_address, file_size, memory_size).wf(),
{
    lemma_page_base(file_address);
    lemma_page_base(virtual_address);
    lemma_page_base((virtual_address - virtual_address % 0x1000) as u64);
    lemma_canonical_form((virtual_address - virtual_address % 0x1000) as u64);
    lemma_physical_frame(file_address);
}

/// One section of the image to load.
#[derive(Copy, Clone, Debug)]
pub struct ElfSection {
    pub file_address: PhysicalAddress,
    pub virtual_address: VirtualAddress,
    pub num_file_pages: u64,
    pub num_mem_pages: u64,
}

impl View for ElfSection {
    type V = SectionSpan;

    open spec fn view(&self) -> SectionSpan {
        SectionSpan {
            file_base: self.file_address.value() as int,
            virt_base: self.virtual_address.value() as int,
            file_pages: self.num_file_pages as int,
            mem_pages: self.num_mem_pages as int,
        }
    }
}

impl ElfSection {
    /// The section of a segment: see `SectionSpan::of_segment`.
    pub fn new(file_address: u64, virtual_address: u64, file_size: u64, memory_size: u64) -> (r:
        ElfSection)
        requires
            file_size + file_address % 0x1000 + 0xFFF <= u64::MAX,
            memory_size + file_address % 0x1000 + 0xFFF <= u64::MAX,
        ensures
            r@ == SectionSpan::of_segment(file_address, virtual_address, file_size, memory_size),
            SectionSpan::segment_fits(file_address, virtual_address, file_size, memory_size)
                ==> r@.wf(),
    {
        proof {
            lemma_page_base(file_address);
            lemma_page_base(virtual_address);
            lemma_page_base((virtual_address - virtual_address % 0x1000) as u64);
            lemma_canonical_form((virtual_address - virtual_address % 0x1000) as u64);
            lemma_physical_frame(file_address);
        }
        let page_offset = file_address & PAGE_OFFSET_MASK;
        let num_file_pages = (file_size + page_offset + (PAGE_SIZE - 1)) / PAGE_SIZE;
        let num_mem_pages = (memory_size + page_offset + (PAGE_SIZE - 1)) / PAGE_SIZE;
        ElfSection {
            file_address: PhysicalAddress::new(file_address),
            virtual_address: VirtualAddress::new(virtual_address & !PAGE_OFFSET_MASK),
            num_file_pages,
            num_mem_pages,
        }
    }

    /// The address just beyond the virtual range, in canonical form.
    pub fn get_mem_end(&self) -> (r: VirtualAddress)
        requires
            self@.mem_end() <= u64::MAX,
        ensures
            r.value() == canonical_form(self@.mem_end() as u64),
    {
        self.virtual_address.increment_pages(self.num_mem_pages)
    }

    /// The frame just beyond the file range.
    pub fn get_file_end(&self) -> (r: PhysicalAddress)
        requires
            self@.file_end() <= u64::MAX,
        ensures
            r.value() == physical_frame(self@.file_end() as u64),
    {
        self.file_address.increment_pages(self.num_file_pages)
    }

    /// The number just beyond the virtual range.
    fn mem_end_number(&self) -> (r: u64)
        requires
            self@.mem_end() <= u64::MAX,
        ensures
            r == self@.mem_end(),
    {
        self.virtual_address.as_u64() + self.num_mem_pages * PAGE_SIZE
    }

    /// The number just beyond the file range.
    fn file_end_number(&self) -> (r: u64)
        requires
            self@.file_end() <= u64::MAX,
        ensures
            r == self@.file_end(),
    {
        self.file_address.as_u64() + self.num_file_pages * PAGE_SIZE
    }

    /// Whether the virtual ranges of the two sections overlap.
    pub fn has_virtual_overlap(&self, other: ElfSection) -> (r: bool)
        requires
            self@.mem_end() <= u64::MAX,
            other@.mem_end() <= u64::MAX,
        ensures
            r == self@.overlaps(other@),
    {
        let self_base = self.virtual_address.as_u64();
        let other_base = other.virtual_address.as_u64();
        (self_base <= other_base) && (self.mem_end_number() > other_base) || (other_base
            <= self_base) && (other.mem_end_number() > self_base)
    }

    /// Whether both sections lie at the same distance, in the same
    /// direction, from their place in the file.
    pub fn has_same_offset(&self, other: ElfSection) -> (r: bool)
        ensures
            r == self@.same_offset(other@),
    {
        let self_file_addr = self.file_address.as_u64();
        let self_virt_addr = self.virtual_address.as_u64();
        let other_file_addr = other.file_address.as_u64();
        let other_virt_addr = other.virtual_address.as_u64();
        let same_direction = (self_file_addr <= self_virt_addr) == (other_file_addr
            <= other_virt_addr);
        let self_distance = if self_file_addr <= self_virt_addr {
            self_virt_addr - self_file_addr
        } else {
            self_file_addr - self_virt_addr
        };
        let other_distance = if other_file_addr <= other_virt_addr {
            other_virt_addr - other_file_addr
        } else {
            other_file_addr - other_virt_addr
        };
        same_direction && self_distance == other_distance
    }

    /// The union of the two sections where their virtual ranges overlap;
    /// none where they do not. Sections that overlap but lie at different
    /// distances from their place in the file cannot be loaded as one:
    /// that is an error.
    pub fn combine_if_possible(&self, other: ElfSection) -> (r: Result<Option<ElfSection>, LoadError>)
        requires
            self@.wf(),
            other@.wf(),
        ensures
            match r {
                Ok(Some(combined)) => {
                    &&& self@.overlaps(other@)
                    &&& self@.same_offset(other@)
                    &&& combined@ == self@.union(other@)
                    &&& combined@.wf()
                },
                Ok(None) => !self@.overlaps(other@),
                Err(e) => {
                    &&& e == LoadError::MisalignedElf
                    &&& self@.overlaps(other@)
                    &&& !self@.same_offset(other@)
                },
            },
    {
        if !self.has_virtual_overlap(other) {
            return Ok(None);
        }
        if !self.has_same_offset(other) {
            return Err(LoadError::MisalignedElf);
        }
        let self_file = self.file_address.as_u64();
        let other_file = other.file_address.as_u64();
        let min_file_address = if self_file <= other_file {
            self_file
        } else {
            other_file
        };
        let self_file_end = self.file_end_number();
        let other_file_end = other.file_end_number();
        let max_file_address = if self_file_end >= other_file_end {
            self_file_end
        } else {
            other_file_end
        };
        let self_virt = self.virtual_address.as_u64();
        let other_virt = other.virtual_address.as_u64();
        let min_virtual_address = if self_virt <= other_virt {
            self_virt
        } else {
            other_virt
        };
        let self_mem_end = self.mem_end_number();
        let other_mem_end = other.mem_end_number();
        let max_virtual_address = if self_mem_end >= other_mem_end {
            self_mem_end
        } else {
            other_mem_end
        };
        proof {
            lemma_physical_frame(min_file_address);
            lemma_page_base(min_virtual_address);
            lemma_union(self@, other@);
            let u = self@.union(other@);
            lemma_whole_pages(u.file_base, u.file_pages, max_file_address as int);
            lemma_whole_pages(u.virt_base, u.mem_pages, max_virtual_address as int);
            assert(max_file_address - min_file_address + 0xFFF <= u64::MAX);
            assert(max_virtual_address - min_virtual_address + 0xFFF <= u64::MAX);
        }
        let combined = ElfSection::new(
            min_file_address,
            min_virtual_address,
            max_file_address - min_file_address,
            max_virtual_address - min_virtual_address,
        );
        proof {
            assert(combined@ == self@.union(other@));
        }
        Ok(Some(combined))
    }
}

/// The spans of a sequence of sections.
pub open spec fn spans(sections: Seq<ElfSection>) -> Seq<SectionSpan> {
    Seq::new(sections.len(), |i: int| sections[i]@)
}

/// The virtual bases ascend.
pub open spec fn ascending(s: Seq<SectionSpan>) -> bool {
    forall|i: int, j: int| 0 <= i < j < s.len() ==> s[i].virt_base <= s[j].virt_base
}

/// Every section is well formed.
pub open spec fn all_wf(s: Seq<SectionSpan>) -> bool {
    forall|i: int| 0 <= i < s.len() ==> (#[trigger] s[i]).wf()
}

/// Every section lies within bounds.
pub open spec fn all_bounded(s: Seq<SectionSpan>) -> bool {
    forall|i: int| 0 <= i < s.len() ==> (#[trigger] s[i]).bounded()
}

/// Every section covers at least one page of memory.
pub open spec fn all_occupied(s: Seq<SectionSpan>) -> bool {
    forall|i: int| 0 <= i < s.len() ==> (#[trigger] s[i]).mem_pages >= 1
}

/// Where a section with virtual base `base` goes into `s`: behind the
/// sections with a lower base that end `s`, before all others.
pub open spec fn insertion_point(s: Seq<SectionSpan>, base: int) -> int
    decreases s.len(),
{
    if s.len() == 0 {
        0
    } else if s.last().virt_base < base {
        s.len() as int
    } else {
        insertion_point(s.drop_last(), base)
    }
}

/// The sections of `s` with every run of sections that overlap replaced by
/// their union: each section, in order, is united with the last section of
/// the result so far where the two overlap, and appended where they do
/// not.
pub open spec fn merged(s: Seq<SectionSpan>) -> Seq<SectionSpan>
    decreases s.len(),
{
    if s.len() <= 1 {
        s
    } else {
        let before = merged(s.drop_last());
        if before.last().overlaps(s.last()) {
            before.drop_last().push(before.last().union(s.last()))
        } else {
            before.push(s.last())
        }
    }
}

/// Some section of `s` overlaps the result of merging those before it but
/// lies at another distance from its place in the file.
pub open spec fn conflicting(s: Seq<SectionSpan>) -> bool
    decreases s.len(),
{
    if s.len() <= 1 {
        false
    } else {
        conflicting(s.drop_last()) || (merged(s.drop_last()).last().overlaps(s.last())
            && !merged(s.drop_last()).last().same_offset(s.last()))
    }
}

/// Where the insertion point lies: nothing before it has a base as high as
/// `base`, and in an ascending sequence everything from it on has.
pub proof fn lemma_insertion_point(s: Seq<SectionSpan>, base: int)
    ensures
        0 <= insertion_point(s, base) <= s.len(),
        insertion_point(s, base) > 0 ==> s[insertion_point(s, base) - 1].virt_base < base,
        forall|i: int| insertion_point(s, base) <= i < s.len() ==> s[i].virt_base >= base,
        ascending(s) ==> forall|i: int|
            0 <= i < insertion_point(s, base) ==> s[i].virt_base < base,
        ascending(s) ==> ascending(
            s.insert(insertion_point(s, base), SectionSpan { file_base: 0, virt_base: base, file_pages: 0, mem_pages: 0 }),
        ),
    decreases s.len(),
{
    let point = insertion_point(s, base);
    let marker = SectionSpan { file_base: 0, virt_base: base, file_pages: 0, mem_pages: 0 };
    if s.len() > 0 {
        let front = s.drop_last();
        lemma_insertion_point(front, base);
        assert forall|i: int| point <= i < s.len() implies s[i].virt_base >= base by {
            if i < s.len() - 1 {
                assert(front[i] == s[i]);
            }
        }
        if ascending(s) {
            assert forall|i: int, j: int| 0 <= i < j < front.len() implies front[i].virt_base
                <= front[j].virt_base by {
                assert(s[i].virt_base <= s[j].virt_base);
            }
            assert forall|i: int| 0 <= i < point implies s[i].virt_base < base by {
                if point == s.len() {
                    assert(s[i].virt_base <= s.last().virt_base);
                } else {
                    assert(front[i] == s[i]);
                }
            }
        }
    }
    if ascending(s) {
        let t = s.insert(point, marker);
        assert forall|i: int, j: int| 0 <= i < j < t.len() implies t[i].virt_base
            <= t[j].virt_base by {
            if j < point {
                assert(s[i].virt_base <= s[j].virt_base);
            } else if j == point {
                assert(s[i].virt_base < base);
            } else if i < point {
                assert(s[i].virt_base < base);
                assert(s[j - 1].virt_base >= base);
            } else if i == point {
                assert(s[j - 1].virt_base >= base);
            } else {
                assert(s[i - 1].virt_base <= s[j - 1].virt_base);
            }
        }
    }
}

/// Merging keeps a sequence ascending and its sections within bounds,
/// makes it no longer, leaves it with a section where it had one, and no
/// base of the result lies above the last base of the sequence. Where no
/// section conflicts, it keeps well-formed sections well formed.
pub proof fn lemma_merged_ascending(s: Seq<SectionSpan>)
    requires
        ascending(s),
        all_bounded(s),
    ensures
        ascending(merged(s)),
        all_bounded(merged(s)),
        all_wf(s) && !conflicting(s) ==> all_wf(merged(s)),
        merged(s).len() <= s.len(),
        s.len() > 0 ==> merged(s).len() > 0,
        forall|i: int|
            0 <= i < merged(s).len() ==> (#[trigger] merged(s)[i]).virt_base <= s.last().virt_base,
        all_occupied(s) ==> all_occupied(merged(s)),
    decreases s.len(),
{
    if s.len() > 1 {
        let front = s.drop_last();
        lemma_merged_ascending(front);
        let before = merged(front);
        assert(front.last() == s[s.len() - 2]);
        if before.last().overlaps(s.last()) {
            lemma_union(before.last(), s.last());
        }
    }
}

/// No two sections of a merged sequence overlap: each ends before the
/// next begins.
pub proof fn lemma_merged_separate(s: Seq<SectionSpan>)
    requires
        ascending(s),
        all_bounded(s),
    ensures
        forall|i: int, j: int|
            0 <= i < j < merged(s).len() ==> (#[trigger] merged(s)[i]).mem_end() <= (
            #[trigger] merged(s)[j]).virt_base,
        all_occupied(s) ==> forall|i: int, j: int|
            0 <= i < merged(s).len() && 0 <= j < merged(s).len() && i != j ==> !(
            #[trigger] merged(s)[i]).overlaps(#[trigger] merged(s)[j]),
    decreases s.len(),
{
    lemma_merged_ascending(s);
    if s.len() > 1 {
        let front = s.drop_last();
        lemma_merged_separate(front);
        lemma_merged_ascending(front);
        let before = merged(front);
        assert(front.last() == s[s.len() - 2]);
        if before.last().overlaps(s.last()) {
            lemma_union(before.last(), s.last());
        }
    }
    let out = merged(s);
    if all_occupied(s) {
        assert forall|i: int, j: int|
            0 <= i < out.len() && 0 <= j < out.len() && i != j implies !(#[trigger] out[i]).overlaps(
            #[trigger] out[j],
        ) by {
            if i < j {
                assert(out[i].mem_end() <= out[j].virt_base);
            } else {
                assert(out[j].mem_end() <= out[i].virt_base);
            }
            assert(out[i].mem_pages >= 1 && out[j].mem_pages >= 1);
        }
    }
}

/// The sections of an image, in ascending order of their virtual base. The
/// list holds as many sections as fit in the pages it was made for.
#[derive(Debug)]
pub struct ElfSectionList {
    sections: Vec<ElfSection>,
    num_pages: usize,
}

impl View for ElfSectionList {
    type V = Seq<SectionSpan>;

    closed spec fn view(&self) -> Seq<SectionSpan> {
        spans(self.sections@)
    }
}

impl ElfSectionList {
    /// The most sections that the list holds.
    pub closed spec fn capacity(&self) -> int {
        (0x1000 * self.num_pages) / 32
    }

    /// The sections are well formed and ascend, and there are no more than
    /// the list holds.
    pub closed spec fn wf(&self) -> bool {
        &&& 0x1000 * self.num_pages <= usize::MAX
        &&& self.sections@.len() <= self.capacity()
        &&& all_wf(self@)
        &&& ascending(self@)
    }

    /// What well-formedness says.
    pub proof fn lemma_wf(&self)
        requires
            self.wf(),
        ensures
            self@.len() <= self.capacity(),
            all_wf(self@),
            ascending(self@),
    {
    }

    /// An empty list of whole pages that holds at least `item_count`
    /// sections.
    pub fn new(item_count: usize) -> (r: ElfSectionList)
        requires
            32 * item_count + 0xFFF <= usize::MAX,
        ensures
            r.wf(),
            r@.len() == 0,
            r.capacity() == (0x1000 * ((32 * item_count + 0xFFF) / 0x1000)) / 32,
            r.capacity() >= item_count,
    {
        let min_mem_size = SECTION_RECORD_SIZE * item_count;
        let num_pages = (min_mem_size + (PAGE_SIZE as usize - 1)) / (PAGE_SIZE as usize);
        ElfSectionList { sections: Vec::new(), num_pages }
    }

    /// The most sections that the list holds.
    pub fn max_items(&self) -> (r: usize)
        requires
            self.wf(),
        ensures
            r == self.capacity(),
    {
        ((PAGE_SIZE as usize) * self.num_pages) / SECTION_RECORD_SIZE
    }

    /// The number of sections in the list.
    pub fn size(&self) -> (r: usize)
        ensures
            r == self@.len(),
    {
        self.sections.len()
    }

    /// Whether the segment that `section_header` describes has a section:
    /// it takes no more of the file than of memory, its sizes can be
    /// rounded up to pages and its ranges end within 64 bits.
    pub fn segment_fits(section_header: &ElfPhysicalHeader64) -> (r: bool)
        ensures
            r == SectionSpan::segment_fits(
                section_header.p_offset,
                section_header.p_vaddr,
                section_header.p_filesz,
                section_header.p_memsz,
            ),
    {
        proof {
            lemma_page_base(section_header.p_offset);
            lemma_page_base(section_header.p_vaddr);
        }
        let page_offset: u64 = section_header.p_offset & PAGE_OFFSET_MASK;
        let room: u64 = u64::MAX - 0xFFF - page_offset;
        if section_header.p_filesz > section_header.p_memsz || section_header.p_memsz > room {
            return false;
        }
        let file_pages: u64 = (section_header.p_filesz + page_offset + 0xFFF) / PAGE_SIZE;
        let mem_pages: u64 = (section_header.p_memsz + page_offset + 0xFFF) / PAGE_SIZE;
        let file_base: u64 = PhysicalAddress::new(section_header.p_offset).as_u64();
        let virt_base: u64 = VirtualAddress::new(
            section_header.p_vaddr & !PAGE_OFFSET_MASK,
        ).as_u64();
        file_pages <= (u64::MAX - file_base) / PAGE_SIZE && mem_pages <= (u64::MAX - virt_base)
            / PAGE_SIZE
    }

    /// Adds the section of the segment that `section_header` describes, in
    /// front of the sections whose virtual base is not lower. Fails, with
    /// the list unchanged, where the list is full or the segment has no
    /// section.
    pub fn add_section(&mut self, section_header: &ElfPhysicalHeader64) -> (r: Result<
        (),
        LoadError,
    >)
        requires
            old(self).wf(),
        ensures
            final(self).wf(),
            final(self).capacity() == old(self).capacity(),
            r == if old(self)@.len() == old(self).capacity() {
                Err::<(), LoadError>(LoadError::CapacityExceeded)
            } else if !SectionSpan::segment_fits(
                section_header.p_offset,
                section_header.p_vaddr,
                section_header.p_filesz,
                section_header.p_memsz,
            ) {
                Err(LoadError::InvalidKernelImage)
            } else {
                Ok(())
            },
            r is Err ==> final(self)@ == old(self)@,
            r is Ok ==> final(self)@ == old(self)@.insert(
                insertion_point(
                    old(self)@,
                    SectionSpan::of_segment(
                        section_header.p_offset,
                        section_header.p_vaddr,
                        section_header.p_filesz,
                        section_header.p_memsz,
                    ).virt_base,
                ),
                SectionSpan::of_segment(
                    section_header.p_offset,
                    section_header.p_vaddr,
                    section_header.p_filesz,
                    section_header.p_memsz,
                ),
            ),
    {
        if self.max_items() == self.sections.len() {
            return Err(LoadError::CapacityExceeded);
        }
        if !Self::segment_fits(section_header) {
            return Err(LoadError::InvalidKernelImage);
        }
        let section = ElfSection::new(
            section_header.p_offset,
            section_header.p_vaddr,
            section_header.p_filesz,
            section_header.p_memsz,
        );
        let ghost before = self@;
        let ghost base = section@.virt_base;
        let section_base: u64 = section.virtual_address.as_u64();
        let mut index: usize = self.sections.len();
        proof {
            assert(before.subrange(0, before.len() as int) =~= before);
        }
        while index > 0 && self.sections[index - 1].virtual_address.as_u64() >= section_base
            invariant
                index <= self.sections@.len(),
                self@ == before,
                *self == *old(self),
                base == section@.virt_base,
                base == section_base,
                insertion_point(before, base) == insertion_point(
                    before.subrange(0, index as int),
                    base,
                ),
            decreases index,
        {
            proof {
                let front = before.subrange(0, index as int);
                assert(front.drop_last() =~= before.subrange(0, index - 1));
                assert(front.last() == self.sections@[index - 1]@);
            }
            index -= 1;
        }
        proof {
            let front = before.subrange(0, index as int);
            if index > 0 {
                assert(front.last() == self.sections@[index - 1]@);
            }
            assert(insertion_point(front, base) == index);
            lemma_insertion_point(before, base);
        }
        self.sections.insert(index, section);
        proof {
            assert(self@ =~= before.insert(index as int, section@));
            let marker = SectionSpan { file_base: 0, virt_base: base, file_pages: 0, mem_pages: 0 };
            let with_marker = before.insert(index as int, marker);
            assert forall|i: int, j: int| 0 <= i < j < self@.len() implies self@[i].virt_base
                <= self@[j].virt_base by {
                assert(with_marker[i].virt_base <= with_marker[j].virt_base);
                assert(self@[i].virt_base == with_marker[i].virt_base);
                assert(self@[j].virt_base == with_marker[j].virt_base);
            }
        }
        Ok(())
    }

    /// Replaces every run of sections that overlap by their union: see
    /// `merged`. Fails, with the list unchanged, where a section overlaps
    /// those before it but lies at another distance from its place in the
    /// file.
    pub fn merge_sections(&mut self) -> (r: Result<(), LoadError>)
        requires
            old(self).wf(),
        ensures
            final(self).wf(),
            final(self).capacity() == old(self).capacity(),
            r == if conflicting(old(self)@) {
                Err::<(), LoadError>(LoadError::MisalignedElf)
            } else {
                Ok(())
            },
            r is Err ==> final(self)@ == old(self)@,
            r is Ok ==> final(self)@ == merged(old(self)@),
    {
        let count = self.sections.len();
        if count == 0 {
            return Ok(());
        }
        let ghost given = self@;
        let mut out: Vec<ElfSection> = Vec::new();
        out.push(self.sections[0]);
        let mut last_section_index: usize = 0;
        proof {
            assert(given.subrange(0, 1).len() == 1);
            assert(spans(out@) =~= merged(given.subrange(0, 1)));
        }
        let mut i: usize = 1;
        while i < count
            invariant
                1 <= i <= count,
                count == self.sections@.len(),
                *self == *old(self),
                given == self@,
                self.wf(),
                out@.len() == last_section_index + 1,
                out@.len() <= i,
                spans(out@) == merged(given.subrange(0, i as int)),
                !conflicting(given.subrange(0, i as int)),
            decreases count - i,
        {
            let ghost front = given.subrange(0, i as int);
            let ghost next = given.subrange(0, i + 1);
            proof {
                assert(next.drop_last() =~= front);
                assert(next.last() == given[i as int]);
                assert forall|a: int, b: int| 0 <= a < b < front.len() implies front[a].virt_base
                    <= front[b].virt_base by {
                    assert(given[a].virt_base <= given[b].virt_base);
                }
                assert forall|a: int| 0 <= a < front.len() implies (#[trigger] front[a]).wf() by {
                    assert(given[a].wf());
                }
                lemma_merged_ascending(front);
                assert(given[i as int].wf());
                assert(spans(out@).last() == out@[last_section_index as int]@);
            }
            let last_section = out[last_section_index];
            let current_section = self.sections[i];
            match last_section.combine_if_possible(current_section) {
                Ok(Some(combined)) => {
                    out[last_section_index] = combined;
                    proof {
                        assert(spans(out@) =~= merged(front).drop_last().push(
                            merged(front).last().union(next.last()),
                        ));
                    }
                },
                Ok(None) => {
                    last_section_index += 1;
                    out.push(current_section);
                    proof {
                        assert(spans(out@) =~= merged(front).push(next.last()));
                    }
                },
                Err(e) => {
                    proof {
                        lemma_conflict_stays(given, i + 1);
                        assert(given.subrange(0, given.len() as int) =~= given);
                    }
                    return Err(e);
                },
            }
            i += 1;
        }
        proof {
            assert(given.subrange(0, count as int) =~= given);
            lemma_merged_ascending(given);
        }
        self.sections = out;
        Ok(())
    }

    /// The section at `index`, if there is one.
    pub fn get_section(&self, index: usize) -> (r: Option<ElfSection>)
        ensures
            r is Some <==> index < self@.len(),
            r matches Some(section) ==> section@ == self@[index as int],
    {
        if index >= self.sections.len() {
            return None;
        }
        Some(self.sections[index])
    }

    /// A cursor at the first section.
    pub fn iter(&self) -> (r: ElfSectionListIterator<'_>)
        ensures
            r.list() == self,
            r.position() == 0,
            r.end() == self@.len(),
    {
        ElfSectionListIterator { asset_list: self, current_index: 0, max_index: self.sections.len() }
    }
}

/// A conflict among the first `count` sections is a conflict among all.
pub proof fn lemma_conflict_stays(s: Seq<SectionSpan>, count: int)
    requires
        0 <= count <= s.len(),
        conflicting(s.subrange(0, count)),
    ensures
        conflicting(s),
    decreases s.len() - count,
{
    if count < s.len() {
        assert(s.subrange(0, count + 1).drop_last() =~= s.subrange(0, count));
        lemma_conflict_stays(s, count + 1);
    } else {
        assert(s.subrange(0, count) =~= s);
    }
}

/// A cursor over the sections of a list.
pub struct ElfSectionListIterator<'a> {
    asset_list: &'a ElfSectionList,
    current_index: usize,
    max_index: usize,
}

impl<'a> ElfSectionListIterator<'a> {
    /// The list that the cursor runs over.
    pub closed spec fn list(&self) -> &'a ElfSectionList {
        self.asset_list
    }

    /// The index of the section that comes next.
    pub closed spec fn position(&self) -> int {
        self.current_index as int
    }

    /// The index at which the cursor stops.
    pub closed spec fn end(&self) -> int {
        self.max_index as int
    }

    /// The section under the cursor, which then moves on; none at the end
    /// of the list.
    pub fn next(&mut self) -> (r: Option<ElfSection>)
        ensures
            final(self).list() == old(self).list(),
            final(self).end() == old(self).end(),
            r is Some <==> old(self).position() != old(self).end() && old(self).position() < old(
                self,
            ).list()@.len(),
            r matches Some(section) ==> section@ == old(self).list()@[old(self).position()],
            final(self).position() == if r is Some {
                old(self).position() + 1
            } else {
                old(self).position()
            },
    {
        if self.current_index == self.max_index {
            None
        } else {
            let count = self.asset_list.size();
            if self.current_index < count {
                let output = self.asset_list.get_section(self.current_index);
                self.current_index += 1;
                output
            } else {
                None
            }
        }
    }
}

} // verus!
