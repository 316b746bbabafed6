//! Physical and virtual address values with 4 KiB page arithmetic.
use core::cmp::Ordering;
use vstd::prelude::*;
use vstd::std_specs::cmp::PartialOrdSpecImpl;

verus! {

pub const PAGE_SIZE: u64 = 0x1000;

pub const PHYSICAL_ADDRESS_MASK: u64 = 0x000F_FFFF_FFFF_F000;

pub const VIRTUAL_ADDRESS_MASK: u64 = 0x0000_FFFF_FFFF_FFFF;

pub const VIRTUAL_ADDRESS_SIGN_EXTENSION_MASK: u64 = 0xFFFF_0000_0000_0000;

pub const MAX_VIRTUAL_ADDRESS: u64 = 0xFFFF_FFFF_FFFF_FFFF;

pub const PAGE_OFFSET_MASK: u64 = 0xFFF;

pub const VIRTUAL_ADDRESS_HIGH_BIT: u64 = 0x8000_0000_0000;

pub const PAGE_TABLE_INDEX_MASK: u64 = 0x1FF;

pub const P1_OFFSET: u64 = 12;

pub const P2_OFFSET: u64 = 21;

pub const P3_OFFSET: u64 = 30;

pub const P4_OFFSET: u64 = 39;

/// The low twelve bits of `addr` cleared and everything above bit 51
/// dropped: the frame that a 52-bit physical address lies in.
pub open spec fn physical_frame(addr: u64) -> u64 {
    addr & 0x000F_FFFF_FFFF_F000
}

/// The canonical form of `addr`: the low 48 bits kept, bits 48..63 all equal
/// to bit 47.
pub open spec fn canonical_form(addr: u64) -> u64 {
    if addr & 0x8000_0000_0000 != 0 {
        (addr & 0x0000_FFFF_FFFF_FFFF) | 0xFFFF_0000_0000_0000
    } else {
        addr & 0x0000_FFFF_FFFF_FFFF
    }
}

/// The 9-bit index that `addr` selects in the page table of `level`
/// (4 is the root, 1 the table that holds the page itself).
pub open spec fn table_index(addr: u64, level: int) -> int {
    if level == 1 {
        (addr as int / 0x1000) % 512
    } else if level == 2 {
        (addr as int / 0x20_0000) % 512
    } else if level == 3 {
        (addr as int / 0x4000_0000) % 512
    } else {
        (addr as int / 0x80_0000_0000) % 512
    }
}

/// The address assembled from four table indexes and a page offset, before
/// it is brought into canonical form.
pub open spec fn assembled(p4: u64, p3: u64, p2: u64, p1: u64, offset: u64) -> u64 {
    offset | ((p4 & 0x1FF) << 39) | ((p3 & 0x1FF) << 30) | ((p2 & 0x1FF) << 21) | ((p1 & 0x1FF)
        << 12)
}

/// A physical address: the 4 KiB frame of a 52-bit address. `new` and the
/// page increment both yield such a frame.
#[derive(Clone, Copy, Debug, PartialEq, Eq, Structural, Ord)]
pub struct PhysicalAddress(u64);

impl PhysicalAddress {
    /// The address as a number.
    pub closed spec fn value(self) -> u64 {
        self.0
    }

    /// Every address is a 4 KiB frame of the 52-bit space.
    #[verifier::type_invariant]
    closed spec fn framed(self) -> bool {
        self.0 & 0x000F_FFFF_FFFF_F000 == self.0
    }

    /// The address is 4 KiB aligned and fits in 52 bits, so masking it
    /// again changes nothing.
    pub open spec fn is_frame(self) -> bool {
        physical_frame(self.value()) == self.value()
    }

    pub fn new(addr: u64) -> (r: PhysicalAddress)
        ensures
            r.value() == physical_frame(addr),
            r.value() % 0x1000 == 0,
            r.value() < 0x10_0000_0000_0000,
            r.value() <= addr,
            r.is_frame(),
    {
        proof {
            lemma_physical_frame(addr);
        }
        PhysicalAddress(addr & PHYSICAL_ADDRESS_MASK)
    }

    pub fn as_u64(self) -> (r: u64)
        ensures
            r == self.value(),
            self.is_frame(),
    {
        proof {
            use_type_invariant(self);
        }
        self.0
    }

    pub fn as_usize(self) -> (r: usize)
        ensures
            r == self.value() as usize,
    {
        #[verifier::truncate]
        (self.0 as usize)
    }

    /// Two addresses with the same number are the same address.
    pub proof fn lemma_value_decides(self, other: PhysicalAddress)
        requires
            self.value() == other.value(),
        ensures
            self == other,
    {
    }

    /// The frame `num_pages` pages further on: the frame of the sum, which
    /// is the sum itself where that is 4 KiB aligned and fits in 52 bits.
    pub fn increment_pages(self, num_pages: u64) -> (r: PhysicalAddress)
        requires
            self.value() + num_pages * 0x1000 <= u64::MAX,
        ensures
            r.value() == physical_frame((self.value() + num_pages * 0x1000) as u64),
            r.is_frame(),
            r.value() as int / 0x1000 == (self.value() as int / 0x1000 + num_pages) % 0x100_0000_0000,
    {
        proof {
            lemma_frame_number((self.0 + num_pages * 0x1000) as u64);
            assert((self.0 + num_pages * 0x1000) / 0x1000 == self.0 as int / 0x1000 + num_pages);
        }
        PhysicalAddress::new(self.0 + num_pages * PAGE_SIZE)
    }

    /// The virtual address at which this address is found when all of
    /// physical memory is mapped `offset` bytes up.
    pub fn get_virtual_address_at_offset(&self, offset: u64) -> (r: VirtualAddress)
        requires
            self.value() + offset <= u64::MAX,
        ensures
            r.value() == canonical_form((self.value() + offset) as u64),
    {
        VirtualAddress::new(self.0 + offset)
    }
}

impl PartialOrd for PhysicalAddress {
    fn partial_cmp(&self, other: &Self) -> (r: Option<Ordering>) {
        if self.0 < other.0 {
            Some(Ordering::Less)
        } else if self.0 == other.0 {
            Some(Ordering::Equal)
        } else {
            Some(Ordering::Greater)
        }
    }
}

impl PartialOrdSpecImpl for PhysicalAddress {
    open spec fn obeys_partial_cmp_spec() -> bool {
        true
    }

    open spec fn partial_cmp_spec(&self, other: &Self) -> Option<Ordering> {
        if self.value() < other.value() {
            Some(Ordering::Less)
        } else if self.value() == other.value() {
            Some(Ordering::Equal)
        } else {
            Some(Ordering::Greater)
        }
    }
}

/// A virtual address in canonical form. `new` and the page increment both
/// yield the canonical form of the number they are given or arrive at.
#[derive(Clone, Copy, Debug, PartialEq, Eq, Structural, Ord)]
pub struct VirtualAddress(u64);

impl VirtualAddress {
    /// The address as a number.
    pub closed spec fn value(self) -> u64 {
        self.0
    }

    /// Every address is in canonical form.
    #[verifier::type_invariant]
    closed spec fn canonical(self) -> bool {
        canonical_form(self.0) == self.0
    }

    pub fn new(addr: u64) -> (r: VirtualAddress)
        ensures
            r.value() == canonical_form(addr),
            r.value() & 0x0000_FFFF_FFFF_FFFF == addr & 0x0000_FFFF_FFFF_FFFF,
            (addr >> 47) & 1 == 1 ==> r.value() >> 48 == 0xFFFF,
            (addr >> 47) & 1 == 0 ==> r.value() >> 48 == 0,
    {
        let mut a: u64 = addr & VIRTUAL_ADDRESS_MASK;
        if a & VIRTUAL_ADDRESS_HIGH_BIT != 0 {
            a = a | VIRTUAL_ADDRESS_SIGN_EXTENSION_MASK;
        }
        proof {
            lemma_canonical_form(addr);
            assert((addr & 0x0000_FFFF_FFFF_FFFF) & 0x8000_0000_0000 == addr & 0x8000_0000_0000)
                by (bit_vector);
        }
        VirtualAddress(a)
    }

    /// The canonical address whose table indexes are the low nine bits of
    /// `p4`, `p3`, `p2` and `p1` and whose low bits are `offset`.
    pub fn new_from_page_table_indexes(p4: u64, p3: u64, p2: u64, p1: u64, offset: u64) -> (r:
        VirtualAddress)
        ensures
            r.value() == canonical_form(assembled(p4, p3, p2, p1, offset)),
            p4 < 512 && p3 < 512 && p2 < 512 && p1 < 512 && offset < 4096 ==> {
                &&& table_index(r.value(), 4) == p4
                &&& table_index(r.value(), 3) == p3
                &&& table_index(r.value(), 2) == p2
                &&& table_index(r.value(), 1) == p1
                &&& r.value() % 0x1000 == offset
            },
    {
        let mut addr: u64 = offset;
        addr = addr | ((p4 & PAGE_TABLE_INDEX_MASK) << P4_OFFSET);
        addr = addr | ((p3 & PAGE_TABLE_INDEX_MASK) << P3_OFFSET);
        addr = addr | ((p2 & PAGE_TABLE_INDEX_MASK) << P2_OFFSET);
        addr = addr | ((p1 & PAGE_TABLE_INDEX_MASK) << P1_OFFSET);
        proof {
            if p4 < 512 && p3 < 512 && p2 < 512 && p1 < 512 && offset < 4096 {
                lemma_index_round_trip(p4, p3, p2, p1, offset);
            }
        }
        VirtualAddress::new(addr)
    }

    pub fn as_u64(self) -> (r: u64)
        ensures
            r == self.value(),
            canonical_form(r) == r,
    {
        proof {
            use_type_invariant(self);
        }
        self.0
    }

    pub fn as_uszie(self) -> (r: usize)
        ensures
            r == self.value() as usize,
    {
        #[verifier::truncate]
        (self.0 as usize)
    }

    /// Two addresses with the same number are the same address.
    pub proof fn lemma_value_decides(self, other: VirtualAddress)
        requires
            self.value() == other.value(),
        ensures
            self == other,
    {
    }

    /// The address `num_pages` pages further on, in canonical form: the
    /// sum itself where that is canonical. It selects the page-table
    /// entries that the sum selects.
    pub fn increment_pages(self, num_pages: u64) -> (r: VirtualAddress)
        requires
            self.value() + num_pages * 0x1000 <= u64::MAX,
        ensures
            r.value() == canonical_form((self.value() + num_pages * 0x1000) as u64),
            canonical_form(r.value()) == r.value(),
            table_index(r.value(), 4) == table_index((self.value() + num_pages * 0x1000) as u64, 4),
            table_index(r.value(), 3) == table_index((self.value() + num_pages * 0x1000) as u64, 3),
            table_index(r.value(), 2) == table_index((self.value() + num_pages * 0x1000) as u64, 2),
            table_index(r.value(), 1) == table_index((self.value() + num_pages * 0x1000) as u64, 1),
            r.value() % 0x1000 == self.value() % 0x1000,
    {
        proof {
            lemma_canonical_form((self.0 + num_pages * 0x1000) as u64);
            lemma_canonical_indexes((self.0 + num_pages * 0x1000) as u64);
            lemma_page_base((self.0 + num_pages * 0x1000) as u64);
        }
        VirtualAddress::new(self.0 + num_pages * PAGE_SIZE)
    }

    /// The low twelve bits: the place inside the page.
    pub fn page_offset(self) -> (r: u64)
        ensures
            r == self.value() % 0x1000,
    {
        proof {
            lemma_index_bits(self.0);
        }
        self.0 & PAGE_OFFSET_MASK
    }

    pub fn p1_index(self) -> (r: usize)
        ensures
            r == table_index(self.value(), 1),
            r < 512,
    {
        proof {
            lemma_index_bits(self.0);
        }
        ((self.0 & (PAGE_TABLE_INDEX_MASK << P1_OFFSET)) >> P1_OFFSET) as usize
    }

    pub fn p2_index(self) -> (r: usize)
        ensures
            r == table_index(self.value(), 2),
            r < 512,
    {
        proof {
            lemma_index_bits(self.0);
        }
        ((self.0 & (PAGE_TABLE_INDEX_MASK << P2_OFFSET)) >> P2_OFFSET) as usize
    }

    pub fn p3_index(self) -> (r: usize)
        ensures
            r == table_index(self.value(), 3),
            r < 512,
    {
        proof {
            lemma_index_bits(self.0);
        }
        ((self.0 & (PAGE_TABLE_INDEX_MASK << P3_OFFSET)) >> P3_OFFSET) as usize
    }

    pub fn p4_index(self) -> (r: usize)
        ensures
            r == table_index(self.value(), 4),
            r < 512,
    {
        proof {
            lemma_index_bits(self.0);
        }
        ((self.0 & (PAGE_TABLE_INDEX_MASK << P4_OFFSET)) >> P4_OFFSET) as usize
    }

    /// The index into the page table of level `n`.
    pub fn get_pn_index(self, n: u8) -> (r: usize)
        requires
            1 <= n <= 4,
        ensures
            r == table_index(self.value(), n as int),
            r < 512,
    {
        if n == 4 {
            self.p4_index()
        } else if n == 3 {
            self.p3_index()
        } else if n == 2 {
            self.p2_index()
        } else {
            self.p1_index()
        }
    }
}

impl PartialOrd for VirtualAddress {
    fn partial_cmp(&self, other: &Self) -> (r: Option<Ordering>) {
        if self.0 < other.0 {
            Some(Ordering::Less)
        } else if self.0 == other.0 {
            Some(Ordering::Equal)
        } else {
            Some(Ordering::Greater)
        }
    }
}

impl PartialOrdSpecImpl for VirtualAddress {
    open spec fn obeys_partial_cmp_spec() -> bool {
        true
    }

    open spec fn partial_cmp_spec(&self, other: &Self) -> Option<Ordering> {
        if self.value() < other.value() {
            Some(Ordering::Less)
        } else if self.value() == other.value() {
            Some(Ordering::Equal)
        } else {
            Some(Ordering::Greater)
        }
    }
}

/// The frame of an address is 4 KiB aligned, fits in 52 bits, is not above
/// the address, and is its own frame. An aligned address below 2^52 is a
/// frame.
pub proof fn lemma_physical_frame(addr: u64)
    ensures
        physical_frame(addr) % 0x1000 == 0,
        physical_frame(addr) < 0x10_0000_0000_0000,
        physical_frame(addr) <= addr,
        physical_frame(physical_frame(addr)) == physical_frame(addr),
        addr % 0x1000 == 0 && addr < 0x10_0000_0000_0000 ==> physical_frame(addr) == addr,
{
    assert((addr & 0x000F_FFFF_FFFF_F000) % 0x1000 == 0 && (addr & 0x000F_FFFF_FFFF_F000)
        < 0x10_0000_0000_0000 && (addr & 0x000F_FFFF_FFFF_F000) <= addr && (addr
        & 0x000F_FFFF_FFFF_F000) & 0x000F_FFFF_FFFF_F000 == addr & 0x000F_FFFF_FFFF_F000 && (addr
        % 0x1000 == 0 && addr < 0x10_0000_0000_0000 ==> addr & 0x000F_FFFF_FFFF_F000 == addr))
        by (bit_vector);
}

/// The number of the frame of an address is the address's own number of
/// 4 KiB pages, less whole multiples of 2^40.
pub proof fn lemma_frame_number(addr: u64)
    ensures
        physical_frame(addr) as int / 0x1000 == (addr as int / 0x1000) % 0x100_0000_0000,
        addr < 0x10_0000_0000_0000 ==> physical_frame(addr) as int / 0x1000 == addr as int
            / 0x1000,
{
    assert((addr & 0x000F_FFFF_FFFF_F000) / 0x1000 == (addr / 0x1000) % 0x100_0000_0000 && (addr
        < 0x10_0000_0000_0000 ==> (addr & 0x000F_FFFF_FFFF_F000) / 0x1000 == addr / 0x1000))
        by (bit_vector);
}

/// The canonical form of an address selects the page-table entries that
/// the address selects.
pub proof fn lemma_canonical_indexes(addr: u64)
    ensures
        table_index(canonical_form(addr), 4) == table_index(addr, 4),
        table_index(canonical_form(addr), 3) == table_index(addr, 3),
        table_index(canonical_form(addr), 2) == table_index(addr, 2),
        table_index(canonical_form(addr), 1) == table_index(addr, 1),
{
    assert({
        let c = if addr & 0x8000_0000_0000 != 0 {
            (addr & 0x0000_FFFF_FFFF_FFFF) | 0xFFFF_0000_0000_0000
        } else {
            addr & 0x0000_FFFF_FFFF_FFFF
        };
        &&& (c / 0x80_0000_0000) % 512 == (addr / 0x80_0000_0000) % 512
        &&& (c / 0x4000_0000) % 512 == (addr / 0x4000_0000) % 512
        &&& (c / 0x20_0000) % 512 == (addr / 0x20_0000) % 512
        &&& (c / 0x1000) % 512 == (addr / 0x1000) % 512
    }) by (bit_vector);
}

/// Clearing the low twelve bits of an address gives the start of its page,
/// and the canonical form of an address keeps its place in the page.
pub proof fn lemma_page_base(addr: u64)
    ensures
        addr & !0xFFFu64 == addr - addr % 0x1000,
        addr & 0xFFF == addr % 0x1000,
        canonical_form(addr) % 0x1000 == addr % 0x1000,
        canonical_form(addr) == addr <==> addr < 0x8000_0000_0000 || addr
            >= 0xFFFF_8000_0000_0000,
{
    assert({
        let c = if addr & 0x8000_0000_0000 != 0 {
            (addr & 0x0000_FFFF_FFFF_FFFF) | 0xFFFF_0000_0000_0000
        } else {
            addr & 0x0000_FFFF_FFFF_FFFF
        };
        &&& addr & !0xFFFu64 == addr - addr % 0x1000
        &&& addr & 0xFFF == addr % 0x1000
        &&& c % 0x1000 == addr % 0x1000
        &&& (c == addr <==> addr < 0x8000_0000_0000 || addr >= 0xFFFF_8000_0000_0000)
    }) by (bit_vector);
}

/// What the canonical form keeps and what it fills in.
pub proof fn lemma_canonical_form(addr: u64)
    ensures
        canonical_form(addr) & 0x0000_FFFF_FFFF_FFFF == addr & 0x0000_FFFF_FFFF_FFFF,
        (addr >> 47) & 1 == 1 ==> canonical_form(addr) >> 48 == 0xFFFF,
        (addr >> 47) & 1 == 0 ==> canonical_form(addr) >> 48 == 0,
        canonical_form(canonical_form(addr)) == canonical_form(addr),
{
    let c = canonical_form(addr);
    assert({
        let c = if addr & 0x8000_0000_0000 != 0 {
            (addr & 0x0000_FFFF_FFFF_FFFF) | 0xFFFF_0000_0000_0000
        } else {
            addr & 0x0000_FFFF_FFFF_FFFF
        };
        let cc = if c & 0x8000_0000_0000 != 0 {
            (c & 0x0000_FFFF_FFFF_FFFF) | 0xFFFF_0000_0000_0000
        } else {
            c & 0x0000_FFFF_FFFF_FFFF
        };
        &&& c & 0x0000_FFFF_FFFF_FFFF == addr & 0x0000_FFFF_FFFF_FFFF
        &&& ((addr >> 47) & 1 == 1 ==> c >> 48 == 0xFFFF)
        &&& ((addr >> 47) & 1 == 0 ==> c >> 48 == 0)
        &&& cc == c
    }) by (bit_vector);
}

proof fn lemma_index_bits(a: u64)
    ensures
        ((a & (0x1FFu64 << 12u64)) >> 12u64) == (a / 0x1000) % 512,
        ((a & (0x1FFu64 << 21u64)) >> 21u64) == (a / 0x20_0000) % 512,
        ((a & (0x1FFu64 << 30u64)) >> 30u64) == (a / 0x4000_0000) % 512,
        ((a & (0x1FFu64 << 39u64)) >> 39u64) == (a / 0x80_0000_0000) % 512,
        a & 0xFFF == a % 0x1000,
{
    assert(a & 0xFFF == a % 0x1000 && ((a & (0x1FFu64 << 12u64)) >> 12u64) == (a / 0x1000) % 512 && ((a & (0x1FFu64 << 21u64))
        >> 21u64) == (a / 0x20_0000) % 512 && ((a & (0x1FFu64 << 30u64)) >> 30u64) == (a
        / 0x4000_0000) % 512 && ((a & (0x1FFu64 << 39u64)) >> 39u64) == (a / 0x80_0000_0000) % 512)
        by (bit_vector);
}

/// Taking an address apart again gives back the indexes and the offset it
/// was assembled from, when each index is below 512 and the offset below
/// 4096.
pub proof fn lemma_index_round_trip(p4: u64, p3: u64, p2: u64, p1: u64, offset: u64)
    requires
        p4 < 512,
        p3 < 512,
        p2 < 512,
        p1 < 512,
        offset < 4096,
    ensures
        table_index(canonical_form(assembled(p4, p3, p2, p1, offset)), 4) == p4,
        table_index(canonical_form(assembled(p4, p3, p2, p1, offset)), 3) == p3,
        table_index(canonical_form(assembled(p4, p3, p2, p1, offset)), 2) == p2,
        table_index(canonical_form(assembled(p4, p3, p2, p1, offset)), 1) == p1,
        canonical_form(assembled(p4, p3, p2, p1, offset)) % 0x1000 == offset,
{
    assert({
        let a = offset | ((p4 & 0x1FF) << 39) | ((p3 & 0x1FF) << 30) | ((p2 & 0x1FF) << 21) | ((p1
            & 0x1FF) << 12);
        let c = if a & 0x8000_0000_0000 != 0 {
            (a & 0x0000_FFFF_FFFF_FFFF) | 0xFFFF_0000_0000_0000
        } else {
            a & 0x0000_FFFF_FFFF_FFFF
        };
        &&& (c / 0x80_0000_0000) % 512 == p4
        &&& (c / 0x4000_0000) % 512 == p3
        &&& (c / 0x20_0000) % 512 == p2
        &&& (c / 0x1000) % 512 == p1
        &&& c % 0x1000 == offset
    }) by (bit_vector)
        requires
            p4 < 512,
            p3 < 512,
            p2 < 512,
            p1 < 512,
            offset < 4096,
    ;
}

} // verus!
