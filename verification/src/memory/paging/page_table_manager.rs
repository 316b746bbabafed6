//! The manager of one 4-level page-table hierarchy: it maps pages, looks
//! addresses up and gives the tables back to the allocator.
use crate::memory::address::{
    canonical_form, lemma_canonical_indexes, lemma_physical_frame, physical_frame, table_index,
    PhysicalAddress, VirtualAddress,
};
use crate::memory::paging::page_frame_allocator::{refuses, AllocError, FrameAllocator};
use crate::memory::paging::page_table::{
    has_flags, lemma_linked_to, linked_to, unused_table, PageTable, PageTableEntry,
    PAGE_TABLE_MAX_INDEX,
};
use crate::memory::paging::physical_memory::{frame_of, is_memory, PhysicalMemory};
use crate::memory::paging::table_tree::{
    lemma_lookup_kept, lemma_new_tree, lemma_same_page, lemma_subtree_same, lemma_tree_apart,
    lemma_tree_kept, lemma_tree_map_then_lookup, lemma_tree_untouched, outside_pages, same_page,
    tree_ok,
};
use vstd::prelude::*;

verus! {

broadcast use PhysicalMemory::lemma_total;

pub const MEM_1G: u64 = 0x4000_0000;

pub const MAX_MEM_SIZE: u64 = 0x80_0000_0000;

/// The number of the frame that the entry `e` points at.
pub open spec fn child_of(e: u64) -> int {
    frame_of(physical_frame(e))
}

/// What a lookup of `v` finds in the level-1 table in frame `t1`: the frame
/// that the entry holds, present or not.
pub open spec fn lookup_p1(m: Map<int, Seq<u64>>, t1: int, v: u64) -> Option<u64> {
    Some(physical_frame(m[t1][table_index(v, 1)]))
}

/// What a lookup of `v` finds from the level-2 table in frame `t2` on:
/// nothing where the entry is not present, the entry's own frame where it
/// is a large page, else what the level-1 table below it holds.
pub open spec fn lookup_p2(m: Map<int, Seq<u64>>, t2: int, v: u64) -> Option<u64> {
    let e = m[t2][table_index(v, 2)];
    if !has_flags(e, 0x1) {
        None
    } else if has_flags(e, 0x80) {
        Some(physical_frame(e))
    } else {
        lookup_p1(m, child_of(e), v)
    }
}

/// What a lookup of `v` finds from the level-3 table in frame `t3` on.
pub open spec fn lookup_p3(m: Map<int, Seq<u64>>, t3: int, v: u64) -> Option<u64> {
    let e = m[t3][table_index(v, 3)];
    if !has_flags(e, 0x1) {
        None
    } else if has_flags(e, 0x80) {
        Some(physical_frame(e))
    } else {
        lookup_p2(m, child_of(e), v)
    }
}

/// What a lookup of `v` finds from the root table in frame `root` on.
pub open spec fn lookup_p4(m: Map<int, Seq<u64>>, root: int, v: u64) -> Option<u64> {
    let e = m[root][table_index(v, 4)];
    if !has_flags(e, 0x1) {
        None
    } else {
        lookup_p3(m, child_of(e), v)
    }
}

/// The tables with entry `i` of the table in frame `t` replaced by `e`.
pub open spec fn with_entry(m: Map<int, Seq<u64>>, t: int, i: int, e: u64) -> Map<int, Seq<u64>> {
    m.insert(t, m[t].update(i, e))
}

/// The frames that a walk takes for tables it has to create, by the level
/// of the table: each is used only where the entry above it is not present.
pub struct FreshTables {
    pub p3: u64,
    pub p2: u64,
    pub p1: u64,
}

/// The tables after `v` is mapped to `p` in the level-1 table in frame
/// `t1`.
pub open spec fn mapped_p1(m: Map<int, Seq<u64>>, t1: int, v: u64, p: u64) -> Map<int, Seq<u64>> {
    with_entry(m, t1, table_index(v, 1), linked_to(m[t1][table_index(v, 1)], p))
}

/// The tables after the frame at `fresh.p1` is cleared and `v` mapped to
/// `p` in it.
pub open spec fn created_p1(m: Map<int, Seq<u64>>, v: u64, p: u64, fresh: FreshTables) -> Map<
    int,
    Seq<u64>,
> {
    mapped_p1(m.insert(frame_of(fresh.p1), unused_table()), frame_of(fresh.p1), v, p)
}

/// The tables after `v` is mapped to `p` from the level-2 table in frame
/// `t2` on: through the table below where the entry is present, else
/// through a table created at `fresh.p1`, to which the entry is then
/// pointed.
pub open spec fn mapped_p2(m: Map<int, Seq<u64>>, t2: int, v: u64, p: u64, fresh: FreshTables) -> Map<
    int,
    Seq<u64>,
> {
    let e = m[t2][table_index(v, 2)];
    if has_flags(e, 0x1) {
        mapped_p1(m, child_of(e), v, p)
    } else {
        with_entry(created_p1(m, v, p, fresh), t2, table_index(v, 2), linked_to(e, fresh.p1))
    }
}

/// The tables after the frame at `fresh.p2` is cleared and `v` mapped to
/// `p` from it on.
pub open spec fn created_p2(m: Map<int, Seq<u64>>, v: u64, p: u64, fresh: FreshTables) -> Map<
    int,
    Seq<u64>,
> {
    mapped_p2(m.insert(frame_of(fresh.p2), unused_table()), frame_of(fresh.p2), v, p, fresh)
}

/// The tables after `v` is mapped to `p` from the level-3 table in frame
/// `t3` on.
pub open spec fn mapped_p3(m: Map<int, Seq<u64>>, t3: int, v: u64, p: u64, fresh: FreshTables) -> Map<
    int,
    Seq<u64>,
> {
    let e = m[t3][table_index(v, 3)];
    if has_flags(e, 0x1) {
        mapped_p2(m, child_of(e), v, p, fresh)
    } else {
        with_entry(created_p2(m, v, p, fresh), t3, table_index(v, 3), linked_to(e, fresh.p2))
    }
}

/// The tables after the frame at `fresh.p3` is cleared and `v` mapped to
/// `p` from it on.
pub open spec fn created_p3(m: Map<int, Seq<u64>>, v: u64, p: u64, fresh: FreshTables) -> Map<
    int,
    Seq<u64>,
> {
    mapped_p3(m.insert(frame_of(fresh.p3), unused_table()), frame_of(fresh.p3), v, p, fresh)
}

/// The tables after `v` is mapped to `p` from the root table in frame
/// `root` on. A root entry that is filled loses what it held before.
pub open spec fn mapped_p4(m: Map<int, Seq<u64>>, root: int, v: u64, p: u64, fresh: FreshTables) -> Map<
    int,
    Seq<u64>,
> {
    let e = m[root][table_index(v, 4)];
    if has_flags(e, 0x1) {
        mapped_p3(m, child_of(e), v, p, fresh)
    } else {
        with_entry(created_p3(m, v, p, fresh), root, table_index(v, 4), linked_to(0, fresh.p3))
    }
}

/// How many levels of tables a walk for `v` from the level-2 table in
/// frame `t2` has to create: 0 or 1.
pub open spec fn missing_p2(m: Map<int, Seq<u64>>, t2: int, v: u64) -> int {
    if has_flags(m[t2][table_index(v, 2)], 0x1) {
        0
    } else {
        1
    }
}

/// How many levels of tables a walk for `v` from the level-3 table in
/// frame `t3` has to create: 0 to 2.
pub open spec fn missing_p3(m: Map<int, Seq<u64>>, t3: int, v: u64) -> int {
    let e = m[t3][table_index(v, 3)];
    if has_flags(e, 0x1) {
        missing_p2(m, child_of(e), v)
    } else {
        2
    }
}

/// How many levels of tables a walk for `v` from the root has to create:
/// 0 to 3.
pub open spec fn missing_p4(m: Map<int, Seq<u64>>, root: int, v: u64) -> int {
    let e = m[root][table_index(v, 4)];
    if has_flags(e, 0x1) {
        missing_p3(m, child_of(e), v)
    } else {
        3
    }
}

impl FreshTables {
    /// The numbers of the lowest `count` of the three frames: that for
    /// level 1, then level 2, then level 3.
    pub open spec fn frames(self, count: int) -> Set<int> {
        Set::new(
            |f: int|
                (count >= 1 && f == frame_of(self.p1)) || (count >= 2 && f == frame_of(self.p2))
                    || (count >= 3 && f == frame_of(self.p3)),
        )
    }

    /// The lowest `count` of the three are frame addresses, differ from one
    /// another and are not in `used`.
    pub open spec fn fresh(self, count: int, used: Set<int>) -> bool {
        &&& count >= 1 ==> physical_frame(self.p1) == self.p1 && !used.contains(frame_of(self.p1))
        &&& count >= 2 ==> physical_frame(self.p2) == self.p2 && !used.contains(frame_of(self.p2))
            && self.p2 != self.p1
        &&& count >= 3 ==> physical_frame(self.p3) == self.p3 && !used.contains(frame_of(self.p3))
            && self.p3 != self.p2 && self.p3 != self.p1
    }
}

/// The tables that a walk for `v` passes are all in `used` and differ from
/// one another, and no entry that it passes at level 3 or 2 has the
/// large-page flag.
pub open spec fn path_separate(m: Map<int, Seq<u64>>, root: int, v: u64, used: Set<int>) -> bool {
    let e4 = m[root][table_index(v, 4)];
    let t3 = child_of(e4);
    let e3 = m[t3][table_index(v, 3)];
    let t2 = child_of(e3);
    let e2 = m[t2][table_index(v, 2)];
    let t1 = child_of(e2);
    &&& used.contains(root)
    &&& has_flags(e4, 0x1) ==> {
        &&& used.contains(t3)
        &&& t3 != root
        &&& !has_flags(e3, 0x80)
        &&& has_flags(e3, 0x1) ==> {
            &&& used.contains(t2)
            &&& t2 != root
            &&& t2 != t3
            &&& !has_flags(e2, 0x80)
            &&& has_flags(e2, 0x1) ==> t1 != root && t1 != t3 && t1 != t2
        }
    }
}

/// A frame address is that of its frame number, so two that differ lie in
/// different frames.
pub proof fn lemma_frame_numbers(a: u64, b: u64)
    requires
        physical_frame(a) == a,
        physical_frame(b) == b,
    ensures
        frame_of(a) * 0x1000 == a,
        a != b ==> frame_of(a) != frame_of(b),
{
    lemma_physical_frame(a);
    lemma_physical_frame(b);
}

/// Map, then look up: where the tables on the way of `v` are separate and
/// the frames taken for new tables are fresh, a lookup of `v` in the tables
/// that mapping `v` to `p` leaves finds the frame of `p`.
pub proof fn lemma_map_then_lookup(
    m: Map<int, Seq<u64>>,
    root: int,
    v: u64,
    p: u64,
    fresh: FreshTables,
    used: Set<int>,
)
    requires
        is_memory(m),
        path_separate(m, root, v, used),
        fresh.fresh(missing_p4(m, root, v), used),
    ensures
        lookup_p4(mapped_p4(m, root, v, p, fresh), root, v) == Some(physical_frame(p)),
{
    let i4 = table_index(v, 4);
    let i3 = table_index(v, 3);
    let i2 = table_index(v, 2);
    let i1 = table_index(v, 1);
    let e4 = m[root][i4];
    let n1 = frame_of(fresh.p1);
    let n2 = frame_of(fresh.p2);
    let n3 = frame_of(fresh.p3);
    let after = mapped_p4(m, root, v, p, fresh);
    lemma_linked_to(0, fresh.p3);
    lemma_linked_to(0, fresh.p2);
    lemma_linked_to(0, fresh.p1);
    lemma_linked_to(0, p);
    if has_flags(e4, 0x1) {
        let t3 = child_of(e4);
        let e3 = m[t3][i3];
        lemma_linked_to(e3, fresh.p2);
        if has_flags(e3, 0x1) {
            let t2 = child_of(e3);
            let e2 = m[t2][i2];
            lemma_linked_to(e2, fresh.p1);
            if has_flags(e2, 0x1) {
                let t1 = child_of(e2);
                lemma_linked_to(m[t1][i1], p);
                assert(after == mapped_p1(m, t1, v, p));
                assert(after[root] == m[root]);
                assert(after[t3] == m[t3]);
                assert(after[t2] == m[t2]);
            } else {
                lemma_frame_numbers(fresh.p1, fresh.p1);
                let m1 = created_p1(m, v, p, fresh);
                assert(after == with_entry(m1, t2, i2, linked_to(e2, fresh.p1)));
                assert(after[root] == m[root]);
                assert(after[t3] == m[t3]);
                assert(after[t2][i2] == linked_to(e2, fresh.p1));
                assert(after[n1] == m1[n1]);
            }
        } else {
            lemma_frame_numbers(fresh.p1, fresh.p2);
            let m0 = m.insert(n2, unused_table());
            let m1 = created_p1(m0, v, p, fresh);
            let m2 = with_entry(m1, n2, i2, linked_to(0, fresh.p1));
            assert(created_p2(m, v, p, fresh) == m2);
            assert(after == with_entry(m2, t3, i3, linked_to(e3, fresh.p2)));
            assert(after[root] == m[root]);
            assert(after[t3][i3] == linked_to(e3, fresh.p2));
            assert(after[n2] == m2[n2]);
            assert(after[n1] == m1[n1]);
        }
    } else {
        lemma_frame_numbers(fresh.p1, fresh.p2);
        lemma_frame_numbers(fresh.p1, fresh.p3);
        lemma_frame_numbers(fresh.p2, fresh.p3);
        let m00 = m.insert(n3, unused_table());
        let m0 = m00.insert(n2, unused_table());
        let m1 = created_p1(m0, v, p, fresh);
        let m2 = with_entry(m1, n2, i2, linked_to(0, fresh.p1));
        assert(created_p2(m00, v, p, fresh) == m2);
        let m3 = with_entry(m2, n3, i3, linked_to(0, fresh.p2));
        assert(created_p3(m, v, p, fresh) == m3);
        assert(after == with_entry(m3, root, i4, linked_to(0, fresh.p3)));
        assert(after[root][i4] == linked_to(0, fresh.p3));
        assert(after[n3] == m3[n3]);
        assert(after[n2] == m2[n2]);
        assert(after[n1] == m1[n1]);
    }
}

/// One page mapped: `after` and `used_after` are what mapping `v` to `p`
/// leaves of `before` and `used`, for some frames that were fresh.
pub open spec fn maps_page(
    before: Map<int, Seq<u64>>,
    used: Set<int>,
    after: Map<int, Seq<u64>>,
    used_after: Set<int>,
    root: int,
    v: u64,
    p: u64,
) -> bool {
    exists|fresh: FreshTables|
        {
            &&& #[trigger] fresh.fresh(missing_p4(before, root, v), used)
            &&& used_after == used.union(fresh.frames(missing_p4(before, root, v)))
            &&& after == mapped_p4(before, root, v, p, fresh)
        }
}

/// `count` pages mapped one after the other, page `k` of them from
/// `v + k * 4096` to the frame of `p + k * 4096`: `tables[k]` and `used[k]`
/// are the state before page `k` is mapped, `tables[count]` and
/// `used[count]` the state after the last. A page is mapped by its table
/// indexes, which are those of the canonical form of its address.
pub open spec fn maps_pages(
    tables: Seq<Map<int, Seq<u64>>>,
    used: Seq<Set<int>>,
    root: int,
    v: u64,
    p: u64,
    count: int,
) -> bool {
    &&& tables.len() == count + 1
    &&& used.len() == count + 1
    &&& forall|k: int|
        0 <= k < count ==> maps_page(
            #[trigger] tables[k],
            used[k],
            tables[k + 1],
            used[k + 1],
            root,
            (v + k * 0x1000) as u64,
            physical_frame((p + k * 0x1000) as u64),
        )
}

/// Mapping a page is the same for two addresses in the same page: it goes
/// by the table indexes alone.
pub proof fn lemma_maps_same_page(
    before: Map<int, Seq<u64>>,
    used: Set<int>,
    after: Map<int, Seq<u64>>,
    used_after: Set<int>,
    root: int,
    v: u64,
    w: u64,
    p: u64,
)
    requires
        maps_page(before, used, after, used_after, root, v, p),
        table_index(v, 4) == table_index(w, 4),
        table_index(v, 3) == table_index(w, 3),
        table_index(v, 2) == table_index(w, 2),
        table_index(v, 1) == table_index(w, 1),
    ensures
        maps_page(before, used, after, used_after, root, w, p),
{
    let fresh = choose|fresh: FreshTables|
        {
            &&& #[trigger] fresh.fresh(missing_p4(before, root, v), used)
            &&& used_after == used.union(fresh.frames(missing_p4(before, root, v)))
            &&& after == mapped_p4(before, root, v, p, fresh)
        };
    assert(missing_p4(before, root, w) == missing_p4(before, root, v));
    assert(mapped_p4(before, root, w, p, fresh) == mapped_p4(before, root, v, p, fresh));
    assert(fresh.fresh(missing_p4(before, root, w), used));
}

/// `count` pages mapped one after the other lead from `before` and `used`
/// to `after` and `used_after`.
pub open spec fn maps_run(
    before: Map<int, Seq<u64>>,
    used: Set<int>,
    after: Map<int, Seq<u64>>,
    used_after: Set<int>,
    root: int,
    v: u64,
    p: u64,
    count: int,
) -> bool {
    exists|tables: Seq<Map<int, Seq<u64>>>, useds: Seq<Set<int>>|
        {
            &&& #[trigger] maps_pages(tables, useds, root, v, p, count)
            &&& tables[0] == before
            &&& useds[0] == used
            &&& tables[count] == after
            &&& useds[count] == used_after
        }
}

/// The frame of the table that the entry `e` of a level-3 or level-2 table
/// points at: none where the entry is not present or is a large page.
pub open spec fn table_below(e: u64) -> Option<int> {
    if has_flags(e, 0x1) && !has_flags(e, 0x80) {
        Some(child_of(e))
    } else {
        None
    }
}

/// `table` with every present entry cleared.
pub open spec fn cleared(table: Seq<u64>) -> Seq<u64> {
    Seq::new(
        512,
        |i: int|
            if has_flags(table[i], 0x1) {
                0u64
            } else {
                table[i]
            },
    )
}

/// No entry of the table in frame `t` points at a table.
pub open spec fn childless(m: Map<int, Seq<u64>>, t: int) -> bool {
    forall|i: int| 0 <= i < 512 ==> table_below(#[trigger] m[t][i]) is None
}

/// `f` is none of the tables that the first `n` entries of the table in
/// frame `t` point at.
pub open spec fn not_below(m: Map<int, Seq<u64>>, t: int, f: int, n: int) -> bool {
    forall|i: int| 0 <= i < n ==> table_below(#[trigger] m[t][i]) != Some(f)
}

/// The level-2 table in frame `t2` and the tables that it points at are in
/// `used`, and those tables are not `t2` and differ from one another.
pub open spec fn subtree_p2(m: Map<int, Seq<u64>>, t2: int, used: Set<int>) -> bool {
    &&& used.contains(t2)
    &&& forall|i: int|
        0 <= i < 512 && table_below(#[trigger] m[t2][i]) is Some ==> {
            &&& used.contains(table_below(m[t2][i])->0)
            &&& table_below(m[t2][i])->0 != t2
            &&& not_below(m, t2, table_below(m[t2][i])->0, i)
        }
}

/// `f` is none of the tables below the first `n` entries of the level-3
/// table in frame `t3`: neither a level-2 table that one of them points at
/// nor a level-1 table below such a table.
pub open spec fn not_below_p3(m: Map<int, Seq<u64>>, t3: int, f: int, n: int) -> bool {
    forall|i: int|
        0 <= i < n && table_below(#[trigger] m[t3][i]) is Some ==> {
            &&& table_below(m[t3][i])->0 != f
            &&& not_below(m, table_below(m[t3][i])->0, f, 512)
        }
}

/// The level-3 table in frame `t3` and the tables below it are in `used`,
/// and each of them has one place below `t3`.
pub open spec fn subtree_p3(m: Map<int, Seq<u64>>, t3: int, used: Set<int>) -> bool {
    &&& used.contains(t3)
    &&& forall|i: int|
        0 <= i < 512 && table_below(#[trigger] m[t3][i]) is Some ==> {
            &&& table_below(m[t3][i])->0 != t3
            &&& subtree_p2(m, table_below(m[t3][i])->0, used)
            &&& not_below(m, table_below(m[t3][i])->0, t3, 512)
            &&& not_below_p3(m, t3, table_below(m[t3][i])->0, i)
            &&& forall|k: int|
                0 <= k < 512 && table_below(#[trigger] m[table_below(m[t3][i])->0][k]) is Some
                    ==> not_below_p3(m, t3, table_below(m[table_below(m[t3][i])->0][k])->0, i)
        }
}

/// `f` is none of the tables below the first `n` entries of the root table
/// in frame `root`.
pub open spec fn not_below_p4(m: Map<int, Seq<u64>>, root: int, f: int, n: int) -> bool {
    forall|i: int|
        0 <= i < n && has_flags(#[trigger] m[root][i], 0x1) ==> {
            &&& child_of(m[root][i]) != f
            &&& not_below_p3(m, child_of(m[root][i]), f, 512)
        }
}

/// The root table in frame `root` and the tables below it are in `used`,
/// and each of them has one place in the hierarchy. Entries for large
/// pages point at no table and are free to be there.
pub open spec fn subtree_p4(m: Map<int, Seq<u64>>, root: int, used: Set<int>) -> bool {
    &&& used.contains(root)
    &&& forall|i: int|
        0 <= i < 512 && has_flags(#[trigger] m[root][i], 0x1) ==> {
            &&& child_of(m[root][i]) != root
            &&& subtree_p3(m, child_of(m[root][i]), used)
            &&& not_below_p3(m, child_of(m[root][i]), root, 512)
            &&& not_below_p4(m, root, child_of(m[root][i]), i)
            &&& below_apart(m, root, child_of(m[root][i]), i)
        }
}

/// None of the tables below the level-3 table in frame `t3` lies below one
/// of the first `n` entries of the root table.
pub open spec fn below_apart(m: Map<int, Seq<u64>>, root: int, t3: int, n: int) -> bool {
    forall|k: int|
        0 <= k < 512 && table_below(#[trigger] m[t3][k]) is Some ==> {
            &&& not_below_p4(m, root, table_below(m[t3][k])->0, n)
            &&& forall|j: int|
                0 <= j < 512 && table_below(#[trigger] m[table_below(m[t3][k])->0][j]) is Some
                    ==> not_below_p4(m, root, table_below(m[table_below(m[t3][k])->0][j])->0, n)
        }
}

/// Every level-1 table below the level-2 table in frame `t2` was in `was`
/// and is not in `used`.
pub open spec fn released_p2(m: Map<int, Seq<u64>>, t2: int, was: Set<int>, used: Set<int>) -> bool {
    forall|i: int|
        0 <= i < 512 && table_below(#[trigger] m[t2][i]) is Some ==> {
            &&& was.contains(table_below(m[t2][i])->0)
            &&& !used.contains(table_below(m[t2][i])->0)
        }
}

/// Every table below the level-3 table in frame `t3` was in `was` and is
/// not in `used`.
pub open spec fn released_p3(m: Map<int, Seq<u64>>, t3: int, was: Set<int>, used: Set<int>) -> bool {
    forall|i: int|
        0 <= i < 512 && table_below(#[trigger] m[t3][i]) is Some ==> {
            &&& was.contains(table_below(m[t3][i])->0)
            &&& !used.contains(table_below(m[t3][i])->0)
            &&& released_p2(m, table_below(m[t3][i])->0, was, used)
        }
}

/// Every table below the root table in frame `root` was in `was` and is
/// not in `used`.
pub open spec fn released_p4(m: Map<int, Seq<u64>>, root: int, was: Set<int>, used: Set<int>) -> bool {
    forall|i: int|
        0 <= i < 512 && has_flags(#[trigger] m[root][i], 0x1) ==> {
            &&& was.contains(child_of(m[root][i]))
            &&& !used.contains(child_of(m[root][i]))
            &&& released_p3(m, child_of(m[root][i]), was, used)
        }
}

/// What is released below a level-2 table stays released when more frames
/// leave `used`, and depends on that table alone.
pub proof fn lemma_released_p2_monotone(
    m: Map<int, Seq<u64>>,
    k: Map<int, Seq<u64>>,
    t: int,
    was: Set<int>,
    used: Set<int>,
    wider: Set<int>,
    fewer: Set<int>,
)
    requires
        fewer.subset_of(used),
        was.subset_of(wider),
        released_p2(m, t, was, used),
        k[t] == m[t],
    ensures
        released_p2(k, t, wider, fewer),
{
    assert forall|i: int| 0 <= i < 512 && table_below(#[trigger] k[t][i]) is Some implies {
        &&& wider.contains(table_below(k[t][i])->0)
        &&& !fewer.contains(table_below(k[t][i])->0)
    } by {
        assert(table_below(m[t][i]) is Some);
    }
}

/// What is released below a level-3 table stays released when more frames
/// leave `used`, and depends on that table and the tables it points at
/// alone.
pub proof fn lemma_released_p3_monotone(
    m: Map<int, Seq<u64>>,
    k: Map<int, Seq<u64>>,
    t: int,
    was: Set<int>,
    used: Set<int>,
    wider: Set<int>,
    fewer: Set<int>,
)
    requires
        fewer.subset_of(used),
        was.subset_of(wider),
        released_p3(m, t, was, used),
        k[t] == m[t],
        forall|i: int|
            0 <= i < 512 && table_below(#[trigger] m[t][i]) is Some ==> k[table_below(m[t][i])->0]
                == m[table_below(m[t][i])->0],
    ensures
        released_p3(k, t, wider, fewer),
{
    assert forall|i: int| 0 <= i < 512 && table_below(#[trigger] k[t][i]) is Some implies {
        &&& wider.contains(table_below(k[t][i])->0)
        &&& !fewer.contains(table_below(k[t][i])->0)
        &&& released_p2(k, table_below(k[t][i])->0, wider, fewer)
    } by {
        assert(table_below(m[t][i]) is Some);
        let t2 = table_below(m[t][i])->0;
        lemma_released_p2_monotone(m, k, t2, was, used, wider, fewer);
    }
}

/// A lookup finds each of the `count` pages from `v` on in the frame that
/// lies as many pages beyond `p`.
pub open spec fn pages_found(m: Map<int, Seq<u64>>, root: int, v: u64, p: u64, count: int) -> bool {
    forall|k: int|
        0 <= k < count ==> #[trigger] lookup_p4(m, root, canonical_form((v + k * 0x1000) as u64))
            == Some(physical_frame((p + k * 0x1000) as u64))
}

/// What mapping a page in a tree comes to: the tables stay a tree, the
/// page is found, and every other page that was found is found as before.
pub proof fn lemma_mapped_in_tree(
    m: Map<int, Seq<u64>>,
    root: int,
    v: u64,
    p: u64,
    fresh: FreshTables,
    used: Set<int>,
)
    requires
        tree_ok(m, root, used),
        fresh.fresh(missing_p4(m, root, v), used),
    ensures
        tree_ok(
            mapped_p4(m, root, v, p, fresh),
            root,
            used.union(fresh.frames(missing_p4(m, root, v))),
        ),
        lookup_p4(mapped_p4(m, root, v, p, fresh), root, v) == Some(physical_frame(p)),
        forall|w: u64|
            lookup_p4(m, root, w) is Some && !same_page(w, v) ==> #[trigger] lookup_p4(
                mapped_p4(m, root, v, p, fresh),
                root,
                w,
            ) == lookup_p4(m, root, w),
{
    lemma_tree_kept(m, root, v, p, fresh, used);
    lemma_tree_map_then_lookup(m, root, v, p, fresh, used);
    assert forall|w: u64|
        lookup_p4(m, root, w) is Some && !same_page(w, v) implies #[trigger] lookup_p4(
        mapped_p4(m, root, v, p, fresh),
        root,
        w,
    ) == lookup_p4(m, root, w) by {
        lemma_lookup_kept(m, root, v, p, fresh, used, w);
    }
}

/// Holds the address of the root table and the offset at which physical
/// memory is mapped while the tables are in use.
#[derive(Debug)]
pub struct PageTableManager {
    p4: PhysicalAddress,
    offset: u64,
}

impl PageTableManager {
    /// The address of the root table.
    pub closed spec fn root(&self) -> u64 {
        self.p4.value()
    }

    /// The offset at which physical memory is mapped.
    pub closed spec fn direct_map_offset(&self) -> u64 {
        self.offset
    }

    /// A manager of the tables rooted at `p4`.
    pub fn new(p4: PhysicalAddress, offset: u64) -> (r: PageTableManager)
        ensures
            r.root() == p4.value(),
            r.direct_map_offset() == offset,
    {
        PageTableManager { p4, offset }
    }

    /// A manager of a new hierarchy: takes one frame from the allocator and
    /// clears it for the root table. The root is the frame that the
    /// allocator hands out; where it hands out none, the result is its
    /// error and nothing is changed.
    pub fn new_from_allocator<A: FrameAllocator>(
        memory: &mut PhysicalMemory,
        allocator: &mut A,
        offset: u64,
    ) -> (r: Result<PageTableManager, AllocError>)
        requires
            old(allocator).valid(),
        ensures
            final(allocator).valid(),
            match old(allocator).request_outcome() {
                Ok(p) => r is Ok && r->Ok_0.root() == p,
                Err(e) => r == Err::<PageTableManager, AllocError>(e),
            },
            r is Err ==> *final(allocator) == *old(allocator),
            match r {
                Ok(manager) => {
                    &&& physical_frame(manager.root()) == manager.root()
                    &&& manager.direct_map_offset() == offset
                    &&& !old(allocator).used_frames().contains(frame_of(manager.root()))
                    &&& final(allocator).used_frames() == old(allocator).used_frames().insert(
                        frame_of(manager.root()),
                    )
                    &&& final(memory)@ == old(memory)@.insert(
                        frame_of(manager.root()),
                        unused_table(),
                    )
                    &&& tree_ok(
                        final(memory)@,
                        frame_of(manager.root()),
                        final(allocator).used_frames(),
                    )
                },
                Err(_) => {
                    &&& final(allocator).used_frames() == old(allocator).used_frames()
                    &&& final(memory)@ == old(memory)@
                },
            },
    {
        match allocator.request_page() {
            Ok(p4_paddr) => {
                memory.clear_table(p4_paddr);
                proof {
                    memory.lemma_is_memory();
                    lemma_new_tree(
                        memory@,
                        frame_of(p4_paddr.value()),
                        allocator.used_frames(),
                    );
                }
                Ok(PageTableManager::new(p4_paddr, offset))
            },
            Err(e) => Err(e),
        }
    }

    /// A copy of the root table.
    pub fn get_p4(&self, memory: &PhysicalMemory) -> (r: PageTable)
        ensures
            r@ == memory@[frame_of(self.root())],
    {
        memory.read_table(self.p4)
    }

    pub fn get_p4_address(&self) -> (r: PhysicalAddress)
        ensures
            r.value() == self.root(),
    {
        self.p4
    }

    /// Sets the offset at which physical memory is mapped. The tables that
    /// are live must map it there.
    pub fn set_offset(&mut self, offset: u64)
        ensures
            final(self).root() == old(self).root(),
            final(self).direct_map_offset() == offset,
    {
        self.offset = offset;
    }

    /// The virtual address at which `physical_address` is read while the
    /// tables are in use.
    pub fn translate_address(&self, physical_address: PhysicalAddress) -> (r: VirtualAddress)
        requires
            physical_address.value() + self.direct_map_offset() <= u64::MAX,
        ensures
            r.value() == canonical_form(
                (physical_address.value() + self.direct_map_offset()) as u64,
            ),
    {
        physical_address.get_virtual_address_at_offset(self.offset)
    }

    /// Maps `num_pages` pages from `virtual_address` on to the frames from
    /// `physical_address` on, one page after the other, and stops at the
    /// first page that cannot be mapped: the pages before it stay mapped,
    /// and the failed attempt changed no table that was in use.
    pub fn map_memory_pages<A: FrameAllocator>(
        &self,
        memory: &mut PhysicalMemory,
        virtual_address: VirtualAddress,
        physical_address: PhysicalAddress,
        num_pages: u64,
        allocator: &mut A,
    ) -> (r: Result<(), AllocError>)
        requires
            old(allocator).valid(),
            num_pages > 0 ==> virtual_address.value() + (num_pages - 1) * 0x1000 <= u64::MAX,
            num_pages > 0 ==> physical_address.value() + (num_pages - 1) * 0x1000 <= u64::MAX,
        ensures
            final(allocator).valid(),
            old(allocator).used_frames().subset_of(final(allocator).used_frames()),
            match r {
                Ok(_) => true,
                Err(e) => num_pages > 0 && final(allocator).request_outcome() == Err::<
                    u64,
                    AllocError,
                >(e),
            },
            r is Ok ==> maps_run(
                old(memory)@,
                old(allocator).used_frames(),
                final(memory)@,
                final(allocator).used_frames(),
                frame_of(self.root()),
                virtual_address.value(),
                physical_address.value(),
                num_pages as int,
            ),
            tree_ok(old(memory)@, frame_of(self.root()), old(allocator).used_frames()) ==> {
                &&& tree_ok(
                    final(memory)@,
                    frame_of(self.root()),
                    final(allocator).used_frames(),
                )
                &&& r is Ok && num_pages <= 0x10_0000_0000 ==> pages_found(
                    final(memory)@,
                    frame_of(self.root()),
                    virtual_address.value(),
                    physical_address.value(),
                    num_pages as int,
                )
                &&& forall|w: u64|
                    lookup_p4(old(memory)@, frame_of(self.root()), w) is Some && outside_pages(
                        w,
                        virtual_address.value(),
                        num_pages as int,
                    ) ==> #[trigger] lookup_p4(final(memory)@, frame_of(self.root()), w)
                        == lookup_p4(old(memory)@, frame_of(self.root()), w)
            },
            exists|tables: Seq<Map<int, Seq<u64>>>, used: Seq<Set<int>>|
                {
                    &&& #[trigger] maps_pages(
                        tables,
                        used,
                        frame_of(self.root()),
                        virtual_address.value(),
                        physical_address.value(),
                        tables.len() - 1,
                    )
                    &&& 1 <= tables.len() <= num_pages + 1
                    &&& tables[0] == old(memory)@
                    &&& used[0] == old(allocator).used_frames()
                    &&& used.last().subset_of(final(allocator).used_frames())
                    &&& match r {
                        Ok(_) => {
                            &&& tables.len() == num_pages + 1
                            &&& tables.last() == final(memory)@
                            &&& used.last() == final(allocator).used_frames()
                        },
                        Err(_) => {
                            &&& tables.len() <= num_pages
                            &&& forall|f: int|
                                used.last().contains(f) ==> #[trigger] final(memory)@[f]
                                    == tables.last()[f]
                        },
                    }
                },
    {
        let ghost root = frame_of(self.root());
        let ghost mut tables: Seq<Map<int, Seq<u64>>> = seq![memory@];
        let ghost mut used: Seq<Set<int>> = seq![allocator.used_frames()];
        let mut page: u64 = 0;
        while page < num_pages
            invariant
                allocator.valid(),
                page <= num_pages,
                root == frame_of(self.root()),
                num_pages > 0 ==> virtual_address.value() + (num_pages - 1) * 0x1000 <= u64::MAX,
                num_pages > 0 ==> physical_address.value() + (num_pages - 1) * 0x1000 <= u64::MAX,
                old(allocator).used_frames().subset_of(allocator.used_frames()),
                maps_pages(
                    tables,
                    used,
                    root,
                    virtual_address.value(),
                    physical_address.value(),
                    page as int,
                ),
                tables[0] == old(memory)@,
                used[0] == old(allocator).used_frames(),
                tables.last() == memory@,
                used.last() == allocator.used_frames(),
                tree_ok(old(memory)@, root, old(allocator).used_frames()) ==> {
                    &&& tree_ok(memory@, root, allocator.used_frames())
                    &&& num_pages <= 0x10_0000_0000 ==> pages_found(
                        memory@,
                        root,
                        virtual_address.value(),
                        physical_address.value(),
                        page as int,
                    )
                    &&& forall|w: u64|
                        lookup_p4(old(memory)@, root, w) is Some && outside_pages(
                            w,
                            virtual_address.value(),
                            num_pages as int,
                        ) ==> #[trigger] lookup_p4(memory@, root, w) == lookup_p4(
                            old(memory)@,
                            root,
                            w,
                        )
                },
            decreases num_pages - page,
        {
            let cur_paddr = physical_address.increment_pages(page);
            let cur_vaddr = virtual_address.increment_pages(page);
            let ghost before_step = memory@;
            let ghost cur_v = (virtual_address.value() + page * 0x1000) as u64;
            let ghost cur_p = physical_frame((physical_address.value() + page * 0x1000) as u64);
            proof {
                lemma_physical_frame((physical_address.value() + page * 0x1000) as u64);
                assert(same_page(cur_vaddr.value(), cur_v));
                assert(cur_paddr.value() == cur_p);
                if tree_ok(old(memory)@, root, old(allocator).used_frames()) {
                    assert forall|w: u64|
                        lookup_p4(old(memory)@, root, w) is Some && outside_pages(
                            w,
                            virtual_address.value(),
                            num_pages as int,
                        ) implies !same_page(w, cur_vaddr.value()) by {
                        assert(!same_page(w, cur_v));
                    }
                    if num_pages <= 0x10_0000_0000 {
                        assert forall|k: int| 0 <= k < page implies !same_page(
                            #[trigger] ((virtual_address.value() + k * 0x1000) as u64),
                            cur_vaddr.value(),
                        ) by {
                            lemma_same_page((virtual_address.value() + k * 0x1000) as u64, cur_v);
                        }
                    }
                }
            }
            match self.map_memory(memory, cur_vaddr, cur_paddr, allocator) {
                Ok(_) => {},
                Err(e) => {
                    proof {
                        assert(maps_pages(
                            tables,
                            used,
                            root,
                            virtual_address.value(),
                            physical_address.value(),
                            tables.len() - 1,
                        ));
                    }
                    return Err(e);
                },
            }
            proof {
                let before = tables;
                let used_before = used;
                tables = tables.push(memory@);
                used = used.push(allocator.used_frames());
                assert(maps_page(
                    before[page as int],
                    used_before[page as int],
                    tables[page + 1],
                    used[page + 1],
                    root,
                    cur_vaddr.value(),
                    cur_p,
                ));
                lemma_maps_same_page(
                    before[page as int],
                    used_before[page as int],
                    tables[page + 1],
                    used[page + 1],
                    root,
                    cur_vaddr.value(),
                    cur_v,
                    cur_p,
                );
                assert forall|k: int| 0 <= k < page + 1 implies maps_page(
                    #[trigger] tables[k],
                    used[k],
                    tables[k + 1],
                    used[k + 1],
                    root,
                    (virtual_address.value() + k * 0x1000) as u64,
                    physical_frame((physical_address.value() + k * 0x1000) as u64),
                ) by {
                    if k < page {
                        assert(maps_page(
                            before[k],
                            used_before[k],
                            before[k + 1],
                            used_before[k + 1],
                            root,
                            (virtual_address.value() + k * 0x1000) as u64,
                            physical_frame((physical_address.value() + k * 0x1000) as u64),
                        ));
                    }
                }
                if tree_ok(old(memory)@, root, old(allocator).used_frames()) && num_pages
                    <= 0x10_0000_0000 {
                    assert forall|k: int| 0 <= k < page + 1 implies #[trigger] lookup_p4(
                        memory@,
                        root,
                        canonical_form((virtual_address.value() + k * 0x1000) as u64),
                    ) == Some(physical_frame((physical_address.value() + k * 0x1000) as u64)) by {
                        if k < page {
                            let raw = (virtual_address.value() + k * 0x1000) as u64;
                            let w = canonical_form(raw);
                            lemma_canonical_indexes(raw);
                            assert(lookup_p4(before_step, root, w) == Some(
                                physical_frame((physical_address.value() + k * 0x1000) as u64),
                            ));
                            assert(!same_page(raw, cur_vaddr.value()));
                            assert(!same_page(w, cur_vaddr.value()));
                        } else {
                            assert(cur_vaddr.value() == canonical_form(cur_v));
                        }
                    }
                }
            }
            page += 1;
        }
        proof {
            assert(maps_pages(
                tables,
                used,
                root,
                virtual_address.value(),
                physical_address.value(),
                tables.len() - 1,
            ));
        }
        Ok(())
    }

    /// Maps the page of `virtual_address` to `physical_address`. Walks
    /// from the root down; where an entry is not present it takes a frame
    /// from the allocator, clears it and points the entry at it, present
    /// and writable. Fails only where the allocator does; frames taken
    /// before that stay taken, and no table that was in use is changed.
    pub fn map_memory<A: FrameAllocator>(
        &self,
        memory: &mut PhysicalMemory,
        virtual_address: VirtualAddress,
        physical_address: PhysicalAddress,
        allocator: &mut A,
    ) -> (r: Result<(), AllocError>)
        requires
            old(allocator).valid(),
        ensures
            final(allocator).valid(),
            old(allocator).used_frames().subset_of(final(allocator).used_frames()),
            match r {
                Ok(_) => true,
                Err(e) => final(allocator).request_outcome() == Err::<u64, AllocError>(e),
            },
            missing_p4(old(memory)@, frame_of(self.root()), virtual_address.value()) == 0 ==> r
                is Ok,
            r is Ok && path_separate(
                old(memory)@,
                frame_of(self.root()),
                virtual_address.value(),
                old(allocator).used_frames(),
            ) ==> lookup_p4(final(memory)@, frame_of(self.root()), virtual_address.value())
                == Some(physical_frame(physical_address.value())),
            tree_ok(old(memory)@, frame_of(self.root()), old(allocator).used_frames()) ==> {
                &&& tree_ok(
                    final(memory)@,
                    frame_of(self.root()),
                    final(allocator).used_frames(),
                )
                &&& r is Ok ==> lookup_p4(
                    final(memory)@,
                    frame_of(self.root()),
                    virtual_address.value(),
                ) == Some(physical_frame(physical_address.value()))
                &&& forall|w: u64|
                    lookup_p4(old(memory)@, frame_of(self.root()), w) is Some && !same_page(
                        w,
                        virtual_address.value(),
                    ) ==> #[trigger] lookup_p4(final(memory)@, frame_of(self.root()), w)
                        == lookup_p4(old(memory)@, frame_of(self.root()), w)
            },
            match r {
                Ok(_) => exists|fresh: FreshTables|
                    {
                        &&& #[trigger] fresh.fresh(
                            missing_p4(
                                old(memory)@,
                                frame_of(self.root()),
                                virtual_address.value(),
                            ),
                            old(allocator).used_frames(),
                        )
                        &&& final(allocator).used_frames() == old(allocator).used_frames().union(
                            fresh.frames(
                                missing_p4(
                                    old(memory)@,
                                    frame_of(self.root()),
                                    virtual_address.value(),
                                ),
                            ),
                        )
                        &&& final(memory)@ == mapped_p4(
                            old(memory)@,
                            frame_of(self.root()),
                            virtual_address.value(),
                            physical_address.value(),
                            fresh,
                        )
                    },
                Err(_) => forall|f: int|
                    old(allocator).used_frames().contains(f) ==> #[trigger] final(memory)@[f]
                        == old(memory)@[f],
            },
    {
        proof {
            memory.lemma_is_memory();
        }
        let index = virtual_address.p4_index();
        let mut p4_table_entry = memory.read_entry(self.p4, index);
        if !p4_table_entry.present() {
            let (created, Ghost(fresh)) = self.create_and_map_p3(
                memory,
                virtual_address,
                physical_address,
                allocator,
            );
            match created {
                Ok(p3_addr) => {
                    p4_table_entry.make_unused();
                    p4_table_entry.set_address(p3_addr);
                    p4_table_entry.set_present(true);
                    p4_table_entry.set_read_write(true);
                    memory.write_entry(self.p4, index, p4_table_entry);
                    proof {
                        let root = frame_of(self.root());
                        let v = virtual_address.value();
                        assert(missing_p4(old(memory)@, root, v) == 3);
                        assert(fresh.fresh(missing_p4(old(memory)@, root, v), old(allocator).used_frames()));
                        assert(memory@ == mapped_p4(
                            old(memory)@,
                            root,
                            v,
                            physical_address.value(),
                            fresh,
                        ));
                        if path_separate(old(memory)@, root, v, old(allocator).used_frames()) {
                            lemma_map_then_lookup(
                                old(memory)@,
                                root,
                                v,
                                physical_address.value(),
                                fresh,
                                old(allocator).used_frames(),
                            );
                        }
                        if tree_ok(old(memory)@, root, old(allocator).used_frames()) {
                            lemma_mapped_in_tree(
                                old(memory)@,
                                root,
                                v,
                                physical_address.value(),
                                fresh,
                                old(allocator).used_frames(),
                            );
                        }
                    }
                    Ok(())
                },
                Err(e) => {
                    proof {
                        memory.lemma_is_memory();
                        if tree_ok(
                            old(memory)@,
                            frame_of(self.root()),
                            old(allocator).used_frames(),
                        ) {
                            lemma_tree_untouched(
                                old(memory)@,
                                memory@,
                                frame_of(self.root()),
                                old(allocator).used_frames(),
                                allocator.used_frames(),
                            );
                        }
                    }
                    Err(e)
                },
            }
        } else {
            let (mapped, Ghost(fresh)) = self.map_p3(
                memory,
                p4_table_entry.address(),
                virtual_address,
                physical_address,
                allocator,
            );
            match mapped {
                Ok(_) => {
                    proof {
                        let root = frame_of(self.root());
                        let v = virtual_address.value();
                        assert(fresh.fresh(missing_p4(old(memory)@, root, v), old(allocator).used_frames()));
                        assert(memory@ == mapped_p4(
                            old(memory)@,
                            root,
                            v,
                            physical_address.value(),
                            fresh,
                        ));
                        if path_separate(old(memory)@, root, v, old(allocator).used_frames()) {
                            lemma_map_then_lookup(
                                old(memory)@,
                                root,
                                v,
                                physical_address.value(),
                                fresh,
                                old(allocator).used_frames(),
                            );
                        }
                        if tree_ok(old(memory)@, root, old(allocator).used_frames()) {
                            lemma_mapped_in_tree(
                                old(memory)@,
                                root,
                                v,
                                physical_address.value(),
                                fresh,
                                old(allocator).used_frames(),
                            );
                        }
                    }
                    Ok(())
                },
                Err(e) => {
                    proof {
                        memory.lemma_is_memory();
                        if tree_ok(
                            old(memory)@,
                            frame_of(self.root()),
                            old(allocator).used_frames(),
                        ) {
                            lemma_tree_untouched(
                                old(memory)@,
                                memory@,
                                frame_of(self.root()),
                                old(allocator).used_frames(),
                                allocator.used_frames(),
                            );
                        }
                    }
                    Err(e)
                },
            }
        }
    }

    fn create_and_map_p3<A: FrameAllocator>(
        &self,
        memory: &mut PhysicalMemory,
        virtual_address: VirtualAddress,
        physical_address: PhysicalAddress,
        allocator: &mut A,
    ) -> (r: (Result<PhysicalAddress, AllocError>, Ghost<FreshTables>))
        requires
            old(allocator).valid(),
        ensures
            final(allocator).valid(),
            old(allocator).used_frames().subset_of(final(allocator).used_frames()),
            match r.0 {
                Ok(_) => true,
                Err(e) => final(allocator).request_outcome() == Err::<u64, AllocError>(e),
            },
            match r.0 {
                Ok(n3) => {
                    &&& r.1@.p3 == n3.value()
                    &&& r.1@.fresh(3, old(allocator).used_frames())
                    &&& final(allocator).used_frames() == old(allocator).used_frames().union(
                        r.1@.frames(3),
                    )
                    &&& final(memory)@ == created_p3(
                        old(memory)@,
                        virtual_address.value(),
                        physical_address.value(),
                        r.1@,
                    )
                },
                Err(_) => forall|f: int|
                    old(allocator).used_frames().contains(f) ==> #[trigger] final(memory)@[f]
                        == old(memory)@[f],
            },
    {
        match allocator.request_page() {
            Ok(output) => {
                memory.clear_table(output);
                let (mapped, Ghost(below)) = self.map_p3(
                    memory,
                    output,
                    virtual_address,
                    physical_address,
                    allocator,
                );
                let ghost fresh = FreshTables { p3: output.value(), p2: below.p2, p1: below.p1 };
                match mapped {
                    Ok(_) => {
                        proof {
                            lemma_linked_to(0, 0);
                            assert(final(allocator).used_frames() =~= old(
                                allocator,
                            ).used_frames().union(fresh.frames(3)));
                        }
                        (Ok(output), Ghost(fresh))
                    },
                    Err(e) => (Err(e), Ghost(fresh)),
                }
            },
            Err(e) => (Err(e), Ghost(FreshTables { p3: 0, p2: 0, p1: 0 })),
        }
    }

    fn map_p3<A: FrameAllocator>(
        &self,
        memory: &mut PhysicalMemory,
        p3_table: PhysicalAddress,
        virtual_address: VirtualAddress,
        physical_address: PhysicalAddress,
        allocator: &mut A,
    ) -> (r: (Result<(), AllocError>, Ghost<FreshTables>))
        requires
            old(allocator).valid(),
        ensures
            final(allocator).valid(),
            old(allocator).used_frames().subset_of(final(allocator).used_frames()),
            match r.0 {
                Ok(_) => true,
                Err(e) => final(allocator).request_outcome() == Err::<u64, AllocError>(e),
            },
            missing_p3(old(memory)@, frame_of(p3_table.value()), virtual_address.value()) == 0
                ==> r.0 is Ok,
            match r.0 {
                Ok(_) => {
                    &&& r.1@.fresh(
                        missing_p3(
                            old(memory)@,
                            frame_of(p3_table.value()),
                            virtual_address.value(),
                        ),
                        old(allocator).used_frames(),
                    )
                    &&& final(allocator).used_frames() == old(allocator).used_frames().union(
                        r.1@.frames(
                            missing_p3(
                                old(memory)@,
                                frame_of(p3_table.value()),
                                virtual_address.value(),
                            ),
                        ),
                    )
                    &&& final(memory)@ == mapped_p3(
                        old(memory)@,
                        frame_of(p3_table.value()),
                        virtual_address.value(),
                        physical_address.value(),
                        r.1@,
                    )
                },
                Err(_) => forall|f: int|
                    old(allocator).used_frames().contains(f) ==> #[trigger] final(memory)@[f]
                        == old(memory)@[f],
            },
    {
        let index = virtual_address.p3_index();
        let mut p3_table_entry = memory.read_entry(p3_table, index);
        if !p3_table_entry.present() {
            let (created, Ghost(fresh)) = self.create_and_map_p2(
                memory,
                virtual_address,
                physical_address,
                allocator,
            );
            match created {
                Ok(p2_addr) => {
                    p3_table_entry.set_address(p2_addr);
                    p3_table_entry.set_present(true);
                    p3_table_entry.set_read_write(true);
                    memory.write_entry(p3_table, index, p3_table_entry);
                    (Ok(()), Ghost(fresh))
                },
                Err(e) => (Err(e), Ghost(fresh)),
            }
        } else {
            let (mapped, Ghost(fresh)) = self.map_p2(
                memory,
                p3_table_entry.address(),
                virtual_address,
                physical_address,
                allocator,
            );
            match mapped {
                Ok(_) => (Ok(()), Ghost(fresh)),
                Err(e) => (Err(e), Ghost(fresh)),
            }
        }
    }

    fn create_and_map_p2<A: FrameAllocator>(
        &self,
        memory: &mut PhysicalMemory,
        virtual_address: VirtualAddress,
        physical_address: PhysicalAddress,
        allocator: &mut A,
    ) -> (r: (Result<PhysicalAddress, AllocError>, Ghost<FreshTables>))
        requires
            old(allocator).valid(),
        ensures
            final(allocator).valid(),
            old(allocator).used_frames().subset_of(final(allocator).used_frames()),
            match r.0 {
                Ok(_) => true,
                Err(e) => final(allocator).request_outcome() == Err::<u64, AllocError>(e),
            },
            match r.0 {
                Ok(n2) => {
                    &&& r.1@.p2 == n2.value()
                    &&& r.1@.fresh(2, old(allocator).used_frames())
                    &&& final(allocator).used_frames() == old(allocator).used_frames().union(
                        r.1@.frames(2),
                    )
                    &&& final(memory)@ == created_p2(
                        old(memory)@,
                        virtual_address.value(),
                        physical_address.value(),
                        r.1@,
                    )
                },
                Err(_) => forall|f: int|
                    old(allocator).used_frames().contains(f) ==> #[trigger] final(memory)@[f]
                        == old(memory)@[f],
            },
    {
        match allocator.request_page() {
            Ok(output) => {
                memory.clear_table(output);
                let (mapped, Ghost(below)) = self.map_p2(
                    memory,
                    output,
                    virtual_address,
                    physical_address,
                    allocator,
                );
                let ghost fresh = FreshTables { p3: 0, p2: output.value(), p1: below.p1 };
                match mapped {
                    Ok(_) => {
                        proof {
                            lemma_linked_to(0, 0);
                            assert(final(allocator).used_frames() =~= old(
                                allocator,
                            ).used_frames().union(fresh.frames(2)));
                        }
                        (Ok(output), Ghost(fresh))
                    },
                    Err(e) => (Err(e), Ghost(fresh)),
                }
            },
            Err(e) => (Err(e), Ghost(FreshTables { p3: 0, p2: 0, p1: 0 })),
        }
    }

    fn map_p2<A: FrameAllocator>(
        &self,
        memory: &mut PhysicalMemory,
        p2_table: PhysicalAddress,
        virtual_address: VirtualAddress,
        physical_address: PhysicalAddress,
        allocator: &mut A,
    ) -> (r: (Result<(), AllocError>, Ghost<FreshTables>))
        requires
            old(allocator).valid(),
        ensures
            final(allocator).valid(),
            old(allocator).used_frames().subset_of(final(allocator).used_frames()),
            match r.0 {
                Ok(_) => true,
                Err(e) => final(allocator).request_outcome() == Err::<u64, AllocError>(e),
            },
            missing_p2(old(memory)@, frame_of(p2_table.value()), virtual_address.value()) == 0
                ==> r.0 is Ok,
            match r.0 {
                Ok(_) => {
                    &&& r.1@.fresh(
                        missing_p2(
                            old(memory)@,
                            frame_of(p2_table.value()),
                            virtual_address.value(),
                        ),
                        old(allocator).used_frames(),
                    )
                    &&& final(allocator).used_frames() == old(allocator).used_frames().union(
                        r.1@.frames(
                            missing_p2(
                                old(memory)@,
                                frame_of(p2_table.value()),
                                virtual_address.value(),
                            ),
                        ),
                    )
                    &&& final(memory)@ == mapped_p2(
                        old(memory)@,
                        frame_of(p2_table.value()),
                        virtual_address.value(),
                        physical_address.value(),
                        r.1@,
                    )
                },
                Err(_) => forall|f: int|
                    old(allocator).used_frames().contains(f) ==> #[trigger] final(memory)@[f]
                        == old(memory)@[f],
            },
    {
        let index = virtual_address.p2_index();
        let mut p2_table_entry = memory.read_entry(p2_table, index);
        if !p2_table_entry.present() {
            let (created, Ghost(fresh)) = self.create_and_map_p1(
                memory,
                virtual_address,
                physical_address,
                allocator,
            );
            match created {
                Ok(p1_addr) => {
                    p2_table_entry.set_address(p1_addr);
                    p2_table_entry.set_present(true);
                    p2_table_entry.set_read_write(true);
                    memory.write_entry(p2_table, index, p2_table_entry);
                    (Ok(()), Ghost(fresh))
                },
                Err(e) => (Err(e), Ghost(fresh)),
            }
        } else {
            self.map_p1(memory, p2_table_entry.address(), virtual_address, physical_address);
            proof {
                assert(allocator.used_frames() =~= allocator.used_frames().union(
                    (FreshTables { p3: 0, p2: 0, p1: 0 }).frames(0),
                ));
            }
            (Ok(()), Ghost(FreshTables { p3: 0, p2: 0, p1: 0 }))
        }
    }

    fn create_and_map_p1<A: FrameAllocator>(
        &self,
        memory: &mut PhysicalMemory,
        virtual_address: VirtualAddress,
        physical_address: PhysicalAddress,
        allocator: &mut A,
    ) -> (r: (Result<PhysicalAddress, AllocError>, Ghost<FreshTables>))
        requires
            old(allocator).valid(),
        ensures
            final(allocator).valid(),
            old(allocator).used_frames().subset_of(final(allocator).used_frames()),
            match r.0 {
                Ok(_) => true,
                Err(e) => final(allocator).request_outcome() == Err::<u64, AllocError>(e),
            },
            match r.0 {
                Ok(n1) => {
                    &&& r.1@.p1 == n1.value()
                    &&& r.1@.fresh(1, old(allocator).used_frames())
                    &&& final(allocator).used_frames() == old(allocator).used_frames().union(
                        r.1@.frames(1),
                    )
                    &&& final(memory)@ == created_p1(
                        old(memory)@,
                        virtual_address.value(),
                        physical_address.value(),
                        r.1@,
                    )
                },
                Err(_) => final(memory)@ == old(memory)@,
            },
    {
        match allocator.request_page() {
            Ok(output) => {
                memory.clear_table(output);
                self.map_p1(memory, output, virtual_address, physical_address);
                let ghost fresh = FreshTables { p3: 0, p2: 0, p1: output.value() };
                proof {
                    assert(final(allocator).used_frames() =~= old(allocator).used_frames().union(
                        fresh.frames(1),
                    ));
                }
                (Ok(output), Ghost(fresh))
            },
            Err(e) => (Err(e), Ghost(FreshTables { p3: 0, p2: 0, p1: 0 })),
        }
    }

    fn map_p1(
        &self,
        memory: &mut PhysicalMemory,
        p1_table: PhysicalAddress,
        virtual_address: VirtualAddress,
        physical_address: PhysicalAddress,
    )
        ensures
            final(memory)@ == mapped_p1(
                old(memory)@,
                frame_of(p1_table.value()),
                virtual_address.value(),
                physical_address.value(),
            ),
    {
        let index = virtual_address.p1_index();
        let mut p1_table_entry = memory.read_entry(p1_table, index);
        p1_table_entry.set_address(physical_address);
        p1_table_entry.set_present(true);
        p1_table_entry.set_read_write(true);
        memory.write_entry(p1_table, index, p1_table_entry);
    }

    /// Gives every table of the hierarchy back to the allocator: for each
    /// present root entry the tables below it, lowest level first, then the
    /// table it points at, and the root table last. Stops at the first
    /// frame that the allocator does not take back. Where it succeeds,
    /// every table that the root led to was in use and is free, and no
    /// frame that is still in use was written. Of a hierarchy whose tables
    /// are in use and have one place each, with or without large pages,
    /// only the tables leave the allocator, the release fails only where
    /// the allocator refuses a frame that it holds as used, and where it
    /// succeeds every present entry of the root table is cleared. Where
    /// the root table has no present entry, the result is what the
    /// allocator says of the root.
    pub fn release_tables<A: FrameAllocator>(
        &self,
        memory: &mut PhysicalMemory,
        allocator: &mut A,
    ) -> (r: Result<(), AllocError>)
        requires
            old(allocator).valid(),
        ensures
            final(allocator).valid(),
            final(allocator).used_frames().subset_of(old(allocator).used_frames()),
            tree_ok(old(memory)@, frame_of(self.root()), old(allocator).used_frames())
                ==> subtree_p4(
                old(memory)@,
                frame_of(self.root()),
                old(allocator).used_frames(),
            ),
            subtree_p4(old(memory)@, frame_of(self.root()), old(allocator).used_frames()) ==> {
                &&& forall|f: int|
                    #[trigger] old(allocator).used_frames().contains(f) && f != frame_of(
                        self.root(),
                    ) && not_below_p4(old(memory)@, frame_of(self.root()), f, 512)
                        ==> final(allocator).used_frames().contains(f)
                &&& match r {
                    Ok(_) => {
                        &&& final(memory)@[frame_of(self.root())] == cleared(
                            old(memory)@[frame_of(self.root())],
                        )
                        &&& forall|i: int|
                            0 <= i < 512 ==> !has_flags(
                                #[trigger] final(memory)@[frame_of(self.root())][i],
                                0x1,
                            )
                    },
                    Err(e) => refuses(*final(allocator), e),
                }
            },
            (forall|i: int|
                0 <= i < 512 ==> !has_flags(#[trigger] old(memory)@[frame_of(self.root())][i], 
                    0x1,
                )) ==> {
                &&& r == old(allocator).free_outcome(self.root())
                &&& final(memory)@ == old(memory)@
            },
            r is Ok ==> {
                &&& old(allocator).used_frames().contains(frame_of(self.root()))
                &&& !final(allocator).used_frames().contains(frame_of(self.root()))
                &&& released_p4(
                    old(memory)@,
                    frame_of(self.root()),
                    old(allocator).used_frames(),
                    final(allocator).used_frames(),
                )
                &&& forall|f: int|
                    final(allocator).used_frames().contains(f) ==> #[trigger] final(memory)@[f]
                        == old(memory)@[f]
            },
    {
        let ghost m0 = memory@;
        let ghost was = allocator.used_frames();
        let ghost root = frame_of(self.root());
        let mut index: usize = 0;
        proof {
            if tree_ok(m0, root, was) {
                lemma_tree_apart(m0, root, was);
            }
        }
        while index < 512
            invariant
                index <= 512,
                tree_ok(m0, root, was) ==> subtree_p4(m0, root, was),
                root == frame_of(self.root()),
                allocator.valid(),
                allocator.used_frames().subset_of(was),
                was == old(allocator).used_frames(),
                m0 == old(memory)@,
                forall|f: int|
                    allocator.used_frames().contains(f) && f != root ==> #[trigger] memory@[f]
                        == m0[f],
                allocator.used_frames().contains(root) ==> {
                    &&& forall|i: int|
                        index <= i < 512 ==> #[trigger] memory@[root][i] == m0[root][i]
                    &&& forall|i: int|
                        0 <= i < index ==> #[trigger] memory@[root][i] == cleared(m0[root])[i]
                    &&& forall|i: int|
                        0 <= i < index && has_flags(#[trigger] m0[root][i], 0x1) ==> {
                            &&& was.contains(child_of(m0[root][i]))
                            &&& !allocator.used_frames().contains(child_of(m0[root][i]))
                            &&& released_p3(
                                m0,
                                child_of(m0[root][i]),
                                was,
                                allocator.used_frames(),
                            )
                        }
                },
                (forall|i: int| 0 <= i < 512 ==> !has_flags(#[trigger] m0[root][i], 0x1)) ==> {
                    &&& *allocator == *old(allocator)
                    &&& memory@ == m0
                },
                subtree_p4(m0, root, was) ==> forall|f: int|
                    #[trigger] was.contains(f) && not_below_p4(m0, root, f, index as int)
                        ==> allocator.used_frames().contains(f),
            decreases 512 - index,
        {
            let ghost before = memory@;
            let ghost used_before = allocator.used_frames();
            proof {
                memory.lemma_is_memory();
                lemma_linked_to(0, 0);
            }
            proof {
                if subtree_p4(m0, root, was) {
                    assert(was.contains(root) && not_below_p4(m0, root, root, index as int));
                    assert(used_before.contains(root));
                    assert(before[root][index as int] == m0[root][index as int]);
                    if has_flags(m0[root][index as int], 0x1) {
                        let t3 = child_of(m0[root][index as int]);
                        assert(subtree_p3(m0, t3, was));
                        assert(below_apart(m0, root, t3, index as int));
                        assert(not_below_p3(m0, t3, root, 512));
                        assert(was.contains(t3) && not_below_p4(m0, root, t3, index as int));
                        assert(used_before.contains(t3));
                        assert(before[t3] == m0[t3]);
                        assert forall|i: int|
                            0 <= i < 512 && table_below(#[trigger] m0[t3][i]) is Some implies {
                            &&& used_before.contains(table_below(m0[t3][i])->0)
                            &&& before[table_below(m0[t3][i])->0] == m0[table_below(
                                m0[t3][i],
                            )->0]
                            &&& forall|j: int|
                                0 <= j < 512 && table_below(
                                    #[trigger] m0[table_below(m0[t3][i])->0][j],
                                ) is Some ==> used_before.contains(
                                    table_below(m0[table_below(m0[t3][i])->0][j])->0,
                                )
                        } by {
                            let t2 = table_below(m0[t3][i])->0;
                            assert(subtree_p2(m0, t2, was));
                            assert(was.contains(t2) && not_below_p4(m0, root, t2, index as int));
                            assert(used_before.contains(t2));
                            assert(t2 != root);
                            assert forall|j: int|
                                0 <= j < 512 && table_below(
                                    #[trigger] m0[t2][j],
                                ) is Some implies used_before.contains(
                                table_below(m0[t2][j])->0,
                            ) by {
                                let t1 = table_below(m0[t2][j])->0;
                                assert(was.contains(t1) && not_below_p4(
                                    m0,
                                    root,
                                    t1,
                                    index as int,
                                ));
                            }
                        }
                        lemma_subtree_same(m0, before, t3, was, used_before);
                    }
                }
            }
            match self.unmap_p4_index(memory, index, allocator) {
                Ok(_) => {},
                Err(e) => {
                    proof {
                        if subtree_p4(m0, root, was) {
                            assert forall|f: int|
                                #[trigger] was.contains(f) && f != root && not_below_p4(
                                    m0,
                                    root,
                                    f,
                                    512,
                                ) implies allocator.used_frames().contains(f) by {
                                assert(not_below_p4(m0, root, f, index as int));
                                assert(used_before.contains(f));
                                if has_flags(m0[root][index as int], 0x1) {
                                    let t3 = child_of(m0[root][index as int]);
                                    assert(f != t3);
                                    assert(not_below_p3(m0, t3, f, 512));
                                    assert(not_below_p3(before, t3, f, 512));
                                }
                            }
                        }
                    }
                    return Err(e);
                },
            }
            proof {
                if subtree_p4(m0, root, was) {
                    assert forall|f: int|
                        #[trigger] was.contains(f) && not_below_p4(
                            m0,
                            root,
                            f,
                            index + 1,
                        ) implies allocator.used_frames().contains(f) by {
                        assert(not_below_p4(m0, root, f, index as int));
                        assert(used_before.contains(f));
                        if has_flags(m0[root][index as int], 0x1) {
                            let t3 = child_of(m0[root][index as int]);
                            assert(f != t3);
                            assert(not_below_p3(m0, t3, f, 512));
                            assert(not_below_p3(before, t3, f, 512));
                        }
                    }
                }
            }
            proof {
                let used = allocator.used_frames();
                if used.contains(root) {
                    assert(before[root][index as int] == m0[root][index as int]);
                    assert(memory@[root][index as int] == cleared(m0[root])[index as int]);
                    assert forall|i: int|
                        0 <= i < index + 1 && has_flags(#[trigger] m0[root][i], 0x1) implies {
                        &&& was.contains(child_of(m0[root][i]))
                        &&& !used.contains(child_of(m0[root][i]))
                        &&& released_p3(m0, child_of(m0[root][i]), was, used)
                    } by {
                        let c = child_of(m0[root][i]);
                        if i < index {
                            lemma_released_p3_monotone(m0, m0, c, was, used_before, was, used);
                        } else {
                            assert(used_before.contains(c) && c != root);
                            assert(before[c] == m0[c]);
                            assert(released_p3(before, c, used_before, used));
                            assert forall|j: int|
                                0 <= j < 512 && table_below(
                                    #[trigger] before[c][j],
                                ) is Some implies m0[table_below(before[c][j])->0]
                                == before[table_below(before[c][j])->0] by {
                                let d = table_below(before[c][j])->0;
                                assert(used_before.contains(d) && !used.contains(d));
                            }
                            lemma_released_p3_monotone(before, m0, c, used_before, used, was, used);
                        }
                    }
                }
            }
            index += 1;
        }
        let ghost used_before = allocator.used_frames();
        proof {
            lemma_linked_to(0, 0);
            memory.lemma_is_memory();
            old(memory).lemma_is_memory();
            if subtree_p4(m0, root, was) {
                assert(was.contains(root) && not_below_p4(m0, root, root, 512));
                assert(used_before.contains(root));
                assert(memory@[root] =~= cleared(m0[root]));
            }
        }
        let released = allocator.free_page(self.p4);
        proof {
            if released is Ok {
                let used = allocator.used_frames();
                assert forall|i: int|
                    0 <= i < 512 && has_flags(#[trigger] m0[root][i], 0x1) implies {
                    &&& was.contains(child_of(m0[root][i]))
                    &&& !used.contains(child_of(m0[root][i]))
                    &&& released_p3(m0, child_of(m0[root][i]), was, used)
                } by {
                    lemma_released_p3_monotone(
                        m0,
                        m0,
                        child_of(m0[root][i]),
                        was,
                        used_before,
                        was,
                        used,
                    );
                }
            }
        }
        released
    }

    /// Releases what hangs below entry `p4_index` of the root table: the
    /// tables below the table it points at, then that table, and clears the
    /// entry. Nothing is done where the index is above 511 or the entry is
    /// not present. Where the table that the entry points at and those
    /// below it are in use and apart, only they leave the allocator, and
    /// the release fails only where the allocator refuses one of them.
    pub fn unmap_p4_index<A: FrameAllocator>(
        &self,
        memory: &mut PhysicalMemory,
        p4_index: usize,
        allocator: &mut A,
    ) -> (r: Result<(), AllocError>)
        requires
            old(allocator).valid(),
        ensures
            final(allocator).valid(),
            final(allocator).used_frames().subset_of(old(allocator).used_frames()),
            p4_index > 511 || !has_flags(
                old(memory)@[frame_of(self.root())][p4_index as int],
                0x1,
            ) ==> {
                &&& r is Ok
                &&& final(memory)@ == old(memory)@
                &&& final(allocator).used_frames() == old(allocator).used_frames()
                &&& *final(allocator) == *old(allocator)
            },
            p4_index <= 511 && has_flags(
                old(memory)@[frame_of(self.root())][p4_index as int],
                0x1,
            ) && subtree_p3(
                old(memory)@,
                child_of(old(memory)@[frame_of(self.root())][p4_index as int]),
                old(allocator).used_frames(),
            ) ==> {
                &&& forall|f: int|
                    #[trigger] old(allocator).used_frames().contains(f) && f != child_of(
                        old(memory)@[frame_of(self.root())][p4_index as int],
                    ) && not_below_p3(
                        old(memory)@,
                        child_of(old(memory)@[frame_of(self.root())][p4_index as int]),
                        f,
                        512,
                    ) ==> final(allocator).used_frames().contains(f)
                &&& match r {
                    Ok(_) => true,
                    Err(e) => refuses(*final(allocator), e),
                }
            },
            r is Ok && p4_index <= 511 && has_flags(
                old(memory)@[frame_of(self.root())][p4_index as int],
                0x1,
            ) ==> {
                &&& old(allocator).used_frames().contains(
                    child_of(old(memory)@[frame_of(self.root())][p4_index as int]),
                )
                &&& !final(allocator).used_frames().contains(
                    child_of(old(memory)@[frame_of(self.root())][p4_index as int]),
                )
                &&& forall|f: int|
                    final(allocator).used_frames().contains(f) && f != frame_of(self.root())
                        ==> #[trigger] final(memory)@[f] == old(memory)@[f]
                &&& final(allocator).used_frames().contains(frame_of(self.root())) ==> {
                    &&& released_p3(
                        old(memory)@,
                        child_of(old(memory)@[frame_of(self.root())][p4_index as int]),
                        old(allocator).used_frames(),
                        final(allocator).used_frames(),
                    )
                    &&& final(memory)@[frame_of(self.root())] == old(memory)@[frame_of(
                        self.root(),
                    )].update(p4_index as int, 0)
                    &&& forall|v: u64|
                        table_index(v, 4) == p4_index ==> #[trigger] lookup_p4(
                            final(memory)@,
                            frame_of(self.root()),
                            v,
                        ) is None
                }
            },
    {
        if p4_index > PAGE_TABLE_MAX_INDEX {
            return Ok(());
        }
        let mut p4_entry = memory.read_entry(self.p4, p4_index);
        if p4_entry.present() {
            let p3_phys_address = p4_entry.address();
            let ghost m0 = memory@;
            let ghost was = allocator.used_frames();
            let ghost root = frame_of(self.root());
            let ghost t3 = frame_of(p3_phys_address.value());
            proof {
                if subtree_p3(m0, t3, was) {
                    assert(was.contains(t3) && not_below_p3(m0, t3, t3, 512));
                }
            }
            match self.unmap_p3(memory, p3_phys_address, allocator) {
                Ok(_) => {},
                Err(e) => {
                    return Err(e);
                },
            }
            let ghost m1 = memory@;
            let ghost used1 = allocator.used_frames();
            p4_entry.make_unused();
            memory.write_entry(self.p4, p4_index, p4_entry);
            match allocator.free_page(p3_phys_address) {
                Ok(_) => {},
                Err(e) => {
                    proof {
                        if subtree_p3(m0, t3, was) {
                            assert(allocator.free_outcome(p3_phys_address.value()) == Err::<
                                (),
                                AllocError,
                            >(e));
                        }
                    }
                    return Err(e);
                },
            }
            proof {
                let used = allocator.used_frames();
                if used.contains(root) {
                    assert(root != t3);
                    assert(m1[root] == m0[root]);
                    lemma_released_p3_monotone(m0, m0, t3, was, used1, was, used);
                    lemma_linked_to(0, 0);
                }
            }
        }
        Ok(())
    }

    /// Releases the tables below the level-3 table at `p3_table` and clears
    /// its present entries. Where no entry points at a table it succeeds
    /// and the allocator is left alone. Where the table and those below
    /// it are in use and apart, only those below it leave the allocator,
    /// and it fails only where the allocator refuses one of them.
    fn unmap_p3<A: FrameAllocator>(
        &self,
        memory: &mut PhysicalMemory,
        p3_table: PhysicalAddress,
        allocator: &mut A,
    ) -> (r: Result<(), AllocError>)
        requires
            old(allocator).valid(),
        ensures
            final(allocator).valid(),
            final(allocator).used_frames().subset_of(old(allocator).used_frames()),
            childless(old(memory)@, frame_of(p3_table.value())) ==> {
                &&& r is Ok
                &&& *final(allocator) == *old(allocator)
                &&& final(memory)@ == old(memory)@.insert(
                    frame_of(p3_table.value()),
                    cleared(old(memory)@[frame_of(p3_table.value())]),
                )
            },
            subtree_p3(
                old(memory)@,
                frame_of(p3_table.value()),
                old(allocator).used_frames(),
            ) ==> {
                &&& forall|f: int|
                    #[trigger] old(allocator).used_frames().contains(f) && not_below_p3(
                        old(memory)@,
                        frame_of(p3_table.value()),
                        f,
                        512,
                    ) ==> final(allocator).used_frames().contains(f)
                &&& match r {
                    Ok(_) => true,
                    Err(e) => refuses(*final(allocator), e),
                }
            },
            r is Ok ==> {
                &&& forall|f: int|
                    final(allocator).used_frames().contains(f) && f != frame_of(p3_table.value())
                        ==> #[trigger] final(memory)@[f] == old(memory)@[f]
                &&& final(allocator).used_frames().contains(frame_of(p3_table.value())) ==> {
                    &&& released_p3(
                        old(memory)@,
                        frame_of(p3_table.value()),
                        old(allocator).used_frames(),
                        final(allocator).used_frames(),
                    )
                    &&& final(memory)@[frame_of(p3_table.value())] == cleared(
                        old(memory)@[frame_of(p3_table.value())],
                    )
                }
            },
    {
        let ghost m0 = memory@;
        let ghost was = allocator.used_frames();
        let ghost t3 = frame_of(p3_table.value());
        let mut index: usize = 0;
        while index < 512
            invariant
                index <= 512,
                t3 == frame_of(p3_table.value()),
                allocator.valid(),
                allocator.used_frames().subset_of(was),
                was == old(allocator).used_frames(),
                m0 == old(memory)@,
                forall|f: int|
                    allocator.used_frames().contains(f) && f != t3 ==> #[trigger] memory@[f]
                        == m0[f],
                allocator.used_frames().contains(t3) ==> {
                    &&& forall|i: int| index <= i < 512 ==> #[trigger] memory@[t3][i] == m0[t3][i]
                    &&& forall|i: int|
                        0 <= i < index ==> #[trigger] memory@[t3][i] == cleared(m0[t3])[i]
                    &&& forall|i: int|
                        0 <= i < index && table_below(#[trigger] m0[t3][i]) is Some ==> {
                            &&& was.contains(table_below(m0[t3][i])->0)
                            &&& !allocator.used_frames().contains(table_below(m0[t3][i])->0)
                            &&& released_p2(
                                m0,
                                table_below(m0[t3][i])->0,
                                was,
                                allocator.used_frames(),
                            )
                        }
                },
                childless(m0, t3) ==> {
                    &&& *allocator == *old(allocator)
                    &&& memory@[t3].len() == 512
                    &&& forall|f: int| f != t3 ==> #[trigger] memory@[f] == m0[f]
                    &&& forall|i: int| index <= i < 512 ==> #[trigger] memory@[t3][i] == m0[t3][i]
                    &&& forall|i: int|
                        0 <= i < index ==> #[trigger] memory@[t3][i] == cleared(m0[t3])[i]
                },
                subtree_p3(m0, t3, was) ==> forall|f: int|
                    #[trigger] was.contains(f) && not_below_p3(m0, t3, f, index as int)
                        ==> allocator.used_frames().contains(f),
            decreases 512 - index,
        {
            let ghost before = memory@;
            let ghost used_before = allocator.used_frames();
            proof {
                memory.lemma_is_memory();
                if subtree_p3(m0, t3, was) {
                    assert(was.contains(t3) && not_below_p3(m0, t3, t3, index as int));
                }
            }
            let mut p3_entry = memory.read_entry(p3_table, index);
            if p3_entry.present() {
                if p3_entry.page_size() {
                    p3_entry.make_unused();
                    memory.write_entry(p3_table, index, p3_entry);
                } else {
                    let p2_phys_address = p3_entry.address();
                    let ghost t2 = frame_of(p2_phys_address.value());
                    proof {
                        if subtree_p3(m0, t3, was) {
                            assert(table_below(m0[t3][index as int]) == Some(t2));
                            assert(was.contains(t2) && not_below_p3(m0, t3, t2, index as int));
                            assert(before[t2] == m0[t2]);
                            assert forall|k: int|
                                0 <= k < 512 && table_below(
                                    #[trigger] before[t2][k],
                                ) is Some implies {
                                &&& used_before.contains(table_below(before[t2][k])->0)
                                &&& table_below(before[t2][k])->0 != t2
                                &&& not_below(before, t2, table_below(before[t2][k])->0, k)
                            } by {
                                let g = table_below(m0[t2][k])->0;
                                assert(table_below(m0[t2][k]) is Some);
                                assert(was.contains(g) && not_below_p3(m0, t3, g, index as int));
                                assert(not_below(m0, t2, g, k));
                            }
                            assert(subtree_p2(before, t2, used_before));
                            assert(not_below(before, t2, t2, 512));
                            assert(not_below(before, t2, t3, 512));
                        }
                    }
                    match self.unmap_p2(memory, p2_phys_address, allocator) {
                        Ok(_) => {},
                        Err(e) => {
                            proof {
                                if subtree_p3(m0, t3, was) {
                                    assert forall|f: int|
                                        #[trigger] was.contains(f) && not_below_p3(
                                            m0,
                                            t3,
                                            f,
                                            512,
                                        ) implies allocator.used_frames().contains(f) by {
                                        assert(not_below_p3(m0, t3, f, index as int));
                                        assert(not_below(m0, t2, f, 512));
                                        assert(used_before.contains(f));
                                    }
                                }
                            }
                            return Err(e);
                        },
                    }
                    let ghost m1 = memory@;
                    let ghost used1 = allocator.used_frames();
                    proof {
                        if subtree_p3(m0, t3, was) {
                            assert(used_before.contains(t2) && used1.contains(t2));
                            assert(used_before.contains(t3) && used1.contains(t3));
                        }
                    }
                    p3_entry.make_unused();
                    memory.write_entry(p3_table, index, p3_entry);
                    match allocator.free_page(p2_phys_address) {
                        Ok(_) => {},
                        Err(e) => {
                            proof {
                                if subtree_p3(m0, t3, was) {
                                    assert(allocator.free_outcome(p2_phys_address.value())
                                        == Err::<(), AllocError>(e));
                                    assert forall|f: int|
                                        #[trigger] was.contains(f) && not_below_p3(
                                            m0,
                                            t3,
                                            f,
                                            512,
                                        ) implies allocator.used_frames().contains(f) by {
                                        assert(not_below_p3(m0, t3, f, index as int));
                                        assert(not_below(m0, t2, f, 512));
                                        assert(used_before.contains(f));
                                    }
                                }
                            }
                            return Err(e);
                        },
                    }
                    proof {
                        if subtree_p3(m0, t3, was) {
                            assert forall|f: int|
                                #[trigger] was.contains(f) && not_below_p3(
                                    m0,
                                    t3,
                                    f,
                                    index + 1,
                                ) implies allocator.used_frames().contains(f) by {
                                assert(not_below_p3(m0, t3, f, index as int));
                                assert(table_below(m0[t3][index as int]) == Some(t2));
                                assert(not_below(m0, t2, f, 512));
                                assert(used_before.contains(f));
                                assert(used1.contains(f));
                            }
                        }
                    }
                    proof {
                        let used = allocator.used_frames();
                        if used.contains(t3) {
                            assert(t3 != t2);
                            assert(m1[t3] == before[t3]);
                            assert(before[t2] == m0[t2]);
                            lemma_released_p2_monotone(
                                before,
                                m0,
                                t2,
                                used_before,
                                used1,
                                was,
                                used,
                            );
                        }
                    }
                }
            }
            proof {
                let used = allocator.used_frames();
                if used.contains(t3) {
                    assert(before[t3][index as int] == m0[t3][index as int]);
                    assert forall|i: int|
                        0 <= i < index + 1 && table_below(#[trigger] m0[t3][i]) is Some implies {
                        &&& was.contains(table_below(m0[t3][i])->0)
                        &&& !used.contains(table_below(m0[t3][i])->0)
                        &&& released_p2(m0, table_below(m0[t3][i])->0, was, used)
                    } by {
                        if i < index {
                            lemma_released_p2_monotone(
                                m0,
                                m0,
                                table_below(m0[t3][i])->0,
                                was,
                                used_before,
                                was,
                                used,
                            );
                        }
                    }
                }
            }
            proof {
                if subtree_p3(m0, t3, was) {
                    assert forall|f: int|
                        #[trigger] was.contains(f) && not_below_p3(
                            m0,
                            t3,
                            f,
                            index + 1,
                        ) implies allocator.used_frames().contains(f) by {
                        assert(not_below_p3(m0, t3, f, index as int));
                        if used_before != allocator.used_frames() {
                        } else {
                            assert(used_before.contains(f));
                        }
                    }
                }
            }
            index += 1;
        }
        proof {
            if allocator.used_frames().contains(t3) {
                assert(memory@[t3] =~= cleared(m0[t3]));
            }
            if childless(m0, t3) {
                memory.lemma_is_memory();
                old(memory).lemma_is_memory();
                assert(memory@[t3] =~= cleared(m0[t3]));
                assert(memory@ =~= m0.insert(t3, cleared(m0[t3])));
            }
        }
        Ok(())
    }

    /// Clears and releases the level-1 tables below the level-2 table at
    /// `p2_table` and clears its present entries. Where no entry points at
    /// a table it succeeds and the allocator is left alone. Where the
    /// table and those below it are in use and apart, only those below it
    /// leave the allocator, and it fails only where the allocator refuses
    /// one of them.
    fn unmap_p2<A: FrameAllocator>(
        &self,
        memory: &mut PhysicalMemory,
        p2_table: PhysicalAddress,
        allocator: &mut A,
    ) -> (r: Result<(), AllocError>)
        requires
            old(allocator).valid(),
        ensures
            final(allocator).valid(),
            final(allocator).used_frames().subset_of(old(allocator).used_frames()),
            childless(old(memory)@, frame_of(p2_table.value())) ==> {
                &&& r is Ok
                &&& *final(allocator) == *old(allocator)
                &&& final(memory)@ == old(memory)@.insert(
                    frame_of(p2_table.value()),
                    cleared(old(memory)@[frame_of(p2_table.value())]),
                )
            },
            subtree_p2(
                old(memory)@,
                frame_of(p2_table.value()),
                old(allocator).used_frames(),
            ) ==> {
                &&& forall|f: int|
                    #[trigger] old(allocator).used_frames().contains(f) && not_below(
                        old(memory)@,
                        frame_of(p2_table.value()),
                        f,
                        512,
                    ) ==> final(allocator).used_frames().contains(f)
                &&& match r {
                    Ok(_) => true,
                    Err(e) => refuses(*final(allocator), e),
                }
            },
            r is Ok ==> {
                &&& forall|f: int|
                    final(allocator).used_frames().contains(f) && f != frame_of(p2_table.value())
                        ==> #[trigger] final(memory)@[f] == old(memory)@[f]
                &&& final(allocator).used_frames().contains(frame_of(p2_table.value())) ==> {
                    &&& released_p2(
                        old(memory)@,
                        frame_of(p2_table.value()),
                        old(allocator).used_frames(),
                        final(allocator).used_frames(),
                    )
                    &&& final(memory)@[frame_of(p2_table.value())] == cleared(
                        old(memory)@[frame_of(p2_table.value())],
                    )
                }
            },
    {
        let ghost m0 = memory@;
        let ghost was = allocator.used_frames();
        let ghost t2 = frame_of(p2_table.value());
        let mut index: usize = 0;
        while index < 512
            invariant
                index <= 512,
                t2 == frame_of(p2_table.value()),
                allocator.valid(),
                allocator.used_frames().subset_of(was),
                was == old(allocator).used_frames(),
                m0 == old(memory)@,
                forall|f: int|
                    allocator.used_frames().contains(f) && f != t2 ==> #[trigger] memory@[f]
                        == m0[f],
                allocator.used_frames().contains(t2) ==> {
                    &&& forall|i: int| index <= i < 512 ==> #[trigger] memory@[t2][i] == m0[t2][i]
                    &&& forall|i: int|
                        0 <= i < index ==> #[trigger] memory@[t2][i] == cleared(m0[t2])[i]
                    &&& forall|i: int|
                        0 <= i < index && table_below(#[trigger] m0[t2][i]) is Some ==> {
                            &&& was.contains(table_below(m0[t2][i])->0)
                            &&& !allocator.used_frames().contains(table_below(m0[t2][i])->0)
                        }
                },
                childless(m0, t2) ==> {
                    &&& *allocator == *old(allocator)
                    &&& memory@[t2].len() == 512
                    &&& forall|f: int| f != t2 ==> #[trigger] memory@[f] == m0[f]
                    &&& forall|i: int| index <= i < 512 ==> #[trigger] memory@[t2][i] == m0[t2][i]
                    &&& forall|i: int|
                        0 <= i < index ==> #[trigger] memory@[t2][i] == cleared(m0[t2])[i]
                },
                subtree_p2(m0, t2, was) ==> forall|f: int|
                    #[trigger] was.contains(f) && not_below(m0, t2, f, index as int)
                        ==> allocator.used_frames().contains(f),
            decreases 512 - index,
        {
            let ghost before = memory@;
            let ghost used_before = allocator.used_frames();
            proof {
                memory.lemma_is_memory();
                if subtree_p2(m0, t2, was) {
                    assert(was.contains(t2) && not_below(m0, t2, t2, index as int));
                }
            }
            let mut p2_entry = memory.read_entry(p2_table, index);
            if p2_entry.present() {
                if p2_entry.page_size() {
                    p2_entry.make_unused();
                    memory.write_entry(p2_table, index, p2_entry);
                } else {
                    let p1_phys_address = p2_entry.address();
                    memory.clear_table(p1_phys_address);
                    p2_entry.make_unused();
                    memory.write_entry(p2_table, index, p2_entry);
                    match allocator.free_page(p1_phys_address) {
                        Ok(_) => {},
                        Err(e) => {
                            proof {
                                if subtree_p2(m0, t2, was) {
                                    let c = table_below(m0[t2][index as int])->0;
                                    assert(was.contains(c) && not_below(m0, t2, c, index as int));
                                    assert(allocator.free_outcome(p1_phys_address.value())
                                        == Err::<(), AllocError>(e));
                                    assert forall|f: int|
                                        #[trigger] was.contains(f) && not_below(
                                            m0,
                                            t2,
                                            f,
                                            512,
                                        ) implies allocator.used_frames().contains(f) by {
                                        assert(not_below(m0, t2, f, index as int));
                                    }
                                }
                            }
                            return Err(e);
                        },
                    }
                }
            }
            proof {
                if allocator.used_frames().contains(t2) {
                    assert(before[t2][index as int] == m0[t2][index as int]);
                }
                if subtree_p2(m0, t2, was) {
                    assert forall|f: int|
                        #[trigger] was.contains(f) && not_below(
                            m0,
                            t2,
                            f,
                            index + 1,
                        ) implies allocator.used_frames().contains(f) by {
                        assert(not_below(m0, t2, f, index as int));
                        assert(table_below(m0[t2][index as int]) != Some(f));
                    }
                }
            }
            index += 1;
        }
        proof {
            if allocator.used_frames().contains(t2) {
                assert(memory@[t2] =~= cleared(m0[t2]));
            }
            if childless(m0, t2) {
                memory.lemma_is_memory();
                old(memory).lemma_is_memory();
                assert(memory@[t2] =~= cleared(m0[t2]));
                assert(memory@ =~= m0.insert(t2, cleared(m0[t2])));
            }
        }
        Ok(())
    }

    /// The level-1 entry for `virtual_address`, if every entry above it is
    /// present; the entry of a large page where the walk meets one.
    fn get_page_table_entry(&self, memory: &PhysicalMemory, virtual_address: VirtualAddress) -> (r:
        Option<PageTableEntry>)
        ensures
            match r {
                Some(e) => lookup_p4(memory@, frame_of(self.root()), virtual_address.value())
                    == Some(physical_frame(e.value())),
                None => lookup_p4(memory@, frame_of(self.root()), virtual_address.value())
                    is None,
            },
    {
        let p4_table_entry = memory.read_entry(self.p4, virtual_address.p4_index());
        if !p4_table_entry.present() {
            return None;
        }
        let p3_table_entry = memory.read_entry(
            p4_table_entry.address(),
            virtual_address.p3_index(),
        );
        if !p3_table_entry.present() {
            return None;
        }
        if p3_table_entry.page_size() {
            return Some(p3_table_entry);
        }
        let p2_table_entry = memory.read_entry(
            p3_table_entry.address(),
            virtual_address.p2_index(),
        );
        if !p2_table_entry.present() {
            return None;
        }
        if p2_table_entry.page_size() {
            return Some(p2_table_entry);
        }
        Some(memory.read_entry(p2_table_entry.address(), virtual_address.p1_index()))
    }

    /// The frame that the page of `virtual_address` is mapped to: none
    /// where an entry above level 1 is not present; the frame of a large
    /// page where the walk meets one; else the frame in the level-1 entry.
    pub fn get_page_physical_address(
        &self,
        memory: &PhysicalMemory,
        virtual_address: VirtualAddress,
    ) -> (r: Option<PhysicalAddress>)
        ensures
            match r {
                Some(p) => lookup_p4(memory@, frame_of(self.root()), virtual_address.value())
                    == Some(p.value()),
                None => lookup_p4(memory@, frame_of(self.root()), virtual_address.value())
                    is None,
            },
    {
        match self.get_page_table_entry(memory, virtual_address) {
            Some(page_table_entry) => Some(page_table_entry.address()),
            None => None,
        }
    }
}

/// The frame of the table that the entry `e` of a table of `level` points
/// at: for the root table, level 4, that of every present entry; for a
/// table of level 3 or 2 that of every present entry that is no large
/// page; none for a table of level 1, whose entries point at pages.
pub open spec fn table_under(e: u64, level: int) -> Option<int> {
    if level == 4 {
        if has_flags(e, 0x1) {
            Some(child_of(e))
        } else {
            None
        }
    } else if level == 3 || level == 2 {
        table_below(e)
    } else {
        None
    }
}

/// The frames of the tables that the first `n` entries of `table` point
/// at, in the order of the entries.
pub open spec fn tables_under(table: Seq<u64>, level: int, n: int) -> Seq<int>
    decreases n,
{
    if n <= 0 {
        Seq::empty()
    } else {
        match table_under(table[n - 1], level) {
            Some(frame) => tables_under(table, level, n - 1).push(frame),
            None => tables_under(table, level, n - 1),
        }
    }
}

/// The addresses of the tables that the entries of `table`, a table of
/// `level`, point at, in the order of the entries: what a walk over a
/// hierarchy reads next.
pub fn child_tables(table: &PageTable, level: u8) -> (r: Vec<PhysicalAddress>)
    ensures
        r@.len() == tables_under(table@, level as int, 512).len(),
        forall|i: int|
            0 <= i < r@.len() ==> frame_of((#[trigger] r@[i]).value()) == tables_under(
                table@,
                level as int,
                512,
            )[i] && r@[i].is_frame(),
{
    let mut found: Vec<PhysicalAddress> = Vec::new();
    let mut index: usize = 0;
    while index < 512
        invariant
            index <= 512,
            found@.len() == tables_under(table@, level as int, index as int).len(),
            forall|i: int|
                0 <= i < found@.len() ==> frame_of((#[trigger] found@[i]).value()) == tables_under(
                    table@,
                    level as int,
                    index as int,
                )[i] && found@[i].is_frame(),
        decreases 512 - index,
    {
        let entry = table.get_entry(index);
        let points_at_table = if level == 4 {
            entry.present()
        } else if level == 3 || level == 2 {
            entry.present() && !entry.page_size()
        } else {
            false
        };
        if points_at_table {
            found.push(entry.address());
        }
        index += 1;
    }
    found
}

} // verus!
