//! The page tables as a tree: every table has one place in the hierarchy,
//! and mapping a page keeps it so.
use crate::memory::address::{physical_frame, table_index};
use crate::memory::paging::page_table::{has_flags, lemma_linked_to, linked_to, unused_table};
use crate::memory::paging::page_table_manager::{
    child_of, created_p1, created_p2, created_p3, lemma_frame_numbers, lemma_map_then_lookup,
    below_apart, lookup_p4, mapped_p1, mapped_p4, missing_p4, not_below, not_below_p3,
    not_below_p4, path_separate, subtree_p2, subtree_p3, subtree_p4, table_below, with_entry,
    FreshTables,
};
use crate::memory::paging::physical_memory::{frame_of, is_memory};
use vstd::prelude::*;

verus! {

/// `i` is an index into a page table.
pub open spec fn is_index(i: int) -> bool {
    0 <= i < 512
}

/// Entry `i4` of the root table is present.
pub open spec fn has3(m: Map<int, Seq<u64>>, root: int, i4: int) -> bool {
    has_flags(m[root][i4], 0x1)
}

/// The level-3 table that entry `i4` of the root table points at.
pub open spec fn t3_at(m: Map<int, Seq<u64>>, root: int, i4: int) -> int {
    child_of(m[root][i4])
}

/// Entry `i3` of the level-3 table below entry `i4` of the root table.
pub open spec fn entry3(m: Map<int, Seq<u64>>, root: int, i4: int, i3: int) -> u64 {
    m[t3_at(m, root, i4)][i3]
}

/// That entry and the entry above it are present.
pub open spec fn has2(m: Map<int, Seq<u64>>, root: int, i4: int, i3: int) -> bool {
    has3(m, root, i4) && has_flags(entry3(m, root, i4, i3), 0x1)
}

/// The level-2 table that it points at.
pub open spec fn t2_at(m: Map<int, Seq<u64>>, root: int, i4: int, i3: int) -> int {
    child_of(entry3(m, root, i4, i3))
}

/// Entry `i2` of the level-2 table below entries `i4` and `i3`.
pub open spec fn entry2(m: Map<int, Seq<u64>>, root: int, i4: int, i3: int, i2: int) -> u64 {
    m[t2_at(m, root, i4, i3)][i2]
}

/// That entry and the entries above it are present.
pub open spec fn has1(m: Map<int, Seq<u64>>, root: int, i4: int, i3: int, i2: int) -> bool {
    has2(m, root, i4, i3) && has_flags(entry2(m, root, i4, i3, i2), 0x1)
}

/// The level-1 table that it points at.
pub open spec fn t1_at(m: Map<int, Seq<u64>>, root: int, i4: int, i3: int, i2: int) -> int {
    child_of(entry2(m, root, i4, i3, i2))
}

/// Every table of the hierarchy is in `used` and is not the root.
pub open spec fn tables_used(m: Map<int, Seq<u64>>, root: int, used: Set<int>) -> bool {
    &&& used.contains(root)
    &&& forall|i4: int|
        is_index(i4) && #[trigger] has3(m, root, i4) ==> used.contains(t3_at(m, root, i4))
            && t3_at(m, root, i4) != root
    &&& forall|i4: int, i3: int|
        is_index(i4) && is_index(i3) && #[trigger] has2(m, root, i4, i3) ==> used.contains(
            t2_at(m, root, i4, i3),
        ) && t2_at(m, root, i4, i3) != root
    &&& forall|i4: int, i3: int, i2: int|
        is_index(i4) && is_index(i3) && is_index(i2) && #[trigger] has1(m, root, i4, i3, i2)
            ==> used.contains(t1_at(m, root, i4, i3, i2)) && t1_at(m, root, i4, i3, i2) != root
}

/// No entry of a level-3 or level-2 table of the hierarchy has the
/// large-page flag.
pub open spec fn tables_plain(m: Map<int, Seq<u64>>, root: int) -> bool {
    &&& forall|i4: int, i3: int|
        is_index(i4) && is_index(i3) && has3(m, root, i4) ==> !has_flags(
            #[trigger] entry3(m, root, i4, i3),
            0x80,
        )
    &&& forall|i4: int, i3: int, i2: int|
        is_index(i4) && is_index(i3) && is_index(i2) && has2(m, root, i4, i3) ==> !has_flags(
            #[trigger] entry2(m, root, i4, i3, i2),
            0x80,
        )
}

/// No table of the hierarchy has two places in it.
pub open spec fn tables_apart(m: Map<int, Seq<u64>>, root: int) -> bool {
    &&& forall|i4: int, j4: int|
        is_index(i4) && is_index(j4) && #[trigger] has3(m, root, i4) && #[trigger] has3(
            m,
            root,
            j4,
        ) && t3_at(m, root, i4) == t3_at(m, root, j4) ==> i4 == j4
    &&& forall|i4: int, j4: int, j3: int|
        is_index(i4) && is_index(j4) && is_index(j3) && #[trigger] has3(m, root, i4)
            && #[trigger] has2(m, root, j4, j3) ==> t3_at(m, root, i4) != t2_at(m, root, j4, j3)
    &&& forall|i4: int, j4: int, j3: int, j2: int|
        is_index(i4) && is_index(j4) && is_index(j3) && is_index(j2) && #[trigger] has3(
            m,
            root,
            i4,
        ) && #[trigger] has1(m, root, j4, j3, j2) ==> t3_at(m, root, i4) != t1_at(
            m,
            root,
            j4,
            j3,
            j2,
        )
    &&& forall|i4: int, i3: int, j4: int, j3: int|
        is_index(i4) && is_index(i3) && is_index(j4) && is_index(j3) && #[trigger] has2(
            m,
            root,
            i4,
            i3,
        ) && #[trigger] has2(m, root, j4, j3) && t2_at(m, root, i4, i3) == t2_at(m, root, j4, j3)
            ==> i4 == j4 && i3 == j3
    &&& forall|i4: int, i3: int, j4: int, j3: int, j2: int|
        is_index(i4) && is_index(i3) && is_index(j4) && is_index(j3) && is_index(j2)
            && #[trigger] has2(m, root, i4, i3) && #[trigger] has1(m, root, j4, j3, j2) ==> t2_at(
            m,
            root,
            i4,
            i3,
        ) != t1_at(m, root, j4, j3, j2)
    &&& forall|i4: int, i3: int, i2: int, j4: int, j3: int, j2: int|
        is_index(i4) && is_index(i3) && is_index(i2) && is_index(j4) && is_index(j3) && is_index(
            j2,
        ) && #[trigger] has1(m, root, i4, i3, i2) && #[trigger] has1(m, root, j4, j3, j2)
            && t1_at(m, root, i4, i3, i2) == t1_at(m, root, j4, j3, j2) ==> i4 == j4 && i3 == j3
            && i2 == j2
}

/// The page tables rooted at `root` form a tree of tables that are all in
/// `used`: a hierarchy that only this manager has built.
pub open spec fn tree_ok(m: Map<int, Seq<u64>>, root: int, used: Set<int>) -> bool {
    &&& is_memory(m)
    &&& tables_used(m, root, used)
    &&& tables_plain(m, root)
    &&& tables_apart(m, root)
}

/// In a tree the tables on the way of every address are separate.
pub proof fn lemma_tree_path(m: Map<int, Seq<u64>>, root: int, used: Set<int>, v: u64)
    requires
        tree_ok(m, root, used),
    ensures
        path_separate(m, root, v, used),
{
    let a4 = table_index(v, 4);
    let a3 = table_index(v, 3);
    let a2 = table_index(v, 2);
    if has3(m, root, a4) {
        let _ = entry3(m, root, a4, a3);
        if has2(m, root, a4, a3) {
            let _ = entry2(m, root, a4, a3, a2);
            if has1(m, root, a4, a3, a2) {
            }
        }
    }
}

/// A root table without entries is a tree.
pub proof fn lemma_new_tree(m: Map<int, Seq<u64>>, root: int, used: Set<int>)
    requires
        is_memory(m),
        m[root] == unused_table(),
        used.contains(root),
    ensures
        tree_ok(m, root, used),
{
    lemma_linked_to(0, 0);
    assert forall|i4: int| is_index(i4) implies !has3(m, root, i4) by {
        assert(m[root][i4] == 0);
    }
}

/// The table of level 3 on the way of `v` once `v` is mapped.
pub open spec fn way3(m: Map<int, Seq<u64>>, root: int, v: u64, fresh: FreshTables) -> int {
    if missing_p4(m, root, v) == 3 {
        frame_of(fresh.p3)
    } else {
        t3_at(m, root, table_index(v, 4))
    }
}

/// The table of level 2 on the way of `v` once `v` is mapped.
pub open spec fn way2(m: Map<int, Seq<u64>>, root: int, v: u64, fresh: FreshTables) -> int {
    if missing_p4(m, root, v) >= 2 {
        frame_of(fresh.p2)
    } else {
        t2_at(m, root, table_index(v, 4), table_index(v, 3))
    }
}

/// The table of level 1 on the way of `v` once `v` is mapped.
pub open spec fn way1(m: Map<int, Seq<u64>>, root: int, v: u64, fresh: FreshTables) -> int {
    if missing_p4(m, root, v) >= 1 {
        frame_of(fresh.p1)
    } else {
        t1_at(m, root, table_index(v, 4), table_index(v, 3), table_index(v, 2))
    }
}

/// Setting an entry of a table, or clearing a table, leaves a memory a
/// memory.
pub proof fn lemma_memory_kept(m: Map<int, Seq<u64>>, t: int, i: int, e: u64)
    requires
        is_memory(m),
        0 <= i < 512,
    ensures
        is_memory(with_entry(m, t, i, e)),
        is_memory(m.insert(t, unused_table())),
{
    let w = with_entry(m, t, i, e);
    assert forall|f: int| (#[trigger] w[f]).len() == 512 by {
        assert(m[f].len() == 512);
        assert(m[t].len() == 512);
    }
    assert forall|f: int| #[trigger] w.dom().contains(f) by {
        assert(m.dom().contains(f));
    }
    let c = m.insert(t, unused_table());
    assert forall|f: int| (#[trigger] c[f]).len() == 512 by {
        assert(m[f].len() == 512);
    }
    assert forall|f: int| #[trigger] c.dom().contains(f) by {
        assert(m.dom().contains(f));
    }
}

/// What mapping `v` to `p` leaves in each table: in the root and the three
/// tables on the way of `v` one entry is set, a table that was created
/// holds nothing else, and every other table is as it was.
pub proof fn lemma_mapped_tables(
    m: Map<int, Seq<u64>>,
    root: int,
    v: u64,
    p: u64,
    fresh: FreshTables,
    used: Set<int>,
)
    requires
        is_memory(m),
        path_separate(m, root, v, used),
        fresh.fresh(missing_p4(m, root, v), used),
    ensures
        is_memory(mapped_p4(m, root, v, p, fresh)),
        way3(m, root, v, fresh) != root,
        way2(m, root, v, fresh) != root,
        way1(m, root, v, fresh) != root,
        way3(m, root, v, fresh) != way2(m, root, v, fresh),
        way3(m, root, v, fresh) != way1(m, root, v, fresh),
        way2(m, root, v, fresh) != way1(m, root, v, fresh),
        mapped_p4(m, root, v, p, fresh)[root] == if missing_p4(m, root, v) == 3 {
            m[root].update(table_index(v, 4), linked_to(0, fresh.p3))
        } else {
            m[root]
        },
        mapped_p4(m, root, v, p, fresh)[way3(m, root, v, fresh)] == if missing_p4(m, root, v)
            == 3 {
            unused_table().update(table_index(v, 3), linked_to(0, fresh.p2))
        } else if missing_p4(m, root, v) == 2 {
            m[way3(m, root, v, fresh)].update(
                table_index(v, 3),
                linked_to(m[way3(m, root, v, fresh)][table_index(v, 3)], fresh.p2),
            )
        } else {
            m[way3(m, root, v, fresh)]
        },
        mapped_p4(m, root, v, p, fresh)[way2(m, root, v, fresh)] == if missing_p4(m, root, v)
            >= 2 {
            unused_table().update(table_index(v, 2), linked_to(0, fresh.p1))
        } else if missing_p4(m, root, v) == 1 {
            m[way2(m, root, v, fresh)].update(
                table_index(v, 2),
                linked_to(m[way2(m, root, v, fresh)][table_index(v, 2)], fresh.p1),
            )
        } else {
            m[way2(m, root, v, fresh)]
        },
        mapped_p4(m, root, v, p, fresh)[way1(m, root, v, fresh)] == if missing_p4(m, root, v)
            >= 1 {
            unused_table().update(table_index(v, 1), linked_to(0, p))
        } else {
            m[way1(m, root, v, fresh)].update(
                table_index(v, 1),
                linked_to(m[way1(m, root, v, fresh)][table_index(v, 1)], p),
            )
        },
        forall|f: int|
            f != root && f != way3(m, root, v, fresh) && f != way2(m, root, v, fresh) && f != way1(
                m,
                root,
                v,
                fresh,
            ) ==> #[trigger] mapped_p4(m, root, v, p, fresh)[f] == m[f],
{
    let i4 = table_index(v, 4);
    let i3 = table_index(v, 3);
    let i2 = table_index(v, 2);
    let i1 = table_index(v, 1);
    let e4 = m[root][i4];
    let n1 = frame_of(fresh.p1);
    let n2 = frame_of(fresh.p2);
    let n3 = frame_of(fresh.p3);
    let after = mapped_p4(m, root, v, p, fresh);
    lemma_linked_to(0, fresh.p3);
    lemma_linked_to(0, fresh.p2);
    lemma_linked_to(0, fresh.p1);
    lemma_linked_to(0, p);
    if has_flags(e4, 0x1) {
        let t3 = child_of(e4);
        let e3 = m[t3][i3];
        if has_flags(e3, 0x1) {
            let t2 = child_of(e3);
            let e2 = m[t2][i2];
            if has_flags(e2, 0x1) {
                let t1 = child_of(e2);
                assert(after == mapped_p1(m, t1, v, p));
                lemma_memory_kept(m, t1, i1, linked_to(m[t1][i1], p));
            } else {
                lemma_frame_numbers(fresh.p1, fresh.p1);
                let m0 = m.insert(n1, unused_table());
                lemma_memory_kept(m, n1, i1, 0);
                let m1 = created_p1(m, v, p, fresh);
                lemma_memory_kept(m0, n1, i1, linked_to(m0[n1][i1], p));
                assert(after == with_entry(m1, t2, i2, linked_to(e2, fresh.p1)));
                lemma_memory_kept(m1, t2, i2, linked_to(e2, fresh.p1));
                assert(after[n1] == m1[n1]);
                assert(after[t2] == m[t2].update(i2, linked_to(e2, fresh.p1)));
            }
        } else {
            lemma_frame_numbers(fresh.p1, fresh.p2);
            let m0 = m.insert(n2, unused_table());
            lemma_memory_kept(m, n2, i1, 0);
            let m0a = m0.insert(n1, unused_table());
            lemma_memory_kept(m0, n1, i1, 0);
            let m1 = created_p1(m0, v, p, fresh);
            lemma_memory_kept(m0a, n1, i1, linked_to(m0a[n1][i1], p));
            let m2 = with_entry(m1, n2, i2, linked_to(0, fresh.p1));
            lemma_memory_kept(m1, n2, i2, linked_to(0, fresh.p1));
            assert(created_p2(m, v, p, fresh) == m2);
            assert(after == with_entry(m2, t3, i3, linked_to(e3, fresh.p2)));
            lemma_memory_kept(m2, t3, i3, linked_to(e3, fresh.p2));
            assert(after[t3] == m[t3].update(i3, linked_to(e3, fresh.p2)));
            assert(after[n2] == m2[n2]);
            assert(after[n1] == m1[n1]);
        }
    } else {
        lemma_frame_numbers(fresh.p1, fresh.p2);
        lemma_frame_numbers(fresh.p1, fresh.p3);
        lemma_frame_numbers(fresh.p2, fresh.p3);
        let m00 = m.insert(n3, unused_table());
        lemma_memory_kept(m, n3, i1, 0);
        let m0 = m00.insert(n2, unused_table());
        lemma_memory_kept(m00, n2, i1, 0);
        let m0a = m0.insert(n1, unused_table());
        lemma_memory_kept(m0, n1, i1, 0);
        let m1 = created_p1(m0, v, p, fresh);
        lemma_memory_kept(m0a, n1, i1, linked_to(m0a[n1][i1], p));
        let m2 = with_entry(m1, n2, i2, linked_to(0, fresh.p1));
        lemma_memory_kept(m1, n2, i2, linked_to(0, fresh.p1));
        assert(created_p2(m00, v, p, fresh) == m2);
        let m3 = with_entry(m2, n3, i3, linked_to(0, fresh.p2));
        lemma_memory_kept(m2, n3, i3, linked_to(0, fresh.p2));
        assert(created_p3(m, v, p, fresh) == m3);
        assert(after == with_entry(m3, root, i4, linked_to(0, fresh.p3)));
        lemma_memory_kept(m3, root, i4, linked_to(0, fresh.p3));
        assert(after[root] == m[root].update(i4, linked_to(0, fresh.p3)));
        assert(after[n3] == m3[n3]);
        assert(after[n2] == m2[n2]);
        assert(after[n1] == m1[n1]);
    }
}

/// The frames that mapping `v` takes for new tables are fresh, and the
/// tables were a tree before.
pub open spec fn can_map(
    m: Map<int, Seq<u64>>,
    root: int,
    v: u64,
    fresh: FreshTables,
    used: Set<int>,
) -> bool {
    &&& tree_ok(m, root, used)
    &&& fresh.fresh(missing_p4(m, root, v), used)
}

/// The tables on the way of `v` once it is mapped are the old tables on
/// its way, where there were such, and fresh frames, where there were not.
proof fn lemma_ways(m: Map<int, Seq<u64>>, root: int, v: u64, fresh: FreshTables, used: Set<int>)
    requires
        can_map(m, root, v, fresh, used),
    ensures
        missing_p4(m, root, v) == 3 <==> !has3(m, root, table_index(v, 4)),
        missing_p4(m, root, v) >= 2 <==> !has2(m, root, table_index(v, 4), table_index(v, 3)),
        missing_p4(m, root, v) >= 1 <==> !has1(
            m,
            root,
            table_index(v, 4),
            table_index(v, 3),
            table_index(v, 2),
        ),
        0 <= missing_p4(m, root, v) <= 3,
        missing_p4(m, root, v) == 3 ==> !used.contains(way3(m, root, v, fresh)),
        missing_p4(m, root, v) >= 2 ==> !used.contains(way2(m, root, v, fresh)),
        missing_p4(m, root, v) >= 1 ==> !used.contains(way1(m, root, v, fresh)),
        path_separate(m, root, v, used),
{
    lemma_tree_path(m, root, used, v);
}

/// The level-3 tables once `v` is mapped.
proof fn lemma_mapped_level3(
    m: Map<int, Seq<u64>>,
    root: int,
    v: u64,
    p: u64,
    fresh: FreshTables,
    used: Set<int>,
    j4: int,
)
    requires
        can_map(m, root, v, fresh, used),
        is_index(j4),
    ensures
        has3(mapped_p4(m, root, v, p, fresh), root, j4) == (has3(m, root, j4) || j4
            == table_index(v, 4)),
        has3(mapped_p4(m, root, v, p, fresh), root, j4) ==> t3_at(
            mapped_p4(m, root, v, p, fresh),
            root,
            j4,
        ) == if j4 == table_index(v, 4) {
            way3(m, root, v, fresh)
        } else {
            t3_at(m, root, j4)
        },
        has3(mapped_p4(m, root, v, p, fresh), root, j4) && j4 != table_index(v, 4) ==> mapped_p4(
            m,
            root,
            v,
            p,
            fresh,
        )[t3_at(m, root, j4)] == m[t3_at(m, root, j4)],
{
    let a4 = table_index(v, 4);
    let a3 = table_index(v, 3);
    let a2 = table_index(v, 2);
    lemma_ways(m, root, v, fresh, used);
    lemma_mapped_tables(m, root, v, p, fresh, used);
    lemma_linked_to(0, fresh.p3);
    let after = mapped_p4(m, root, v, p, fresh);
    if j4 != a4 && has3(m, root, j4) {
        let t3 = t3_at(m, root, j4);
        assert(used.contains(t3) && t3 != root);
        if has3(m, root, a4) {
            assert(t3 != t3_at(m, root, a4));
            if has2(m, root, a4, a3) {
                assert(t3 != t2_at(m, root, a4, a3));
                if has1(m, root, a4, a3, a2) {
                    assert(t3 != t1_at(m, root, a4, a3, a2));
                }
            }
        }
        assert(after[t3] == m[t3]);
    }
}

/// The level-2 tables once `v` is mapped.
proof fn lemma_mapped_level2(
    m: Map<int, Seq<u64>>,
    root: int,
    v: u64,
    p: u64,
    fresh: FreshTables,
    used: Set<int>,
    j4: int,
    j3: int,
)
    requires
        can_map(m, root, v, fresh, used),
        is_index(j4),
        is_index(j3),
    ensures
        has2(mapped_p4(m, root, v, p, fresh), root, j4, j3) == (has2(m, root, j4, j3) || (j4
            == table_index(v, 4) && j3 == table_index(v, 3))),
        has2(mapped_p4(m, root, v, p, fresh), root, j4, j3) ==> t2_at(
            mapped_p4(m, root, v, p, fresh),
            root,
            j4,
            j3,
        ) == if j4 == table_index(v, 4) && j3 == table_index(v, 3) {
            way2(m, root, v, fresh)
        } else {
            t2_at(m, root, j4, j3)
        },
        has2(mapped_p4(m, root, v, p, fresh), root, j4, j3) && !(j4 == table_index(v, 4) && j3
            == table_index(v, 3)) ==> mapped_p4(m, root, v, p, fresh)[t2_at(m, root, j4, j3)]
            == m[t2_at(m, root, j4, j3)],
        has3(mapped_p4(m, root, v, p, fresh), root, j4) ==> !has_flags(
            entry3(mapped_p4(m, root, v, p, fresh), root, j4, j3),
            0x80,
        ),
{
    let a4 = table_index(v, 4);
    let a3 = table_index(v, 3);
    let a2 = table_index(v, 2);
    lemma_ways(m, root, v, fresh, used);
    lemma_mapped_tables(m, root, v, p, fresh, used);
    lemma_mapped_level3(m, root, v, p, fresh, used, j4);
    lemma_linked_to(0, fresh.p2);
    let after = mapped_p4(m, root, v, p, fresh);
    let old3 = entry3(m, root, j4, j3);
    let path3 = entry3(m, root, a4, a3);
    lemma_linked_to(path3, fresh.p2);
    if has3(m, root, j4) {
        assert(!has_flags(old3, 0x80));
    }
    if has3(m, root, a4) {
        assert(!has_flags(path3, 0x80));
    }
    if has2(after, root, j4, j3) && !(j4 == a4 && j3 == a3) {
        assert(has2(m, root, j4, j3));
        let t2 = t2_at(m, root, j4, j3);
        assert(used.contains(t2) && t2 != root);
        if has3(m, root, a4) {
            assert(t2 != t3_at(m, root, a4));
            if has2(m, root, a4, a3) {
                assert(t2 != t2_at(m, root, a4, a3));
                if has1(m, root, a4, a3, a2) {
                    assert(t2 != t1_at(m, root, a4, a3, a2));
                }
            }
        }
        assert(after[t2] == m[t2]);
    }
}

/// The level-1 tables once `v` is mapped.
proof fn lemma_mapped_level1(
    m: Map<int, Seq<u64>>,
    root: int,
    v: u64,
    p: u64,
    fresh: FreshTables,
    used: Set<int>,
    j4: int,
    j3: int,
    j2: int,
)
    requires
        can_map(m, root, v, fresh, used),
        is_index(j4),
        is_index(j3),
        is_index(j2),
    ensures
        has1(mapped_p4(m, root, v, p, fresh), root, j4, j3, j2) == (has1(m, root, j4, j3, j2) || (
        j4 == table_index(v, 4) && j3 == table_index(v, 3) && j2 == table_index(v, 2))),
        has1(mapped_p4(m, root, v, p, fresh), root, j4, j3, j2) ==> t1_at(
            mapped_p4(m, root, v, p, fresh),
            root,
            j4,
            j3,
            j2,
        ) == if j4 == table_index(v, 4) && j3 == table_index(v, 3) && j2 == table_index(v, 2) {
            way1(m, root, v, fresh)
        } else {
            t1_at(m, root, j4, j3, j2)
        },
        has1(mapped_p4(m, root, v, p, fresh), root, j4, j3, j2) && !(j4 == table_index(v, 4) && j3
            == table_index(v, 3) && j2 == table_index(v, 2)) ==> mapped_p4(
            m,
            root,
            v,
            p,
            fresh,
        )[t1_at(m, root, j4, j3, j2)] == m[t1_at(m, root, j4, j3, j2)],
        has2(mapped_p4(m, root, v, p, fresh), root, j4, j3) ==> !has_flags(
            entry2(mapped_p4(m, root, v, p, fresh), root, j4, j3, j2),
            0x80,
        ),
{
    let a4 = table_index(v, 4);
    let a3 = table_index(v, 3);
    let a2 = table_index(v, 2);
    lemma_ways(m, root, v, fresh, used);
    lemma_mapped_tables(m, root, v, p, fresh, used);
    lemma_mapped_level2(m, root, v, p, fresh, used, j4, j3);
    lemma_linked_to(0, fresh.p1);
    let after = mapped_p4(m, root, v, p, fresh);
    let old2 = entry2(m, root, j4, j3, j2);
    let path2 = entry2(m, root, a4, a3, a2);
    lemma_linked_to(path2, fresh.p1);
    if has2(m, root, j4, j3) {
        assert(!has_flags(old2, 0x80));
    }
    if has2(m, root, a4, a3) {
        assert(!has_flags(path2, 0x80));
    }
    if has1(after, root, j4, j3, j2) && !(j4 == a4 && j3 == a3 && j2 == a2) {
        assert(has1(m, root, j4, j3, j2));
        let t1 = t1_at(m, root, j4, j3, j2);
        assert(used.contains(t1) && t1 != root);
        if has3(m, root, a4) {
            assert(t3_at(m, root, a4) != t1);
            if has2(m, root, a4, a3) {
                assert(t2_at(m, root, a4, a3) != t1);
                if has1(m, root, a4, a3, a2) {
                    assert(t1 != t1_at(m, root, a4, a3, a2));
                }
            }
        }
        assert(after[t1] == m[t1]);
    }
}

/// Mapping a page keeps every table of the hierarchy in use.
proof fn lemma_used_kept(
    m: Map<int, Seq<u64>>,
    root: int,
    v: u64,
    p: u64,
    fresh: FreshTables,
    used: Set<int>,
)
    requires
        can_map(m, root, v, fresh, used),
    ensures
        tables_used(
            mapped_p4(m, root, v, p, fresh),
            root,
            used.union(fresh.frames(missing_p4(m, root, v))),
        ),
{
    let after = mapped_p4(m, root, v, p, fresh);
    let more = used.union(fresh.frames(missing_p4(m, root, v)));
    lemma_ways(m, root, v, fresh, used);
    lemma_mapped_tables(m, root, v, p, fresh, used);
    assert forall|i4: int| is_index(i4) && #[trigger] has3(after, root, i4) implies more.contains(
        t3_at(after, root, i4),
    ) && t3_at(after, root, i4) != root by {
        lemma_mapped_level3(m, root, v, p, fresh, used, i4);
        if has3(m, root, i4) {
        }
    }
    assert forall|i4: int, i3: int|
        is_index(i4) && is_index(i3) && #[trigger] has2(after, root, i4, i3) implies more.contains(
        t2_at(after, root, i4, i3),
    ) && t2_at(after, root, i4, i3) != root by {
        lemma_mapped_level2(m, root, v, p, fresh, used, i4, i3);
        if has2(m, root, i4, i3) {
        }
    }
    assert forall|i4: int, i3: int, i2: int|
        is_index(i4) && is_index(i3) && is_index(i2) && #[trigger] has1(
            after,
            root,
            i4,
            i3,
            i2,
        ) implies more.contains(t1_at(after, root, i4, i3, i2)) && t1_at(after, root, i4, i3, i2)
        != root by {
        lemma_mapped_level1(m, root, v, p, fresh, used, i4, i3, i2);
        if has1(m, root, i4, i3, i2) {
        }
    }
}

/// Mapping a page sets no large-page flag.
proof fn lemma_plain_kept(
    m: Map<int, Seq<u64>>,
    root: int,
    v: u64,
    p: u64,
    fresh: FreshTables,
    used: Set<int>,
)
    requires
        can_map(m, root, v, fresh, used),
    ensures
        tables_plain(mapped_p4(m, root, v, p, fresh), root),
{
    let after = mapped_p4(m, root, v, p, fresh);
    assert forall|i4: int, i3: int|
        is_index(i4) && is_index(i3) && has3(after, root, i4) implies !has_flags(
        #[trigger] entry3(after, root, i4, i3),
        0x80,
    ) by {
        lemma_mapped_level2(m, root, v, p, fresh, used, i4, i3);
    }
    assert forall|i4: int, i3: int, i2: int|
        is_index(i4) && is_index(i3) && is_index(i2) && has2(after, root, i4, i3) implies !has_flags(
        #[trigger] entry2(after, root, i4, i3, i2),
        0x80,
    ) by {
        lemma_mapped_level1(m, root, v, p, fresh, used, i4, i3, i2);
    }
}

/// Mapping a page gives no table a second place.
proof fn lemma_apart_kept(
    m: Map<int, Seq<u64>>,
    root: int,
    v: u64,
    p: u64,
    fresh: FreshTables,
    used: Set<int>,
)
    requires
        can_map(m, root, v, fresh, used),
    ensures
        tables_apart(mapped_p4(m, root, v, p, fresh), root),
{
    let after = mapped_p4(m, root, v, p, fresh);
    lemma_ways(m, root, v, fresh, used);
    lemma_mapped_tables(m, root, v, p, fresh, used);
    assert forall|i4: int, j4: int|
        is_index(i4) && is_index(j4) && #[trigger] has3(after, root, i4) && #[trigger] has3(
            after,
            root,
            j4,
        ) && t3_at(after, root, i4) == t3_at(after, root, j4) implies i4 == j4 by {
        lemma_mapped_level3(m, root, v, p, fresh, used, i4);
        lemma_mapped_level3(m, root, v, p, fresh, used, j4);
        if has3(m, root, i4) && has3(m, root, j4) {
        }
    }
    assert forall|i4: int, j4: int, j3: int|
        is_index(i4) && is_index(j4) && is_index(j3) && #[trigger] has3(after, root, i4)
            && #[trigger] has2(after, root, j4, j3) implies t3_at(after, root, i4) != t2_at(
        after,
        root,
        j4,
        j3,
    ) by {
        lemma_mapped_level3(m, root, v, p, fresh, used, i4);
        lemma_mapped_level2(m, root, v, p, fresh, used, j4, j3);
        if has3(m, root, i4) && has2(m, root, j4, j3) {
        }
    }
    assert forall|i4: int, j4: int, j3: int, j2: int|
        is_index(i4) && is_index(j4) && is_index(j3) && is_index(j2) && #[trigger] has3(
            after,
            root,
            i4,
        ) && #[trigger] has1(after, root, j4, j3, j2) implies t3_at(after, root, i4) != t1_at(
        after,
        root,
        j4,
        j3,
        j2,
    ) by {
        lemma_mapped_level3(m, root, v, p, fresh, used, i4);
        lemma_mapped_level1(m, root, v, p, fresh, used, j4, j3, j2);
        if has3(m, root, i4) && has1(m, root, j4, j3, j2) {
        }
    }
    assert forall|i4: int, i3: int, j4: int, j3: int|
        is_index(i4) && is_index(i3) && is_index(j4) && is_index(j3) && #[trigger] has2(
            after,
            root,
            i4,
            i3,
        ) && #[trigger] has2(after, root, j4, j3) && t2_at(after, root, i4, i3) == t2_at(
            after,
            root,
            j4,
            j3,
        ) implies i4 == j4 && i3 == j3 by {
        lemma_mapped_level2(m, root, v, p, fresh, used, i4, i3);
        lemma_mapped_level2(m, root, v, p, fresh, used, j4, j3);
        if has2(m, root, i4, i3) && has2(m, root, j4, j3) {
        }
    }
    assert forall|i4: int, i3: int, j4: int, j3: int, j2: int|
        is_index(i4) && is_index(i3) && is_index(j4) && is_index(j3) && is_index(j2)
            && #[trigger] has2(after, root, i4, i3) && #[trigger] has1(
            after,
            root,
            j4,
            j3,
            j2,
        ) implies t2_at(after, root, i4, i3) != t1_at(after, root, j4, j3, j2) by {
        lemma_mapped_level2(m, root, v, p, fresh, used, i4, i3);
        lemma_mapped_level1(m, root, v, p, fresh, used, j4, j3, j2);
        if has2(m, root, i4, i3) && has1(m, root, j4, j3, j2) {
        }
    }
    assert forall|i4: int, i3: int, i2: int, j4: int, j3: int, j2: int|
        is_index(i4) && is_index(i3) && is_index(i2) && is_index(j4) && is_index(j3) && is_index(
            j2,
        ) && #[trigger] has1(after, root, i4, i3, i2) && #[trigger] has1(after, root, j4, j3, j2)
            && t1_at(after, root, i4, i3, i2) == t1_at(
            after,
            root,
            j4,
            j3,
            j2,
        ) implies i4 == j4 && i3 == j3 && i2 == j2 by {
        lemma_mapped_level1(m, root, v, p, fresh, used, i4, i3, i2);
        lemma_mapped_level1(m, root, v, p, fresh, used, j4, j3, j2);
        if has1(m, root, i4, i3, i2) && has1(m, root, j4, j3, j2) {
        }
    }
}

/// Mapping a page keeps the tables a tree: where they were one and the
/// frames taken for new tables are fresh, the tables that mapping leaves
/// are a tree of tables in use.
pub proof fn lemma_tree_kept(
    m: Map<int, Seq<u64>>,
    root: int,
    v: u64,
    p: u64,
    fresh: FreshTables,
    used: Set<int>,
)
    requires
        tree_ok(m, root, used),
        fresh.fresh(missing_p4(m, root, v), used),
    ensures
        tree_ok(
            mapped_p4(m, root, v, p, fresh),
            root,
            used.union(fresh.frames(missing_p4(m, root, v))),
        ),
{
    lemma_ways(m, root, v, fresh, used);
    lemma_mapped_tables(m, root, v, p, fresh, used);
    lemma_used_kept(m, root, v, p, fresh, used);
    lemma_plain_kept(m, root, v, p, fresh, used);
    lemma_apart_kept(m, root, v, p, fresh, used);
}

/// The addresses `a` and `b` lie in the same page as far as the page
/// tables tell pages apart: all four of their table indexes agree.
pub open spec fn same_page(a: u64, b: u64) -> bool {
    &&& table_index(a, 4) == table_index(b, 4)
    &&& table_index(a, 3) == table_index(b, 3)
    &&& table_index(a, 2) == table_index(b, 2)
    &&& table_index(a, 1) == table_index(b, 1)
}

/// Two addresses no more than 2^48 less a page apart lie in the same page
/// only where they lie in the same 4 KiB of memory.
pub proof fn lemma_same_page(a: u64, b: u64)
    requires
        a <= b,
        b - a <= 0xFFFF_FFFF_F000,
    ensures
        same_page(a, b) ==> a / 0x1000 == b / 0x1000,
        0 <= table_index(a, 4) < 512 && 0 <= table_index(a, 3) < 512 && 0 <= table_index(a, 2)
            < 512 && 0 <= table_index(a, 1) < 512,
{
    assert((a / 0x80_0000_0000) % 512 == (b / 0x80_0000_0000) % 512 && (a / 0x4000_0000) % 512 == (
    b / 0x4000_0000) % 512 && (a / 0x20_0000) % 512 == (b / 0x20_0000) % 512 && (a / 0x1000) % 512
        == (b / 0x1000) % 512 ==> a / 0x1000 == b / 0x1000) by (bit_vector)
        requires
            a <= b,
            b - a <= 0xFFFF_FFFF_F000,
    ;
}

/// In a tree, a lookup that finds a frame passes three present entries.
proof fn lemma_lookup_some(m: Map<int, Seq<u64>>, root: int, used: Set<int>, w: u64)
    requires
        tree_ok(m, root, used),
    ensures
        lookup_p4(m, root, w) is Some <==> has1(
            m,
            root,
            table_index(w, 4),
            table_index(w, 3),
            table_index(w, 2),
        ),
        lookup_p4(m, root, w) is Some ==> lookup_p4(m, root, w) == Some(
            physical_frame(
                m[t1_at(m, root, table_index(w, 4), table_index(w, 3), table_index(w, 2))][table_index(
                    w,
                    1,
                )],
            ),
        ),
{
    let b4 = table_index(w, 4);
    let b3 = table_index(w, 3);
    let b2 = table_index(w, 2);
    if has3(m, root, b4) {
        assert(!has_flags(entry3(m, root, b4, b3), 0x80));
        if has2(m, root, b4, b3) {
            assert(!has_flags(entry2(m, root, b4, b3, b2), 0x80));
        }
    }
}

/// Mapping a page leaves the other pages as they were: an address that a
/// lookup in the tree found a frame for, and that lies in another page
/// than the address that is mapped, is found the same frame for.
pub proof fn lemma_lookup_kept(
    m: Map<int, Seq<u64>>,
    root: int,
    v: u64,
    p: u64,
    fresh: FreshTables,
    used: Set<int>,
    w: u64,
)
    requires
        tree_ok(m, root, used),
        fresh.fresh(missing_p4(m, root, v), used),
        lookup_p4(m, root, w) is Some,
        !same_page(w, v),
    ensures
        lookup_p4(mapped_p4(m, root, v, p, fresh), root, w) == lookup_p4(m, root, w),
{
    let after = mapped_p4(m, root, v, p, fresh);
    let more = used.union(fresh.frames(missing_p4(m, root, v)));
    let b4 = table_index(w, 4);
    let b3 = table_index(w, 3);
    let b2 = table_index(w, 2);
    let b1 = table_index(w, 1);
    lemma_tree_kept(m, root, v, p, fresh, used);
    lemma_lookup_some(m, root, used, w);
    lemma_mapped_level1(m, root, v, p, fresh, used, b4, b3, b2);
    lemma_lookup_some(after, root, more, w);
    lemma_ways(m, root, v, fresh, used);
    lemma_mapped_tables(m, root, v, p, fresh, used);
    if b4 == table_index(v, 4) && b3 == table_index(v, 3) && b2 == table_index(v, 2) {
        assert(missing_p4(m, root, v) == 0);
        assert(b1 != table_index(v, 1));
    }
}

/// Map, then look up, in a tree: a lookup of `v` in the tables that
/// mapping `v` to `p` leaves finds the frame of `p`.
pub proof fn lemma_tree_map_then_lookup(
    m: Map<int, Seq<u64>>,
    root: int,
    v: u64,
    p: u64,
    fresh: FreshTables,
    used: Set<int>,
)
    requires
        tree_ok(m, root, used),
        fresh.fresh(missing_p4(m, root, v), used),
    ensures
        lookup_p4(mapped_p4(m, root, v, p, fresh), root, v) == Some(physical_frame(p)),
{
    lemma_tree_path(m, root, used, v);
    lemma_map_then_lookup(m, root, v, p, fresh, used);
}

/// A tree stays a tree, and finds what it found, while none of the tables
/// in use is written and none leaves use.
pub proof fn lemma_tree_untouched(
    m: Map<int, Seq<u64>>,
    k: Map<int, Seq<u64>>,
    root: int,
    used: Set<int>,
    more: Set<int>,
)
    requires
        tree_ok(m, root, used),
        is_memory(k),
        used.subset_of(more),
        forall|f: int| used.contains(f) ==> #[trigger] k[f] == m[f],
    ensures
        tree_ok(k, root, more),
        forall|w: u64| #[trigger] lookup_p4(k, root, w) == lookup_p4(m, root, w),
{
    assert(k[root] == m[root]);
    assert forall|i4: int| is_index(i4) implies #[trigger] has3(k, root, i4) == has3(m, root, i4)
        && t3_at(k, root, i4) == t3_at(m, root, i4) && (has3(m, root, i4) ==> k[t3_at(m, root, i4)]
        == m[t3_at(m, root, i4)]) by {
        if has3(m, root, i4) {
        }
    }
    assert forall|i4: int, i3: int| is_index(i4) && is_index(i3) implies #[trigger] has2(
        k,
        root,
        i4,
        i3,
    ) == has2(m, root, i4, i3) && (has3(m, root, i4) ==> entry3(k, root, i4, i3) == entry3(
        m,
        root,
        i4,
        i3,
    )) && (has2(m, root, i4, i3) ==> k[t2_at(m, root, i4, i3)] == m[t2_at(m, root, i4, i3)]) by {
        assert(has3(k, root, i4) == has3(m, root, i4));
        if has2(m, root, i4, i3) {
        }
    }
    assert forall|i4: int, i3: int, i2: int|
        is_index(i4) && is_index(i3) && is_index(i2) implies #[trigger] has1(k, root, i4, i3, i2)
        == has1(m, root, i4, i3, i2) && (has2(m, root, i4, i3) ==> entry2(k, root, i4, i3, i2)
        == entry2(m, root, i4, i3, i2)) && (has1(m, root, i4, i3, i2) ==> k[t1_at(
        m,
        root,
        i4,
        i3,
        i2,
    )] == m[t1_at(m, root, i4, i3, i2)]) by {
        assert(has2(k, root, i4, i3) == has2(m, root, i4, i3));
        if has1(m, root, i4, i3, i2) {
        }
    }
    assert(tables_used(k, root, more)) by {
        assert forall|i4: int| is_index(i4) && #[trigger] has3(k, root, i4) implies more.contains(
            t3_at(k, root, i4),
        ) && t3_at(k, root, i4) != root by {
            assert(has3(m, root, i4));
        }
        assert forall|i4: int, i3: int|
            is_index(i4) && is_index(i3) && #[trigger] has2(k, root, i4, i3) implies more.contains(
            t2_at(k, root, i4, i3),
        ) && t2_at(k, root, i4, i3) != root by {
            assert(has2(m, root, i4, i3));
            assert(has3(k, root, i4) == has3(m, root, i4));
        }
        assert forall|i4: int, i3: int, i2: int|
            is_index(i4) && is_index(i3) && is_index(i2) && #[trigger] has1(
                k,
                root,
                i4,
                i3,
                i2,
            ) implies more.contains(t1_at(k, root, i4, i3, i2)) && t1_at(k, root, i4, i3, i2)
            != root by {
            assert(has1(m, root, i4, i3, i2));
            assert(has2(k, root, i4, i3) == has2(m, root, i4, i3));
        }
    }
    assert(tables_plain(k, root)) by {
        assert forall|i4: int, i3: int|
            is_index(i4) && is_index(i3) && has3(k, root, i4) implies !has_flags(
            #[trigger] entry3(k, root, i4, i3),
            0x80,
        ) by {
            assert(has2(k, root, i4, i3) == has2(m, root, i4, i3));
            assert(!has_flags(entry3(m, root, i4, i3), 0x80));
        }
        assert forall|i4: int, i3: int, i2: int|
            is_index(i4) && is_index(i3) && is_index(i2) && has2(
                k,
                root,
                i4,
                i3,
            ) implies !has_flags(#[trigger] entry2(k, root, i4, i3, i2), 0x80) by {
            assert(has1(k, root, i4, i3, i2) == has1(m, root, i4, i3, i2));
            assert(!has_flags(entry2(m, root, i4, i3, i2), 0x80));
        }
    }
    assert(tables_apart(k, root)) by {
        assert forall|i4: int, i3: int, i2: int|
            is_index(i4) && is_index(i3) && is_index(i2) implies (#[trigger] has1(
            k,
            root,
            i4,
            i3,
            i2,
        ) ==> has1(m, root, i4, i3, i2) && t1_at(k, root, i4, i3, i2) == t1_at(m, root, i4, i3, i2)
            && has2(m, root, i4, i3)) by {
            assert(has2(k, root, i4, i3) == has2(m, root, i4, i3));
        }
        assert forall|i4: int, i3: int| is_index(i4) && is_index(i3) implies (#[trigger] has2(
            k,
            root,
            i4,
            i3,
        ) ==> has2(m, root, i4, i3) && t2_at(k, root, i4, i3) == t2_at(m, root, i4, i3)) by {
            assert(has3(k, root, i4) == has3(m, root, i4));
        }
    }
    assert forall|w: u64| #[trigger] lookup_p4(k, root, w) == lookup_p4(m, root, w) by {
        let b4 = table_index(w, 4);
        let b3 = table_index(w, 3);
        let b2 = table_index(w, 2);
        lemma_same_page(w, w);
        assert(has3(k, root, b4) == has3(m, root, b4));
        assert(has2(k, root, b4, b3) == has2(m, root, b4, b3));
        assert(has1(k, root, b4, b3, b2) == has1(m, root, b4, b3, b2));
        if has3(m, root, b4) {
            assert(!has_flags(entry3(m, root, b4, b3), 0x80));
            if has2(m, root, b4, b3) {
                assert(!has_flags(entry2(m, root, b4, b3, b2), 0x80));
            }
        }
    }
}

/// `w` lies in none of the `count` pages from `v` on.
pub open spec fn outside_pages(w: u64, v: u64, count: int) -> bool {
    forall|k: int| 0 <= k < count ==> !#[trigger] same_page(w, (v + k * 0x1000) as u64)
}

/// The table in frame `x` has the place that `level` and the indexes give:
/// level 4 is the root; a table of level 3 hangs below entry `a` of the
/// root, one of level 2 below entry `b` of that table, one of level 1 below
/// entry `c` of that.
pub open spec fn sits(m: Map<int, Seq<u64>>, root: int, x: int, level: int, a: int, b: int, c: int) -> bool {
    if level == 4 {
        x == root
    } else if level == 3 {
        is_index(a) && has3(m, root, a) && x == t3_at(m, root, a)
    } else if level == 2 {
        is_index(a) && is_index(b) && has2(m, root, a, b) && x == t2_at(m, root, a, b)
    } else {
        level == 1 && is_index(a) && is_index(b) && is_index(c) && has1(m, root, a, b, c) && x
            == t1_at(m, root, a, b, c)
    }
}

/// In a tree a table has one place only.
pub proof fn lemma_one_place(
    m: Map<int, Seq<u64>>,
    root: int,
    used: Set<int>,
    x: int,
    level: int,
    a: int,
    b: int,
    c: int,
    other: int,
    d: int,
    e: int,
    f: int,
)
    requires
        tree_ok(m, root, used),
        sits(m, root, x, level, a, b, c),
        sits(m, root, x, other, d, e, f),
    ensures
        level == other,
        level <= 3 ==> a == d,
        level <= 2 ==> b == e,
        level <= 1 ==> c == f,
{
}

/// A table that has a place in a tree, but none below the first `n`
/// entries of a level-2 table of the tree, is none of the tables that
/// those entries point at.
pub proof fn lemma_not_below(
    m: Map<int, Seq<u64>>,
    root: int,
    used: Set<int>,
    i4: int,
    i3: int,
    n: int,
    x: int,
    level: int,
    a: int,
    b: int,
    c: int,
)
    requires
        tree_ok(m, root, used),
        is_index(i4),
        is_index(i3),
        has2(m, root, i4, i3),
        0 <= n <= 512,
        sits(m, root, x, level, a, b, c),
        !(level == 1 && a == i4 && b == i3 && c < n),
    ensures
        not_below(m, t2_at(m, root, i4, i3), x, n),
{
    let t2 = t2_at(m, root, i4, i3);
    assert forall|i: int| 0 <= i < n implies table_below(#[trigger] m[t2][i]) != Some(x) by {
        if table_below(m[t2][i]) == Some(x) {
            assert(has1(m, root, i4, i3, i));
            assert(sits(m, root, x, 1, i4, i3, i));
            lemma_one_place(m, root, used, x, level, a, b, c, 1, i4, i3, i);
        }
    }
}

/// A table that has a place in a tree, but none below the first `n`
/// entries of a level-3 table of the tree, is none of the tables below
/// those entries.
pub proof fn lemma_not_below_p3(
    m: Map<int, Seq<u64>>,
    root: int,
    used: Set<int>,
    i4: int,
    n: int,
    x: int,
    level: int,
    a: int,
    b: int,
    c: int,
)
    requires
        tree_ok(m, root, used),
        is_index(i4),
        has3(m, root, i4),
        0 <= n <= 512,
        sits(m, root, x, level, a, b, c),
        !(level <= 2 && a == i4 && b < n),
    ensures
        not_below_p3(m, t3_at(m, root, i4), x, n),
{
    let t3 = t3_at(m, root, i4);
    assert forall|i: int| 0 <= i < n && table_below(#[trigger] m[t3][i]) is Some implies {
        &&& table_below(m[t3][i])->0 != x
        &&& not_below(m, table_below(m[t3][i])->0, x, 512)
    } by {
        assert(has2(m, root, i4, i));
        if table_below(m[t3][i])->0 == x {
            assert(sits(m, root, x, 2, i4, i, 0));
            lemma_one_place(m, root, used, x, level, a, b, c, 2, i4, i, 0);
        }
        lemma_not_below(m, root, used, i4, i, 512, x, level, a, b, c);
    }
}

/// A table that has a place in a tree, but none below the first `n`
/// entries of the root table, is none of the tables below those entries.
pub proof fn lemma_not_below_p4(
    m: Map<int, Seq<u64>>,
    root: int,
    used: Set<int>,
    n: int,
    x: int,
    level: int,
    a: int,
    b: int,
    c: int,
)
    requires
        tree_ok(m, root, used),
        0 <= n <= 512,
        sits(m, root, x, level, a, b, c),
        !(level <= 3 && a < n),
    ensures
        not_below_p4(m, root, x, n),
{
    assert forall|i: int| 0 <= i < n && has_flags(#[trigger] m[root][i], 0x1) implies {
        &&& child_of(m[root][i]) != x
        &&& not_below_p3(m, child_of(m[root][i]), x, 512)
    } by {
        assert(has3(m, root, i));
        if child_of(m[root][i]) == x {
            assert(sits(m, root, x, 3, i, 0, 0));
            lemma_one_place(m, root, used, x, level, a, b, c, 3, i, 0, 0);
        }
        lemma_not_below_p3(m, root, used, i, 512, x, level, a, b, c);
    }
}

/// In a tree, the table below a present entry of the root table and the
/// tables below it are in use and apart.
pub proof fn lemma_subtree(m: Map<int, Seq<u64>>, root: int, used: Set<int>, i4: int)
    requires
        tree_ok(m, root, used),
        is_index(i4),
        has3(m, root, i4),
    ensures
        subtree_p3(m, t3_at(m, root, i4), used),
{
    let t3 = t3_at(m, root, i4);
    assert forall|i: int| 0 <= i < 512 && table_below(#[trigger] m[t3][i]) is Some implies {
        &&& table_below(m[t3][i])->0 != t3
        &&& subtree_p2(m, table_below(m[t3][i])->0, used)
        &&& not_below(m, table_below(m[t3][i])->0, t3, 512)
        &&& not_below_p3(m, t3, table_below(m[t3][i])->0, i)
        &&& forall|k: int|
            0 <= k < 512 && table_below(#[trigger] m[table_below(m[t3][i])->0][k]) is Some
                ==> not_below_p3(m, t3, table_below(m[table_below(m[t3][i])->0][k])->0, i)
    } by {
        let t2 = table_below(m[t3][i])->0;
        assert(has2(m, root, i4, i));
        assert(sits(m, root, t2, 2, i4, i, 0));
        assert(sits(m, root, t3, 3, i4, 0, 0));
        assert forall|k: int| 0 <= k < 512 && table_below(#[trigger] m[t2][k]) is Some implies {
            &&& used.contains(table_below(m[t2][k])->0)
            &&& table_below(m[t2][k])->0 != t2
            &&& not_below(m, t2, table_below(m[t2][k])->0, k)
            &&& not_below_p3(m, t3, table_below(m[t2][k])->0, i)
        } by {
            let t1 = table_below(m[t2][k])->0;
            assert(has1(m, root, i4, i, k));
            assert(sits(m, root, t1, 1, i4, i, k));
            lemma_not_below(m, root, used, i4, i, k, t1, 1, i4, i, k);
            lemma_not_below_p3(m, root, used, i4, i, t1, 1, i4, i, k);
        }
        lemma_not_below(m, root, used, i4, i, 512, t3, 3, i4, 0, 0);
        lemma_not_below_p3(m, root, used, i4, i, t2, 2, i4, i, 0);
    }
}

/// A tree of tables is a hierarchy of tables in use that each have one
/// place in it.
pub proof fn lemma_tree_apart(m: Map<int, Seq<u64>>, root: int, used: Set<int>)
    requires
        tree_ok(m, root, used),
    ensures
        subtree_p4(m, root, used),
{
    assert(sits(m, root, root, 4, 0, 0, 0));
    assert forall|i: int| 0 <= i < 512 && has_flags(#[trigger] m[root][i], 0x1) implies {
        &&& child_of(m[root][i]) != root
        &&& subtree_p3(m, child_of(m[root][i]), used)
        &&& not_below_p3(m, child_of(m[root][i]), root, 512)
        &&& not_below_p4(m, root, child_of(m[root][i]), i)
        &&& below_apart(m, root, child_of(m[root][i]), i)
    } by {
        let t3 = child_of(m[root][i]);
        assert(has3(m, root, i));
        assert(sits(m, root, t3, 3, i, 0, 0));
        lemma_subtree(m, root, used, i);
        lemma_not_below_p3(m, root, used, i, 512, root, 4, 0, 0, 0);
        lemma_not_below_p4(m, root, used, i, t3, 3, i, 0, 0);
        assert forall|k: int| 0 <= k < 512 && table_below(#[trigger] m[t3][k]) is Some implies {
            &&& not_below_p4(m, root, table_below(m[t3][k])->0, i)
            &&& forall|j: int|
                0 <= j < 512 && table_below(#[trigger] m[table_below(m[t3][k])->0][j]) is Some
                    ==> not_below_p4(m, root, table_below(m[table_below(m[t3][k])->0][j])->0, i)
        } by {
            let t2 = table_below(m[t3][k])->0;
            assert(has2(m, root, i, k));
            assert(sits(m, root, t2, 2, i, k, 0));
            lemma_not_below_p4(m, root, used, i, t2, 2, i, k, 0);
            assert forall|j: int|
                0 <= j < 512 && table_below(#[trigger] m[t2][j]) is Some implies not_below_p4(
                m,
                root,
                table_below(m[t2][j])->0,
                i,
            ) by {
                let t1 = table_below(m[t2][j])->0;
                assert(has1(m, root, i, k, j));
                assert(sits(m, root, t1, 1, i, k, j));
                lemma_not_below_p4(m, root, used, i, t1, 1, i, k, j);
            }
        }
    }
}

/// A subtree whose tables are still in use, and hold what they held, is
/// the subtree that it was.
pub proof fn lemma_subtree_same(
    m: Map<int, Seq<u64>>,
    k: Map<int, Seq<u64>>,
    t3: int,
    was: Set<int>,
    used: Set<int>,
)
    requires
        subtree_p3(m, t3, was),
        used.contains(t3),
        k[t3] == m[t3],
        forall|i: int|
            0 <= i < 512 && table_below(#[trigger] m[t3][i]) is Some ==> {
                &&& used.contains(table_below(m[t3][i])->0)
                &&& k[table_below(m[t3][i])->0] == m[table_below(m[t3][i])->0]
                &&& forall|j: int|
                    0 <= j < 512 && table_below(#[trigger] m[table_below(m[t3][i])->0][j]) is Some
                        ==> used.contains(table_below(m[table_below(m[t3][i])->0][j])->0)
            },
    ensures
        subtree_p3(k, t3, used),
        forall|f: int| #[trigger] not_below_p3(m, t3, f, 512) ==> not_below_p3(k, t3, f, 512),
{
    assert forall|f: int, n: int| #[trigger]
        not_below_p3(m, t3, f, n) && 0 <= n <= 512 implies not_below_p3(k, t3, f, n) by {
        assert forall|i: int| 0 <= i < n && table_below(#[trigger] k[t3][i]) is Some implies {
            &&& table_below(k[t3][i])->0 != f
            &&& not_below(k, table_below(k[t3][i])->0, f, 512)
        } by {
            let c = table_below(m[t3][i])->0;
            assert(table_below(m[t3][i]) is Some);
            assert(not_below(m, c, f, 512));
            assert(k[c] == m[c]);
        }
    }
    assert forall|i: int| 0 <= i < 512 && table_below(#[trigger] k[t3][i]) is Some implies {
        &&& table_below(k[t3][i])->0 != t3
        &&& subtree_p2(k, table_below(k[t3][i])->0, used)
        &&& not_below(k, table_below(k[t3][i])->0, t3, 512)
        &&& not_below_p3(k, t3, table_below(k[t3][i])->0, i)
        &&& forall|j: int|
            0 <= j < 512 && table_below(#[trigger] k[table_below(k[t3][i])->0][j]) is Some
                ==> not_below_p3(k, t3, table_below(k[table_below(k[t3][i])->0][j])->0, i)
    } by {
        let c = table_below(m[t3][i])->0;
        assert(table_below(m[t3][i]) is Some);
        assert(k[c] == m[c]);
        assert(subtree_p2(m, c, was));
        assert(not_below(m, c, t3, 512));
        assert(not_below_p3(m, t3, c, i));
        assert forall|j: int| 0 <= j < 512 && table_below(#[trigger] k[c][j]) is Some implies {
            &&& used.contains(table_below(k[c][j])->0)
            &&& table_below(k[c][j])->0 != c
            &&& not_below(k, c, table_below(k[c][j])->0, j)
            &&& not_below_p3(k, t3, table_below(k[c][j])->0, i)
        } by {
            let g = table_below(m[c][j])->0;
            assert(table_below(m[c][j]) is Some);
            assert(not_below(m, c, g, j));
            assert(not_below_p3(m, t3, g, i));
        }
    }
}

} // verus!
