//! The merge of sections does not depend on the order in which the
//! segments of an image are met.
use crate::bootloader::elf_section_list::{
    all_occupied, all_bounded, ascending, conflicting, insertion_point, lemma_insertion_point,
    lemma_merged_ascending, lemma_merged_separate, lemma_segment_wf, lemma_union, merged,
    SectionSpan,
};
use crate::bootloader::kernel_loader::{all_fit, gathered, is_load, span_of};
use crate::elf::ElfPhysicalHeader64;
use vstd::prelude::*;

verus! {

/// The address `a` lies in the virtual range of `x`; where `strict` is
/// set, not at its start.
pub open spec fn holds(x: SectionSpan, a: int, strict: bool) -> bool {
    (if strict {
        x.virt_base < a
    } else {
        x.virt_base <= a
    }) && a < x.mem_end()
}

/// The address `a` lies in the virtual range of a section of `s`; where
/// `strict` is set, not at the start of that range.
pub open spec fn covers(s: Seq<SectionSpan>, a: int, strict: bool) -> bool {
    exists|i: int| 0 <= i < s.len() && holds(#[trigger] s[i], a, strict)
}

/// The ranges of `y` lie within those of `x`.
pub open spec fn inside(y: SectionSpan, x: SectionSpan) -> bool {
    x.virt_base <= y.virt_base && y.mem_end() <= x.mem_end()
}

/// The section `y` is part of the merged section `x`: it lies within it,
/// its file range ends within that of `x`, and both lie at the same
/// distance from their place in the file.
pub open spec fn part_of(y: SectionSpan, x: SectionSpan) -> bool {
    inside(y, x) && y.file_end() <= x.file_end() && x.same_offset(y)
}

/// The section `y` is part of a section of `out`.
pub open spec fn member_of(y: SectionSpan, out: Seq<SectionSpan>) -> bool {
    exists|k: int| 0 <= k < out.len() && part_of(y, #[trigger] out[k])
}

/// The section `y` lies within `x`, and its file range ends where that of
/// `x` ends.
pub open spec fn closes(y: SectionSpan, x: SectionSpan) -> bool {
    inside(y, x) && y.file_end() == x.file_end()
}

/// A section of `s` closes the merged section `x`.
pub open spec fn closed_by(x: SectionSpan, s: Seq<SectionSpan>) -> bool {
    exists|i: int| 0 <= i < s.len() && closes(#[trigger] s[i], x)
}

/// The section `x` is a section of `s`.
pub open spec fn occurs(x: SectionSpan, s: Seq<SectionSpan>) -> bool {
    exists|j: int| 0 <= j < s.len() && #[trigger] s[j] == x
}

/// The section `x` is that of a segment to load of `headers`.
pub open spec fn from_load(x: SectionSpan, headers: Seq<ElfPhysicalHeader64>) -> bool {
    exists|i: int| 0 <= i < headers.len() && is_load(#[trigger] headers[i]) && x == span_of(headers[i])
}

/// Every section of `s` is a section of `t`.
pub open spec fn among(s: Seq<SectionSpan>, t: Seq<SectionSpan>) -> bool {
    forall|i: int| 0 <= i < s.len() ==> occurs(#[trigger] s[i], t)
}

/// Any two sections of `s` that overlap lie at the same distance from
/// their place in the file.
pub open spec fn compatible(s: Seq<SectionSpan>) -> bool {
    forall|i: int, j: int|
        0 <= i < s.len() && 0 <= j < s.len() && #[trigger] s[i].overlaps(s[j])
            ==> s[i].same_offset(s[j])
}

/// Each section of `out` ends where the next begins or before.
pub open spec fn separated(out: Seq<SectionSpan>) -> bool {
    forall|i: int, j: int|
        0 <= i < j < out.len() ==> (#[trigger] out[i]).mem_end() <= (#[trigger] out[j]).virt_base
}

/// Merging keeps what is covered: an address lies in a section of the
/// merged sequence exactly where it lies in a section of the sequence, and
/// lies inside one, not at its start, exactly where it does so in the
/// sequence.
pub proof fn lemma_merged_covers(s: Seq<SectionSpan>, a: int, strict: bool)
    requires
        ascending(s),
        all_bounded(s),
    ensures
        covers(merged(s), a, strict) == covers(s, a, strict),
    decreases s.len(),
{
    if s.len() > 1 {
        let front = s.drop_last();
        let cur = s.last();
        lemma_merged_covers(front, a, strict);
        lemma_merged_ascending(front);
        let before = merged(front);
        let last = before.last();
        let out = merged(s);
        assert(front.last() == s[s.len() - 2]);
        assert(last.virt_base <= cur.virt_base);
        assert(last.bounded() && cur.bounded());
        if last.overlaps(cur) {
            lemma_union(last, cur);
            let u = last.union(cur);
            assert(holds(u, a, strict) == (holds(last, a, strict) || holds(cur, a, strict)));
            if covers(out, a, strict) {
                let i = choose|i: int| 0 <= i < out.len() && holds(#[trigger] out[i], a, strict);
                if i < out.len() - 1 {
                    assert(holds(before[i], a, strict));
                } else if holds(last, a, strict) {
                    assert(holds(before[before.len() - 1], a, strict));
                }
                if covers(before, a, strict) {
                    let j = choose|j: int|
                        0 <= j < front.len() && holds(#[trigger] front[j], a, strict);
                    assert(holds(s[j], a, strict));
                } else {
                    assert(holds(s[s.len() - 1], a, strict));
                }
            }
            if covers(s, a, strict) {
                let i = choose|i: int| 0 <= i < s.len() && holds(#[trigger] s[i], a, strict);
                if i < s.len() - 1 {
                    assert(holds(front[i], a, strict));
                    let j = choose|j: int|
                        0 <= j < before.len() && holds(#[trigger] before[j], a, strict);
                    if j < before.len() - 1 {
                        assert(holds(out[j], a, strict));
                    } else {
                        assert(holds(out[out.len() - 1], a, strict));
                    }
                } else {
                    assert(holds(out[out.len() - 1], a, strict));
                }
            }
        } else {
            assert(out == before.push(cur));
            if covers(out, a, strict) {
                let i = choose|i: int| 0 <= i < out.len() && holds(#[trigger] out[i], a, strict);
                if i < out.len() - 1 {
                    assert(holds(before[i], a, strict));
                    let j = choose|j: int|
                        0 <= j < front.len() && holds(#[trigger] front[j], a, strict);
                    assert(holds(s[j], a, strict));
                } else {
                    assert(holds(s[s.len() - 1], a, strict));
                }
            }
            if covers(s, a, strict) {
                let i = choose|i: int| 0 <= i < s.len() && holds(#[trigger] s[i], a, strict);
                if i < s.len() - 1 {
                    assert(holds(front[i], a, strict));
                    let j = choose|j: int|
                        0 <= j < before.len() && holds(#[trigger] before[j], a, strict);
                    assert(holds(out[j], a, strict));
                } else {
                    assert(holds(out[out.len() - 1], a, strict));
                }
            }
        }
    }
}

/// What the union of two sections that lie at the same distance from the
/// file keeps: that distance, and whatever was part of the first section
/// or closed it where the union ends in the file where it did.
pub proof fn lemma_union_parts(last: SectionSpan, cur: SectionSpan, y: SectionSpan)
    requires
        last.bounded(),
        cur.bounded(),
        last.virt_base <= cur.virt_base,
        last.same_offset(cur),
    ensures
        last.union(cur).same_offset(last),
        part_of(last, last.union(cur)),
        part_of(cur, last.union(cur)),
        part_of(y, last) ==> part_of(y, last.union(cur)),
        closes(y, last) && last.union(cur).file_end() == last.file_end() ==> closes(
            y,
            last.union(cur),
        ),
        last.union(cur).file_end() == last.file_end() || last.union(cur).file_end()
            == cur.file_end(),
        closes(cur, last.union(cur)) || last.union(cur).file_end() == last.file_end(),
{
    lemma_union(last, cur);
}

/// The last merged section lies at the same distance from the file as a
/// section that overlaps it, where the sections that were merged into it
/// are compatible with that section.
proof fn lemma_last_compatible(front: Seq<SectionSpan>, cur: SectionSpan)
    requires
        front.len() > 0,
        ascending(front),
        all_bounded(front),
        all_occupied(front),
        cur.bounded(),
        front.last().virt_base <= cur.virt_base,
        forall|i: int| 0 <= i < front.len() ==> member_of(#[trigger] front[i], merged(front)),
        forall|i: int|
            0 <= i < front.len() && (#[trigger] front[i]).overlaps(cur) ==> front[i].same_offset(
                cur,
            ),
        merged(front).last().overlaps(cur),
    ensures
        merged(front).last().same_offset(cur),
{
    lemma_merged_ascending(front);
    lemma_merged_separate(front);
    let before = merged(front);
    let last = before.last();
    assert(last.virt_base <= cur.virt_base);
    assert(last.mem_pages >= 1);
    assert(holds(before[before.len() - 1], cur.virt_base, false));
    lemma_merged_covers(front, cur.virt_base, false);
    let j = choose|j: int| 0 <= j < front.len() && holds(#[trigger] front[j], cur.virt_base, false);
    let y = front[j];
    assert(y.overlaps(cur));
    assert(y.same_offset(cur));
    assert(member_of(front[j], before));
    let k = choose|k: int| 0 <= k < before.len() && part_of(y, #[trigger] before[k]);
    if k < before.len() - 1 {
        assert(before[k].mem_end() <= before[before.len() - 1].virt_base);
    }
    assert(k == before.len() - 1);
}

/// The members of a merged sequence once one more section is met that is
/// united with the last merged section.
proof fn lemma_members_joined(
    front: Seq<SectionSpan>,
    before: Seq<SectionSpan>,
    cur: SectionSpan,
    u: SectionSpan,
)
    requires
        before.len() > 0,
        forall|i: int| 0 <= i < front.len() ==> member_of(#[trigger] front[i], before),
        forall|k: int| 0 <= k < before.len() ==> closed_by(#[trigger] before[k], front),
        forall|y: SectionSpan| #[trigger] part_of(y, before.last()) ==> part_of(y, u),
        part_of(cur, u),
        closes(cur, u) || forall|y: SectionSpan|
            #[trigger] closes(y, before.last()) ==> closes(y, u),
    ensures
        forall|i: int|
            0 <= i < front.len() + 1 ==> member_of(
                #[trigger] front.push(cur)[i],
                before.drop_last().push(u),
            ),
        forall|k: int|
            0 <= k < before.len() ==> closed_by(
                #[trigger] before.drop_last().push(u)[k],
                front.push(cur),
            ),
{
    let s = front.push(cur);
    let out = before.drop_last().push(u);
    assert forall|i: int| 0 <= i < s.len() implies member_of(#[trigger] s[i], out) by {
        if i < s.len() - 1 {
            assert(member_of(front[i], before));
            let k = choose|k: int| 0 <= k < before.len() && part_of(front[i], #[trigger] before[k]);
            if k < before.len() - 1 {
                assert(out[k] == before[k]);
                assert(part_of(s[i], out[k]));
            } else {
                assert(part_of(front[i], before.last()));
                assert(part_of(s[i], out[out.len() - 1]));
            }
        } else {
            assert(part_of(s[i], out[out.len() - 1]));
        }
    }
    assert forall|k: int| 0 <= k < out.len() implies closed_by(#[trigger] out[k], s) by {
        if k < out.len() - 1 {
            assert(out[k] == before[k]);
            assert(closed_by(before[k], front));
            let i = choose|i: int| 0 <= i < front.len() && closes(#[trigger] front[i], before[k]);
            assert(closes(s[i], out[k]));
        } else if closes(cur, u) {
            assert(closes(s[s.len() - 1], out[k]));
        } else {
            assert(closed_by(before[before.len() - 1], front));
            let i = choose|i: int|
                0 <= i < front.len() && closes(#[trigger] front[i], before.last());
            assert(closes(s[i], out[k]));
        }
    }
}

/// The members of a merged sequence once one more section is met that
/// becomes a merged section of its own.
proof fn lemma_members_appended(
    front: Seq<SectionSpan>,
    before: Seq<SectionSpan>,
    cur: SectionSpan,
)
    requires
        forall|i: int| 0 <= i < front.len() ==> member_of(#[trigger] front[i], before),
        forall|k: int| 0 <= k < before.len() ==> closed_by(#[trigger] before[k], front),
        part_of(cur, cur),
        closes(cur, cur),
    ensures
        forall|i: int|
            0 <= i < front.len() + 1 ==> member_of(#[trigger] front.push(cur)[i], before.push(cur)),
        forall|k: int|
            0 <= k < before.len() + 1 ==> closed_by(
                #[trigger] before.push(cur)[k],
                front.push(cur),
            ),
{
    let s = front.push(cur);
    let out = before.push(cur);
    assert forall|i: int| 0 <= i < s.len() implies member_of(#[trigger] s[i], out) by {
        if i < s.len() - 1 {
            assert(member_of(front[i], before));
            let k = choose|k: int| 0 <= k < before.len() && part_of(front[i], #[trigger] before[k]);
            assert(out[k] == before[k]);
            assert(part_of(s[i], out[k]));
        } else {
            assert(part_of(s[i], out[out.len() - 1]));
        }
    }
    assert forall|k: int| 0 <= k < out.len() implies closed_by(#[trigger] out[k], s) by {
        if k < out.len() - 1 {
            assert(out[k] == before[k]);
            assert(closed_by(before[k], front));
            let i = choose|i: int| 0 <= i < front.len() && closes(#[trigger] front[i], before[k]);
            assert(closes(s[i], out[k]));
        } else {
            assert(closes(s[s.len() - 1], out[k]));
        }
    }
}

/// What the union keeps of every section at once.
proof fn lemma_join_facts(last: SectionSpan, cur: SectionSpan)
    requires
        last.bounded(),
        cur.bounded(),
        last.virt_base <= cur.virt_base,
        last.same_offset(cur),
    ensures
        forall|y: SectionSpan| #[trigger] part_of(y, last) ==> part_of(y, last.union(cur)),
        part_of(cur, last.union(cur)),
        closes(cur, last.union(cur)) || forall|y: SectionSpan|
            #[trigger] closes(y, last) ==> closes(y, last.union(cur)),
{
    let u = last.union(cur);
    assert forall|y: SectionSpan| #[trigger] part_of(y, last) implies part_of(y, u) by {
        lemma_union_parts(last, cur, y);
    }
    lemma_union_parts(last, cur, cur);
    if !closes(cur, u) {
        assert forall|y: SectionSpan| #[trigger] closes(y, last) implies closes(y, u) by {
            lemma_union_parts(last, cur, y);
        }
    }
}

/// A sequence without its last section is ascending, well formed,
/// occupied and compatible where the sequence is, and its sections that
/// overlap the last section are compatible with it.
proof fn lemma_front(s: Seq<SectionSpan>)
    requires
        s.len() > 1,
        ascending(s),
        all_bounded(s),
        all_occupied(s),
        compatible(s),
    ensures
        ascending(s.drop_last()),
        all_bounded(s.drop_last()),
        all_occupied(s.drop_last()),
        compatible(s.drop_last()),
        s.last().bounded(),
        s.drop_last().last().virt_base <= s.last().virt_base,
        forall|i: int|
            0 <= i < s.len() - 1 && (#[trigger] s.drop_last()[i]).overlaps(s.last())
                ==> s.drop_last()[i].same_offset(s.last()),
{
    let front = s.drop_last();
    assert forall|i: int, j: int|
        0 <= i < front.len() && 0 <= j < front.len() && #[trigger] front[i].overlaps(
            front[j],
        ) implies front[i].same_offset(front[j]) by {
        assert(s[i].overlaps(s[j]));
    }
    assert(front.last() == s[s.len() - 2]);
    assert(s.last() == s[s.len() - 1]);
    assert forall|i: int|
        0 <= i < front.len() && (#[trigger] front[i]).overlaps(s.last()) implies front[i].same_offset(
        s.last(),
    ) by {
        assert(s[i].overlaps(s[s.len() - 1]));
    }
}

/// What the sections of a merged sequence are made of, where sections
/// that overlap are compatible: nothing conflicts; every section of the
/// sequence is part of a merged section; and every merged section is
/// closed by a section of the sequence.
pub proof fn lemma_merged_members(s: Seq<SectionSpan>)
    requires
        ascending(s),
        all_bounded(s),
        all_occupied(s),
        compatible(s),
    ensures
        !conflicting(s),
        forall|i: int| 0 <= i < s.len() ==> member_of(#[trigger] s[i], merged(s)),
        forall|k: int| 0 <= k < merged(s).len() ==> closed_by(#[trigger] merged(s)[k], s),
    decreases s.len(),
{
    let out = merged(s);
    if s.len() == 1 {
        assert(part_of(s[0], out[0]));
        assert(closes(s[0], out[0]));
    } else if s.len() > 1 {
        let front = s.drop_last();
        let cur = s.last();
        assert(s =~= front.push(cur));
        lemma_front(s);
        lemma_merged_members(front);
        lemma_merged_ascending(front);
        let before = merged(front);
        let last = before.last();
        assert(last == before[before.len() - 1]);
        assert(last.bounded());
        assert(last.virt_base <= cur.virt_base);
        if last.overlaps(cur) {
            lemma_last_compatible(front, cur);
            lemma_join_facts(last, cur);
            lemma_members_joined(front, before, cur, last.union(cur));
        } else {
            lemma_members_appended(front, before, cur);
        }
    }
}

/// The sections have the same virtual ranges.
pub open spec fn same_range(x: SectionSpan, y: SectionSpan) -> bool {
    x.virt_base == y.virt_base && x.mem_end() == y.mem_end()
}

/// In a sequence of occupied sections each of which ends where the next
/// begins or before, an address lies strictly inside at most the section
/// that holds it, and the sections before a section end at or before its
/// start.
proof fn lemma_separated_holds(out: Seq<SectionSpan>, k: int, m: int, a: int, strict: bool)
    requires
        separated(out),
        all_occupied(out),
        0 <= k < out.len(),
        0 <= m < out.len(),
        out[k].virt_base <= a < out[k].mem_end(),
        holds(out[m], a, strict),
    ensures
        m == k,
{
    if m < k {
        assert(out[m].mem_end() <= out[k].virt_base);
    } else if m > k {
        assert(out[k].mem_end() <= out[m].virt_base);
    }
}

/// Where two sequences of occupied, separated sections cover the same
/// addresses, at their starts and strictly inside, every section of the
/// first has the range of a section of the second.
proof fn lemma_range_found(first: Seq<SectionSpan>, second: Seq<SectionSpan>, k: int) -> (j: int)
    requires
        separated(first),
        all_occupied(first),
        separated(second),
        all_occupied(second),
        forall|a: int, strict: bool|
            #[trigger] covers(first, a, strict) == covers(second, a, strict),
        0 <= k < first.len(),
    ensures
        0 <= j < second.len(),
        same_range(first[k], second[j]),
{
    let b = first[k].virt_base;
    let e = first[k].mem_end();
    assert(first[k].mem_pages >= 1);
    assert(holds(first[k], b, false));
    assert(covers(first, b, false));
    assert(covers(second, b, false));
    if covers(first, b, true) {
        let i = choose|i: int| 0 <= i < first.len() && holds(#[trigger] first[i], b, true);
        lemma_separated_holds(first, k, i, b, true);
    }
    assert(!covers(second, b, true));
    let j = choose|j: int| 0 <= j < second.len() && holds(#[trigger] second[j], b, false);
    assert(second[j].mem_pages >= 1);
    if second[j].virt_base < b {
        assert(holds(second[j], b, true));
    }
    let other = second[j].mem_end();
    if other < e {
        assert(holds(first[k], other, true));
        assert(covers(first, other, true));
        assert(covers(second, other, true));
        let m = choose|m: int| 0 <= m < second.len() && holds(#[trigger] second[m], other, true);
        if m < j {
            assert(second[m].mem_end() <= second[j].virt_base);
        } else if m > j {
            assert(second[j].mem_end() <= second[m].virt_base);
        }
    } else if e < other {
        assert(holds(second[j], e, true));
        assert(covers(second, e, true));
        assert(covers(first, e, true));
        let m = choose|m: int| 0 <= m < first.len() && holds(#[trigger] first[m], e, true);
        if m < k {
            assert(first[m].mem_end() <= first[k].virt_base);
        } else if m > k {
            assert(first[k].mem_end() <= first[m].virt_base);
        }
    }
    j
}

/// Where each of two sequences of occupied, separated sections has the
/// ranges of the other, section `k` of the one has the range of section `k`
/// of the other.
proof fn lemma_index_match(first: Seq<SectionSpan>, second: Seq<SectionSpan>, k: int)
    requires
        separated(first),
        all_occupied(first),
        separated(second),
        all_occupied(second),
        forall|a: int, strict: bool|
            #[trigger] covers(first, a, strict) == covers(second, a, strict),
        0 <= k < first.len(),
    ensures
        k < second.len(),
        same_range(first[k], second[k]),
    decreases k,
{
    let j = lemma_range_found(first, second, k);
    assert(first[k].mem_pages >= 1 && second[j].mem_pages >= 1);
    if j < k {
        lemma_index_match(first, second, j);
        assert(first[j].mem_end() <= first[k].virt_base);
        assert(first[j].mem_pages >= 1);
    } else if j > k {
        assert(forall|a: int, strict: bool|
            #[trigger] covers(second, a, strict) == covers(first, a, strict));
        let m = lemma_range_found(second, first, k);
        assert(second[k].mem_end() <= second[j].virt_base);
        assert(second[k].mem_pages >= 1);
        if m < k {
            lemma_index_match(first, second, m);
            assert(second[m].mem_end() <= second[k].virt_base);
            assert(second[m].mem_pages >= 1);
        } else if m > k {
            assert(first[k].mem_end() <= first[m].virt_base);
        }
    }
}

/// A section of the sequence that is part of a merged section and lies in
/// the range of merged section `k` is part of that section.
proof fn lemma_part_at(out: Seq<SectionSpan>, y: SectionSpan, k: int, range: SectionSpan)
    requires
        separated(out),
        all_occupied(out),
        member_of(y, out),
        y.mem_pages >= 1,
        0 <= k < out.len(),
        same_range(out[k], range),
        inside(y, range),
    ensures
        part_of(y, out[k]),
{
    let m = choose|m: int| 0 <= m < out.len() && part_of(y, #[trigger] out[m]);
    assert(holds(out[m], y.virt_base, false));
    lemma_separated_holds(out, k, m, y.virt_base, false);
}

/// Two ascending sequences of the same sections merge to sequences that
/// cover the same addresses, at their starts and strictly inside.
proof fn lemma_merged_same_cover(first: Seq<SectionSpan>, second: Seq<SectionSpan>)
    requires
        ascending(first),
        ascending(second),
        all_bounded(first),
        all_bounded(second),
        among(first, second),
        among(second, first),
    ensures
        forall|a: int, strict: bool|
            #[trigger] covers(merged(first), a, strict) == covers(merged(second), a, strict),
{
    assert forall|a: int, strict: bool| #[trigger] covers(merged(first), a, strict) == covers(
        merged(second),
        a,
        strict,
    ) by {
        lemma_merged_covers(first, a, strict);
        lemma_merged_covers(second, a, strict);
        if covers(first, a, strict) {
            let i = choose|i: int| 0 <= i < first.len() && holds(#[trigger] first[i], a, strict);
            assert(occurs(first[i], second));
            let j = choose|j: int| 0 <= j < second.len() && #[trigger] second[j] == first[i];
            assert(holds(second[j], a, strict));
        }
        if covers(second, a, strict) {
            let i = choose|i: int| 0 <= i < second.len() && holds(#[trigger] second[i], a, strict);
            assert(occurs(second[i], first));
            let j = choose|j: int| 0 <= j < first.len() && #[trigger] first[j] == second[i];
            assert(holds(first[j], a, strict));
        }
    }
}

/// Merged section `k` of the one sequence is merged section `k` of the
/// other.
proof fn lemma_sections_equal_at(first: Seq<SectionSpan>, second: Seq<SectionSpan>, k: int)
    requires
        all_occupied(first),
        all_occupied(second),
        among(first, second),
        among(second, first),
        separated(merged(first)),
        all_occupied(merged(first)),
        all_bounded(merged(first)),
        separated(merged(second)),
        all_occupied(merged(second)),
        all_bounded(merged(second)),
        forall|i: int| 0 <= i < first.len() ==> member_of(#[trigger] first[i], merged(first)),
        forall|i: int| 0 <= i < second.len() ==> member_of(#[trigger] second[i], merged(second)),
        forall|i: int| 0 <= i < merged(first).len() ==> closed_by(#[trigger] merged(first)[i], first),
        forall|i: int|
            0 <= i < merged(second).len() ==> closed_by(#[trigger] merged(second)[i], second),
        forall|a: int, strict: bool|
            #[trigger] covers(merged(first), a, strict) == covers(merged(second), a, strict),
        0 <= k < merged(first).len(),
    ensures
        k < merged(second).len(),
        merged(first)[k] == merged(second)[k],
{
    let one = merged(first);
    let two = merged(second);
    lemma_index_match(one, two, k);
    lemma_file_match(first, second, k);
    lemma_file_match(second, first, k);
    assert(one[k].bounded() && two[k].bounded());
    assert(one[k].virt_base == two[k].virt_base);
    assert(one[k].file_base == two[k].file_base);
    assert(one[k].mem_pages == two[k].mem_pages);
    assert(one[k].file_pages == two[k].file_pages);
}

/// Order does not matter: two ascending sequences of the same well-formed,
/// occupied and compatible sections merge to the same sections.
pub proof fn lemma_same_sections_same_merge(first: Seq<SectionSpan>, second: Seq<SectionSpan>)
    requires
        ascending(first),
        ascending(second),
        all_bounded(first),
        all_occupied(first),
        compatible(first),
        among(first, second),
        among(second, first),
    ensures
        merged(first) == merged(second),
        !conflicting(first),
        !conflicting(second),
{
    lemma_among(first, second);
    let one = merged(first);
    let two = merged(second);
    lemma_merged_members(first);
    lemma_merged_members(second);
    lemma_merged_ascending(first);
    lemma_merged_ascending(second);
    lemma_merged_separate(first);
    lemma_merged_separate(second);
    assert(separated(one));
    assert(separated(two));
    lemma_merged_same_cover(first, second);
    lemma_merged_same_cover(second, first);
    if one.len() > 0 {
        lemma_sections_equal_at(first, second, one.len() - 1);
    }
    if two.len() > 0 {
        lemma_sections_equal_at(second, first, two.len() - 1);
    }
    assert(one.len() == two.len());
    assert forall|k: int| 0 <= k < one.len() implies one[k] == two[k] by {
        lemma_sections_equal_at(first, second, k);
    }
    assert(one =~= two);
}

/// Where two sequences hold the same sections, what holds of every
/// section of the one holds of every section of the other.
proof fn lemma_among(first: Seq<SectionSpan>, second: Seq<SectionSpan>)
    requires
        all_bounded(first),
        all_occupied(first),
        compatible(first),
        among(second, first),
    ensures
        all_bounded(second),
        all_occupied(second),
        compatible(second),
{
    assert forall|i: int| 0 <= i < second.len() implies (#[trigger] second[i]).bounded() && second[i].mem_pages
        >= 1 by {
        assert(occurs(second[i], first));
        let j = choose|j: int| 0 <= j < first.len() && #[trigger] first[j] == second[i];
        assert(first[j].bounded() && first[j].mem_pages >= 1);
    }
    assert forall|i: int, j: int|
        0 <= i < second.len() && 0 <= j < second.len() && #[trigger] second[i].overlaps(
            second[j],
        ) implies second[i].same_offset(second[j]) by {
        assert(occurs(second[i], first) && occurs(second[j], first));
        let a = choose|a: int| 0 <= a < first.len() && #[trigger] first[a] == second[i];
        let b = choose|b: int| 0 <= b < first.len() && #[trigger] first[b] == second[j];
        assert(first[a].overlaps(first[b]));
    }
}

/// The file range of merged section `k` of the one sequence ends no later
/// than that of the other, and both lie at the same distance from the
/// file.
proof fn lemma_file_match(first: Seq<SectionSpan>, second: Seq<SectionSpan>, k: int)
    requires
        all_occupied(first),
        among(first, second),
        separated(merged(first)),
        all_occupied(merged(first)),
        separated(merged(second)),
        all_occupied(merged(second)),
        forall|i: int| 0 <= i < first.len() ==> member_of(#[trigger] first[i], merged(first)),
        forall|i: int| 0 <= i < second.len() ==> member_of(#[trigger] second[i], merged(second)),
        forall|i: int| 0 <= i < merged(first).len() ==> closed_by(#[trigger] merged(first)[i], first),
        0 <= k < merged(first).len(),
        k < merged(second).len(),
        same_range(merged(first)[k], merged(second)[k]),
    ensures
        merged(first)[k].file_end() <= merged(second)[k].file_end(),
        merged(first)[k].same_offset(merged(second)[k]),
{
    let one = merged(first);
    let two = merged(second);
    assert(closed_by(one[k], first));
    let i = choose|i: int| 0 <= i < first.len() && closes(#[trigger] first[i], one[k]);
    let y = first[i];
    assert(y.mem_pages >= 1);
    assert(occurs(first[i], second));
    let j = choose|j: int| 0 <= j < second.len() && #[trigger] second[j] == first[i];
    assert(member_of(second[j], two));
    assert(member_of(first[i], one));
    lemma_part_at(two, y, k, one[k]);
    lemma_part_at(one, y, k, one[k]);
}

/// The sections gathered from program headers ascend and are those of the
/// segments to load; they are well formed where every such segment fits.
pub proof fn lemma_gathered(headers: Seq<ElfPhysicalHeader64>)
    ensures
        ascending(gathered(headers)),
        all_fit(headers) ==> all_bounded(gathered(headers)),
        forall|j: int|
            0 <= j < gathered(headers).len() ==> from_load(#[trigger] gathered(headers)[j], headers),
        forall|i: int|
            0 <= i < headers.len() && is_load(#[trigger] headers[i]) ==> occurs(
                span_of(headers[i]),
                gathered(headers),
            ),
    decreases headers.len(),
{
    if headers.len() > 0 {
        let front = headers.drop_last();
        let h = headers.last();
        lemma_gathered(front);
        let before = gathered(front);
        let out = gathered(headers);
        assert(h == headers[headers.len() - 1]);
        if all_fit(headers) {
            assert forall|i: int| 0 <= i < front.len() && is_load(#[trigger] front[i]) implies SectionSpan::segment_fits(

                front[i].p_offset,
                front[i].p_vaddr,
                front[i].p_filesz,
                front[i].p_memsz,
            ) by {
                assert(headers[i] == front[i]);
            }
        }
        if is_load(h) {
            let x = span_of(h);
            let p = insertion_point(before, x.virt_base);
            lemma_insertion_point(before, x.virt_base);
            let marker = SectionSpan { file_base: 0, virt_base: x.virt_base, file_pages: 0, mem_pages: 0 };
            let marked = before.insert(p, marker);
            assert(out == before.insert(p, x));
            assert forall|i: int, j: int| 0 <= i < j < out.len() implies out[i].virt_base
                <= out[j].virt_base by {
                assert(marked[i].virt_base <= marked[j].virt_base);
                assert(out[i].virt_base == marked[i].virt_base);
                assert(out[j].virt_base == marked[j].virt_base);
            }
            if all_fit(headers) {
                lemma_segment_wf(h.p_offset, h.p_vaddr, h.p_filesz, h.p_memsz);
                assert forall|j: int| 0 <= j < out.len() implies (#[trigger] out[j]).bounded() by {
                    if j < p {
                        assert(out[j] == before[j]);
                    } else if j > p {
                        assert(out[j] == before[j - 1]);
                    }
                }
            }
            assert forall|j: int| 0 <= j < out.len() implies from_load(
                #[trigger] out[j],
                headers,
            ) by {
                if j == p {
                    assert(is_load(headers[headers.len() - 1]) && out[j] == span_of(
                        headers[headers.len() - 1],
                    ));
                } else {
                    let jj = if j < p {
                        j
                    } else {
                        j - 1
                    };
                    assert(out[j] == before[jj]);
                    assert(from_load(before[jj], front));
                    let i = choose|i: int|
                        0 <= i < front.len() && is_load(#[trigger] front[i]) && before[jj]
                            == span_of(front[i]);
                    assert(is_load(headers[i]) && out[j] == span_of(headers[i]));
                }
            }
            assert forall|i: int|
                0 <= i < headers.len() && is_load(#[trigger] headers[i]) implies occurs(
                span_of(headers[i]),
                out,
            ) by {
                if i == headers.len() - 1 {
                    assert(out[p] == span_of(headers[i]));
                } else {
                    assert(front[i] == headers[i]);
                    assert(occurs(span_of(front[i]), before));
                    let jj = choose|jj: int|
                        0 <= jj < before.len() && #[trigger] before[jj] == span_of(front[i]);
                    if jj < p {
                        assert(out[jj] == before[jj]);
                    } else {
                        assert(out[jj + 1] == before[jj]);
                    }
                }
            }
        } else {
            assert(out == before);
            assert forall|j: int| 0 <= j < out.len() implies from_load(
                #[trigger] out[j],
                headers,
            ) by {
                assert(from_load(before[j], front));
                let i = choose|i: int|
                    0 <= i < front.len() && is_load(#[trigger] front[i]) && before[j] == span_of(
                        front[i],
                    );
                assert(is_load(headers[i]) && out[j] == span_of(headers[i]));
            }
            assert forall|i: int|
                0 <= i < headers.len() && is_load(#[trigger] headers[i]) implies occurs(
                span_of(headers[i]),
                out,
            ) by {
                assert(front[i] == headers[i]);
                assert(occurs(span_of(front[i]), before));
            }
        }
    }
}

/// The segments to load of `headers` have the sections that those of
/// `others` have.
pub open spec fn sections_among(
    headers: Seq<ElfPhysicalHeader64>,
    others: Seq<ElfPhysicalHeader64>,
) -> bool {
    forall|i: int|
        0 <= i < headers.len() && is_load(#[trigger] headers[i]) ==> from_load(
            span_of(headers[i]),
            others,
        )
}

/// The order of the program headers does not matter. Where two header
/// tables hold the same segments to load, every such segment fits and
/// covers at least a page of memory, and any two of them that overlap lie
/// at the same distance from their place in the file, then both tables
/// give the same merged sections, neither conflicts, and no two of the
/// merged sections overlap.
pub proof fn lemma_merge_order_independent(
    first: Seq<ElfPhysicalHeader64>,
    second: Seq<ElfPhysicalHeader64>,
)
    requires
        all_fit(first),
        sections_among(first, second),
        sections_among(second, first),
        forall|i: int|
            0 <= i < first.len() && is_load(#[trigger] first[i]) ==> span_of(first[i]).mem_pages
                >= 1,
        forall|i: int, j: int|
            0 <= i < first.len() && 0 <= j < first.len() && is_load(first[i]) && is_load(first[j])
                && #[trigger] span_of(first[i]).overlaps(span_of(first[j])) ==> span_of(
                first[i],
            ).same_offset(span_of(first[j])),
    ensures
        merged(gathered(first)) == merged(gathered(second)),
        !conflicting(gathered(first)),
        !conflicting(gathered(second)),
        forall|i: int, j: int|
            0 <= i < merged(gathered(first)).len() && 0 <= j < merged(gathered(first)).len() && i
                != j ==> !(#[trigger] merged(gathered(first))[i]).overlaps(
                #[trigger] merged(gathered(first))[j],
            ),
{
    let one = gathered(first);
    let two = gathered(second);
    lemma_gathered(first);
    lemma_gathered(second);
    assert forall|i: int| 0 <= i < one.len() implies (#[trigger] one[i]).mem_pages >= 1 by {
        assert(from_load(one[i], first));
    }
    assert forall|i: int, j: int|
        0 <= i < one.len() && 0 <= j < one.len() && #[trigger] one[i].overlaps(
            one[j],
        ) implies one[i].same_offset(one[j]) by {
        assert(from_load(one[i], first) && from_load(one[j], first));
        let a = choose|a: int|
            0 <= a < first.len() && is_load(#[trigger] first[a]) && one[i] == span_of(first[a]);
        let b = choose|b: int|
            0 <= b < first.len() && is_load(#[trigger] first[b]) && one[j] == span_of(first[b]);
        assert(span_of(first[a]).overlaps(span_of(first[b])));
    }
    assert forall|i: int| 0 <= i < one.len() implies occurs(#[trigger] one[i], two) by {
        assert(from_load(one[i], first));
        let a = choose|a: int|
            0 <= a < first.len() && is_load(#[trigger] first[a]) && one[i] == span_of(first[a]);
        assert(from_load(span_of(first[a]), second));
        let b = choose|b: int|
            0 <= b < second.len() && is_load(#[trigger] second[b]) && span_of(first[a])
                == span_of(second[b]);
        assert(occurs(span_of(second[b]), two));
    }
    assert forall|i: int| 0 <= i < two.len() implies occurs(#[trigger] two[i], one) by {
        assert(from_load(two[i], second));
        let a = choose|a: int|
            0 <= a < second.len() && is_load(#[trigger] second[a]) && two[i] == span_of(
                second[a],
            );
        assert(from_load(span_of(second[a]), first));
        let b = choose|b: int|
            0 <= b < first.len() && is_load(#[trigger] first[b]) && span_of(second[a])
                == span_of(first[b]);
        assert(occurs(span_of(first[b]), one));
    }
    lemma_same_sections_same_merge(one, two);
    lemma_merged_separate(one);
}

} // verus!
