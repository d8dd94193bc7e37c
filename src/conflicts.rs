use vstd::prelude::*;
use vstd::string::*;

use crate::text::concat2;
use crate::text::concat3;
use crate::types::ranges_meet;
use crate::types::range_holds;
use crate::types::texts;
use crate::types::MemoryRegion;
use crate::types::MemorySegment;

verus! {

pub open spec fn overlap_note(name: Seq<char>) -> Seq<char> {
    "Overlaps with "@ + name
}

pub open spec fn partial_note(name: Seq<char>) -> Seq<char> {
    "Partially outside "@ + name + " region"@
}

pub open spec fn outside_note() -> Seq<char> {
    "Not in any defined memory region"@
}

pub open spec fn segments_meet(a: MemorySegment, b: MemorySegment) -> bool {
    ranges_meet(a.address as int, a.size as int, b.address as int, b.size as int)
}

/// The overlap notes of segment `i` against the first `n` segments, in their order.
pub open spec fn overlap_notes(segs: Seq<MemorySegment>, i: int, n: int) -> Seq<Seq<char>>
    decreases n,
{
    if n <= 0 {
        seq![]
    } else {
        overlap_notes(segs, i, n - 1) + if n - 1 != i && segments_meet(segs[i], segs[n - 1]) {
            seq![overlap_note(segs[n - 1].name@)]
        } else {
            seq![]
        }
    }
}

/// The state after scanning the first `n` regions for `[address, address + size)`:
/// the notes so far, whether some region accounts for the range, and whether a
/// region holding all of it ended the scan.
pub open spec fn region_scan(regions: Seq<MemoryRegion>, address: int, size: int, n: int) -> (
    Seq<Seq<char>>,
    bool,
    bool,
)
    decreases n,
{
    if n <= 0 {
        (seq![], false, false)
    } else {
        let p = region_scan(regions, address, size, n - 1);
        let r = regions[n - 1];
        if p.2 {
            p
        } else if range_holds(r.start as int, r.size as int, address, size) {
            (p.0, true, true)
        } else if ranges_meet(address, size, r.start as int, r.size as int) {
            (p.0.push(partial_note(r.name@)), true, false)
        } else {
            p
        }
    }
}

/// The region diagnostics of `[address, address + size)` against the catalog.
pub open spec fn region_notes(regions: Seq<MemoryRegion>, address: int, size: int) -> Seq<Seq<char>> {
    let s = region_scan(regions, address, size, regions.len() as int);
    if s.1 {
        s.0
    } else {
        s.0.push(outside_note())
    }
}

/// Every diagnostic of segment `i`: overlaps with the other segments first, then regions.
pub open spec fn segment_conflicts(segs: Seq<MemorySegment>, regions: Seq<MemoryRegion>, i: int) -> Seq<Seq<char>> {
    overlap_notes(segs, i, segs.len() as int) + region_notes(
        regions,
        segs[i].address as int,
        segs[i].size as int,
    )
}

/// `b` is `a` with at most its diagnostics replaced.
pub open spec fn same_layout(a: MemorySegment, b: MemorySegment) -> bool {
    a.name == b.name && a.address == b.address && a.size == b.size && a.flags == b.flags
        && a.is_load == b.is_load
}

fn conflicts_of(segments: &Vec<MemorySegment>, regions: &[MemoryRegion], i: usize) -> (r: Vec<String>)
    requires
        i < segments.len(),
    ensures
        texts(r@) == segment_conflicts(segments@, regions@, i as int),
{
    let mut conflicts: Vec<String> = Vec::new();
    let seg_start = segments[i].address;
    let seg_size = segments[i].size;
    let seg_end = seg_start as u128 + seg_size as u128;
    let mut j: usize = 0;
    while j < segments.len()
        invariant
            i < segments.len(),
            j <= segments.len(),
            seg_start == segments@[i as int].address,
            seg_size == segments@[i as int].size,
            seg_end == seg_start + seg_size,
            texts(conflicts@) == overlap_notes(segments@, i as int, j as int),
        decreases segments.len() - j,
    {
        if i != j {
            let other_start = segments[j].address;
            let other_end = other_start as u128 + segments[j].size as u128;
            if !(seg_end <= other_start as u128 || seg_start as u128 >= other_end) {
                let note = concat2("Overlaps with ", segments[j].name.as_str());
                conflicts.push(note);
            }
        }
        proof {
            assert(texts(conflicts@) =~= overlap_notes(segments@, i as int, j + 1));
        }
        j += 1;
    }
    let ghost overlaps = texts(conflicts@);
    let mut in_valid_region = false;
    let mut settled = false;
    let mut k: usize = 0;
    while k < regions.len()
        invariant
            k <= regions.len(),
            texts(conflicts@) == overlaps + region_scan(regions@, seg_start as int, seg_size as int, k as int).0,
            in_valid_region == region_scan(regions@, seg_start as int, seg_size as int, k as int).1,
            settled == region_scan(regions@, seg_start as int, seg_size as int, k as int).2,
        decreases regions.len() - k,
    {
        if !settled {
            let region = &regions[k];
            if region.contains(seg_start, seg_size) {
                in_valid_region = true;
                settled = true;
            } else if region.overlaps(seg_start, seg_size) {
                let note = concat3("Partially outside ", region.name.as_str(), " region");
                conflicts.push(note);
                in_valid_region = true;
            }
        }
        proof {
            let p = region_scan(regions@, seg_start as int, seg_size as int, k as int);
            let q = region_scan(regions@, seg_start as int, seg_size as int, k + 1);
            if !p.2 && !range_holds(regions@[k as int].start as int, regions@[k as int].size as int, seg_start as int, seg_size as int)
                && ranges_meet(seg_start as int, seg_size as int, regions@[k as int].start as int, regions@[k as int].size as int) {
                assert(q.0 == p.0.push(partial_note(regions@[k as int].name@)));
                assert((overlaps + p.0).push(partial_note(regions@[k as int].name@)) =~= overlaps + q.0);
            }
            assert(texts(conflicts@) =~= overlaps + q.0);
        }
        k += 1;
    }
    let ghost scanned = texts(conflicts@);
    if !in_valid_region {
        conflicts.push(String::from_str("Not in any defined memory region"));
        proof {
            assert(texts(conflicts@) =~= scanned.push(outside_note()));
        }
    }
    proof {
        assert(texts(conflicts@) =~= segment_conflicts(segments@, regions@, i as int));
    }
    conflicts
}

/// Fills in the diagnostics of every segment: overlaps with the other segments,
/// then how the segment sits in the regions of the catalog.
pub fn detect_conflicts(segments: &mut Vec<MemorySegment>, memory_regions: &[MemoryRegion])
    ensures
        final(segments)@.len() == old(segments)@.len(),
        forall|i: int|
            0 <= i < old(segments)@.len() ==> same_layout(#[trigger] final(segments)@[i], old(segments)@[i])
                && texts(final(segments)@[i].conflicts@) == segment_conflicts(
                old(segments)@,
                memory_regions@,
                i,
            ),
{
    let n = segments.len();
    let mut all: Vec<Vec<String>> = Vec::new();
    let mut i: usize = 0;
    while i < n
        invariant
            n == segments.len(),
            i <= n,
            all@.len() == i,
            forall|k: int| 0 <= k < i ==> texts(#[trigger] all@[k]@) == segment_conflicts(segments@, memory_regions@, k),
        decreases n - i,
    {
        let c = conflicts_of(segments, memory_regions, i);
        all.push(c);
        i += 1;
    }
    let ghost before = segments@;
    let mut k: usize = n;
    while k > 0
        invariant
            k <= n,
            n == segments.len(),
            before.len() == n,
            all@.len() == k,
            forall|m: int| 0 <= m < k ==> texts(#[trigger] all@[m]@) == segment_conflicts(before, memory_regions@, m),
            forall|m: int| 0 <= m < n ==> same_layout(#[trigger] segments@[m], before[m]),
            forall|m: int| k <= m < n ==> texts(#[trigger] segments@[m].conflicts@) == segment_conflicts(before, memory_regions@, m),
        decreases k,
    {
        k -= 1;
        let c = all.pop().unwrap();
        segments[k].conflicts = c;
    }
}


/// No two segments share a name.
pub open spec fn names_distinct(segs: Seq<MemorySegment>) -> bool {
    forall|a: int, b: int|
        0 <= a < segs.len() && 0 <= b < segs.len() && a != b ==> #[trigger] segs[a].name@ != #[trigger] segs[b].name@
}

proof fn lemma_overlap_note_injective(a: Seq<char>, b: Seq<char>)
    ensures
        overlap_note(a) == overlap_note(b) ==> a == b,
{
    let p = "Overlaps with "@;
    if overlap_note(a) == overlap_note(b) {
        assert((p + a).subrange(p.len() as int, (p + a).len() as int) =~= a);
        assert((p + b).subrange(p.len() as int, (p + b).len() as int) =~= b);
    }
}

proof fn lemma_overlap_notes_hold(segs: Seq<MemorySegment>, i: int, j: int, n: int)
    requires
        names_distinct(segs),
        0 <= i < segs.len(),
        0 <= j < segs.len(),
        i != j,
        0 <= n <= segs.len(),
    ensures
        overlap_notes(segs, i, n).contains(overlap_note(segs[j].name@)) <==> (j < n && segments_meet(
            segs[i],
            segs[j],
        )),
    decreases n,
{
    if n > 0 {
        lemma_overlap_notes_hold(segs, i, j, n - 1);
        let prev = overlap_notes(segs, i, n - 1);
        let cur = overlap_notes(segs, i, n);
        let x = overlap_note(segs[j].name@);
        lemma_overlap_note_injective(segs[n - 1].name@, segs[j].name@);
        if n - 1 != i && segments_meet(segs[i], segs[n - 1]) {
            assert(cur == prev.push(overlap_note(segs[n - 1].name@)));
            if prev.contains(x) {
                let w = choose|w: int| 0 <= w < prev.len() && prev[w] == x;
                assert(cur[w] == x);
            }
            if j == n - 1 {
                assert(cur[prev.len() as int] == x);
            }
            if cur.contains(x) {
                let w = choose|w: int| 0 <= w < cur.len() && cur[w] == x;
                if w < prev.len() {
                    assert(prev[w] == x);
                }
            }
        } else {
            assert(cur =~= prev);
            if j == n - 1 && prev.contains(x) {
                let w = choose|w: int| 0 <= w < prev.len() && prev[w] == x;
                assert(false);
            }
        }
    }
}

proof fn lemma_region_scan_partial(regions: Seq<MemoryRegion>, address: int, size: int, n: int)
    requires
        0 <= n <= regions.len(),
    ensures
        forall|k: int|
            0 <= k < region_scan(regions, address, size, n).0.len() ==> (#[trigger] region_scan(
                regions,
                address,
                size,
                n,
            ).0[k]).len() > 0 && region_scan(regions, address, size, n).0[k][0] == 'P',
    decreases n,
{
    reveal_strlit("Partially outside ");
    if n > 0 {
        lemma_region_scan_partial(regions, address, size, n - 1);
        let r = regions[n - 1];
        let p = region_scan(regions, address, size, n - 1);
        let q = region_scan(regions, address, size, n);
        assert(partial_note(r.name@)[0] == 'P');
        assert forall|k: int| 0 <= k < q.0.len() implies (#[trigger] q.0[k]).len() > 0 && q.0[k][0] == 'P' by {
            if k < p.0.len() {
                assert(q.0[k] == p.0[k]);
            }
        }
    }
}

/// Two distinct segments, under distinct names: each carries "Overlaps with" the
/// other's name exactly when their half-open ranges meet.
pub proof fn overlap_reported_iff_ranges_meet(
    segs: Seq<MemorySegment>,
    regions: Seq<MemoryRegion>,
    a: int,
    b: int,
)
    requires
        names_distinct(segs),
        0 <= a < segs.len(),
        0 <= b < segs.len(),
        a != b,
    ensures
        segment_conflicts(segs, regions, a).contains(overlap_note(segs[b].name@)) <==> segments_meet(
            segs[a],
            segs[b],
        ),
        segment_conflicts(segs, regions, b).contains(overlap_note(segs[a].name@)) <==> segments_meet(
            segs[a],
            segs[b],
        ),
{
    lemma_one_side(segs, regions, a, b);
    lemma_one_side(segs, regions, b, a);
}

proof fn lemma_one_side(segs: Seq<MemorySegment>, regions: Seq<MemoryRegion>, a: int, b: int)
    requires
        names_distinct(segs),
        0 <= a < segs.len(),
        0 <= b < segs.len(),
        a != b,
    ensures
        segment_conflicts(segs, regions, a).contains(overlap_note(segs[b].name@)) <==> segments_meet(
            segs[a],
            segs[b],
        ),
{
    reveal_strlit("Overlaps with ");
    reveal_strlit("Not in any defined memory region");
    let n = segs.len() as int;
    lemma_overlap_notes_hold(segs, a, b, n);
    let ov = overlap_notes(segs, a, n);
    let address = segs[a].address as int;
    let size = segs[a].size as int;
    let rn = region_notes(regions, address, size);
    lemma_region_scan_partial(regions, address, size, regions.len() as int);
    let all = segment_conflicts(segs, regions, a);
    let x = overlap_note(segs[b].name@);
    assert(x[0] == 'O');
    assert(forall|k: int| 0 <= k < rn.len() ==> (#[trigger] rn[k]).len() > 0 && rn[k][0] != 'O');
    if ov.contains(x) {
        let w = choose|w: int| 0 <= w < ov.len() && ov[w] == x;
        assert(all[w] == x);
    }
    if all.contains(x) {
        let w = choose|w: int| 0 <= w < all.len() && all[w] == x;
        if w < ov.len() {
            assert(ov[w] == x);
        } else {
            assert(rn[w - ov.len()] == x);
        }
    }
}

proof fn lemma_scan_before_holder(regions: Seq<MemoryRegion>, address: int, size: int, k: int, n: int)
    requires
        0 <= k < regions.len(),
        0 <= n <= regions.len(),
        range_holds(regions[k].start as int, regions[k].size as int, address, size),
        forall|m: int|
            0 <= m < k ==> !ranges_meet(address, size, #[trigger] regions[m].start as int, regions[m].size as int),
        forall|m: int|
            0 <= m < k ==> !range_holds(#[trigger] regions[m].start as int, regions[m].size as int, address, size),
    ensures
        n <= k ==> region_scan(regions, address, size, n) == (Seq::<Seq<char>>::empty(), false, false),
        n > k ==> region_scan(regions, address, size, n) == (Seq::<Seq<char>>::empty(), true, true),
    decreases n,
{
    if n > 0 {
        lemma_scan_before_holder(regions, address, size, k, n - 1);
        if n - 1 < k {
            let r = regions[n - 1];
            assert(!ranges_meet(address, size, r.start as int, r.size as int));
            assert(!range_holds(r.start as int, r.size as int, address, size));
        }
    }
}

/// A segment held by exactly one region, where no region before that one in the
/// catalog meets it, gets no region diagnostic: neither "Partially outside" nor
/// "Not in any defined memory region".
pub proof fn held_segment_has_no_region_note(
    segs: Seq<MemorySegment>,
    regions: Seq<MemoryRegion>,
    i: int,
    k: int,
)
    requires
        0 <= i < segs.len(),
        0 <= k < regions.len(),
        range_holds(regions[k].start as int, regions[k].size as int, segs[i].address as int, segs[i].size as int),
        forall|m: int|
            0 <= m < regions.len() && m != k ==> !range_holds(
                #[trigger] regions[m].start as int,
                regions[m].size as int,
                segs[i].address as int,
                segs[i].size as int,
            ),
        forall|m: int|
            0 <= m < k ==> !ranges_meet(
                segs[i].address as int,
                segs[i].size as int,
                #[trigger] regions[m].start as int,
                regions[m].size as int,
            ),
    ensures
        region_notes(regions, segs[i].address as int, segs[i].size as int) == Seq::<Seq<char>>::empty(),
        segment_conflicts(segs, regions, i) == overlap_notes(segs, i, segs.len() as int),
{
    let address = segs[i].address as int;
    let size = segs[i].size as int;
    lemma_scan_before_holder(regions, address, size, k, regions.len() as int);
    assert(segment_conflicts(segs, regions, i) =~= overlap_notes(segs, i, segs.len() as int));
}


proof fn lemma_overlap_notes_layout(a: Seq<MemorySegment>, b: Seq<MemorySegment>, i: int, n: int)
    requires
        a.len() == b.len(),
        0 <= n <= a.len(),
        0 <= i < a.len(),
        forall|k: int| 0 <= k < a.len() ==> same_layout(#[trigger] a[k], b[k]),
    ensures
        overlap_notes(a, i, n) == overlap_notes(b, i, n),
    decreases n,
{
    if n > 0 {
        lemma_overlap_notes_layout(a, b, i, n - 1);
        assert(same_layout(a[n - 1], b[n - 1]));
        assert(same_layout(a[i], b[i]));
    }
}

/// The diagnostics of a segment depend on the names, addresses and sizes of the
/// segments alone.
pub proof fn conflicts_follow_layout(
    a: Seq<MemorySegment>,
    b: Seq<MemorySegment>,
    regions: Seq<MemoryRegion>,
    i: int,
)
    requires
        a.len() == b.len(),
        0 <= i < a.len(),
        forall|k: int| 0 <= k < a.len() ==> same_layout(#[trigger] a[k], b[k]),
    ensures
        segment_conflicts(a, regions, i) == segment_conflicts(b, regions, i),
{
    lemma_overlap_notes_layout(a, b, i, a.len() as int);
    assert(same_layout(a[i], b[i]));
}
} // verus!
