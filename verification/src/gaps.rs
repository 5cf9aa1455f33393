//! The gaps in the synchronized milestones: ranges of milestone indices,
//! kept as a map from the first index of each range to its last.

use std::collections::HashMap;
use vstd::prelude::*;

verus! {

broadcast use vstd::std_specs::hash::group_hash_axioms;

/// `x` lies in one of the gaps.
pub open spec fn covers(gaps: Map<u32, u32>, x: int) -> bool {
    exists|start: u32| #[trigger] gaps.contains_key(start) && start <= x <= gaps[start]
}

/// No two gaps share an index.
pub open spec fn disjoint(gaps: Map<u32, u32>) -> bool {
    forall|a: u32, b: u32|
        #[trigger] gaps.contains_key(a) && #[trigger] gaps.contains_key(b) && a != b ==> gaps[a] < b
            || gaps[b] < a
}

/// The gaps once milestone `index`, which lies in the gap from `start` to
/// `end`, is completed: that gap is replaced by the parts of it before and
/// after `index` that are not empty.
pub open spec fn split_spec(gaps: Map<u32, u32>, start: u32, end: u32, index: u32) -> Map<u32, u32> {
    let without = gaps.remove(start);
    let with_before = if start <= index - 1 {
        without.insert(start, (index - 1) as u32)
    } else {
        without
    };
    if index + 1 <= end {
        with_before.insert((index + 1) as u32, end)
    } else {
        with_before
    }
}

/// Replaces the gap from `start` to `end` by its parts before and after
/// `index`, where they are not empty.
pub fn complete_milestone_in(gaps: &mut HashMap<u32, u32>, start: u32, end: u32, index: u32)
    requires
        0 < index < u32::MAX,
    ensures
        final(gaps)@ == split_spec(old(gaps)@, start, end, index),
{
    gaps.remove(&start);
    let (rec1_start, rec1_end) = (start, index - 1);
    let (rec2_start, rec2_end) = (index + 1, end);
    if rec1_start <= rec1_end {
        gaps.insert(rec1_start, rec1_end);
    }
    if rec2_start <= rec2_end {
        gaps.insert(rec2_start, rec2_end);
    }
}

/// Records the gap from `start` to `end`, in place of any gap that starts
/// at `start`.
pub fn insert_gap_in(gaps: &mut HashMap<u32, u32>, start: u32, end: u32)
    ensures
        final(gaps)@ == old(gaps)@.insert(start, end),
{
    gaps.insert(start, end);
}

/// Completing a milestone that lies in a gap removes exactly that milestone
/// from the gaps, and the gaps stay disjoint.
pub proof fn lemma_complete_milestone(gaps: Map<u32, u32>, start: u32, end: u32, index: u32, x: int)
    requires
        disjoint(gaps),
        gaps.contains_key(start),
        gaps[start] == end,
        start <= index <= end,
        0 < index < u32::MAX,
    ensures
        covers(split_spec(gaps, start, end, index), x) <==> (covers(gaps, x) && x != index),
        disjoint(split_spec(gaps, start, end, index)),
{
    let r = split_spec(gaps, start, end, index);
    if covers(gaps, x) && x != index {
        let k = choose|k: u32| #[trigger] gaps.contains_key(k) && k <= x <= gaps[k];
        if k == start {
            if x < index {
                assert(r.contains_key(start) && start <= x <= r[start]);
            } else {
                assert(r.contains_key((index + 1) as u32) && index + 1 <= x <= r[(index + 1) as u32]);
            }
        } else {
            assert(gaps[k] < start || end < k);
            assert(r.contains_key(k) && r[k] == gaps[k]);
        }
    }
    if covers(r, x) {
        let k = choose|k: u32| #[trigger] r.contains_key(k) && k <= x <= r[k];
        if k == start {
            assert(x < index);
            assert(covers(gaps, x));
        } else if k == index + 1 && index + 1 <= end {
            assert(index < x <= end);
            assert(covers(gaps, x));
        } else {
            assert(gaps.contains_key(k) && r[k] == gaps[k]);
            assert(gaps[k] < start || end < k);
        }
    }
    assert forall|a: u32, b: u32|
        #[trigger] r.contains_key(a) && #[trigger] r.contains_key(b) && a != b implies r[a] < b || r[b] < a by {
        if a != start && a != index + 1 {
            assert(gaps.contains_key(a) && r[a] == gaps[a]);
        }
        if b != start && b != index + 1 {
            assert(gaps.contains_key(b) && r[b] == gaps[b]);
        }
        if a != start && a != index + 1 {
            assert(gaps[a] < start || end < a);
        }
        if b != start && b != index + 1 {
            assert(gaps[b] < start || end < b);
        }
    }
}

} // verus!
