//! Bookkeeping of which milestones were synchronized: the completed
//! milestones of a range, and the gaps between them.

use std::ops::RangeInclusive;
use vstd::prelude::*;

use crate::types::MilestoneIndex;

verus! {

/// A record indicating that a milestone is completed.
#[derive(Clone, Copy, Debug, PartialEq, Eq, Structural)]
pub struct SyncDocument {
    /// The index of the milestone that was completed.
    pub milestone_index: MilestoneIndex,
}

/// An aggregation type that represents the ranges of completed milestones and gaps.
#[derive(Debug, Clone)]
pub struct SyncData {
    /// The completed(synced and logged) milestones data
    pub completed: Vec<RangeInclusive<MilestoneIndex>>,
    /// Gaps/missings milestones data
    pub gaps: Vec<RangeInclusive<MilestoneIndex>>,
}

impl Default for SyncData {
    fn default() -> (r: Self)
        ensures
            r.completed@.len() == 0,
            r.gaps@.len() == 0,
    {
        SyncData { completed: Vec::new(), gaps: Vec::new() }
    }
}

/// The bounds of an inclusive range, as numbers.
pub open spec fn bounds(r: RangeInclusive<MilestoneIndex>) -> (int, int) {
    (r@.start.0 as int, r@.end.0 as int)
}

/// The bounds of each range of a list, as numbers.
pub open spec fn bounds_of(rs: Seq<RangeInclusive<MilestoneIndex>>) -> Seq<(int, int)> {
    rs.map_values(|r: RangeInclusive<MilestoneIndex>| bounds(r))
}

/// No range of the list was exhausted by iteration.
pub open spec fn all_fresh(rs: Seq<RangeInclusive<MilestoneIndex>>) -> bool {
    forall|i: int| 0 <= i < rs.len() ==> !(#[trigger] rs[i])@.exhausted
}

/// `x` lies in one of the ranges.
pub open spec fn in_runs(rs: Seq<(int, int)>, x: int) -> bool {
    exists|i: int| 0 <= i < rs.len() && #[trigger] rs[i].0 <= x && x <= rs[i].1
}

/// `x` is the index of one of the records.
pub open spec fn is_record(records: Seq<MilestoneIndex>, x: int) -> bool {
    exists|k: int| 0 <= k < records.len() && #[trigger] records[k].0 == x
}

/// `rs` lists, in increasing order, the maximal runs of consecutive numbers
/// of `lo ..= hi` whose being a record index equals `want`.
pub open spec fn is_run_cover(
    rs: Seq<(int, int)>,
    records: Seq<MilestoneIndex>,
    want: bool,
    lo: int,
    hi: int,
) -> bool {
    &&& forall|i: int| 0 <= i < rs.len() ==> lo <= (#[trigger] rs[i]).0 <= rs[i].1 <= hi
    &&& forall|i: int, j: int|
        0 <= i < j < rs.len() ==> (#[trigger] rs[i]).1 + 1 < (#[trigger] rs[j]).0
    &&& forall|x: int|
        lo <= x <= hi ==> (is_record(records, x) == want <==> #[trigger] in_runs(rs, x))
}

/// The records are sorted by index, hold no index twice, and lie in `start ..= end`.
pub open spec fn records_fit(records: Seq<MilestoneIndex>, start: int, end: int) -> bool {
    &&& forall|i: int, j: int|
        0 <= i < j < records.len() ==> (#[trigger] records[i]).0 < (#[trigger] records[j]).0
    &&& forall|i: int| 0 <= i < records.len() ==> start <= (#[trigger] records[i]).0 <= end
}

proof fn lemma_in_runs_push(rs: Seq<(int, int)>, p: (int, int), x: int)
    ensures
        in_runs(rs.push(p), x) == (in_runs(rs, x) || (p.0 <= x && x <= p.1)),
{
    let t = rs.push(p);
    if in_runs(rs, x) {
        let i = choose|i: int| 0 <= i < rs.len() && #[trigger] rs[i].0 <= x && x <= rs[i].1;
        assert(t[i] == rs[i]);
    }
    if p.0 <= x && x <= p.1 {
        assert(t[rs.len() as int] == p);
    }
    if in_runs(t, x) {
        let i = choose|i: int| 0 <= i < t.len() && #[trigger] t[i].0 <= x && x <= t[i].1;
        if i < rs.len() {
            assert(t[i] == rs[i]);
        }
    }
}

proof fn lemma_cover_empty(records: Seq<MilestoneIndex>, want: bool, lo: int)
    ensures
        is_run_cover(Seq::empty(), records, want, lo, lo - 1),
{
}

/// A cover of `lo ..= hi` is one of `lo ..= top` when no number of
/// `hi + 1 ..= top` is wanted.
proof fn lemma_cover_skip(
    rs: Seq<(int, int)>,
    records: Seq<MilestoneIndex>,
    want: bool,
    lo: int,
    hi: int,
    top: int,
)
    requires
        is_run_cover(rs, records, want, lo, hi),
        hi <= top,
        forall|x: int| hi < x <= top ==> is_record(records, x) != want,
    ensures
        is_run_cover(rs, records, want, lo, top),
{
    assert forall|x: int| lo <= x <= top implies (is_record(records, x) == want <==> #[trigger] in_runs(
        rs,
        x,
    )) by {
        if x > hi && in_runs(rs, x) {
            let i = choose|i: int| 0 <= i < rs.len() && #[trigger] rs[i].0 <= x && x <= rs[i].1;
        }
    }
}

/// Extends a cover of `lo ..= hi` by the numbers `hi + 1 ..= top`, of which
/// those from `a` on are wanted and the others are not.
proof fn lemma_cover_extend(
    rs: Seq<(int, int)>,
    records: Seq<MilestoneIndex>,
    want: bool,
    lo: int,
    hi: int,
    a: int,
    top: int,
)
    requires
        is_run_cover(rs, records, want, lo, hi),
        lo <= hi + 1 <= a <= top,
        forall|x: int| hi < x <= top ==> (is_record(records, x) == want <==> a <= x),
        rs.len() > 0 ==> rs.last().1 + 1 < a,
    ensures
        is_run_cover(rs.push((a, top)), records, want, lo, top),
{
    let t = rs.push((a, top));
    assert forall|x: int| lo <= x <= top implies (is_record(records, x) == want <==> #[trigger] in_runs(
        t,
        x,
    )) by {
        lemma_in_runs_push(rs, (a, top), x);
        if x > hi && in_runs(rs, x) {
            let i = choose|i: int| 0 <= i < rs.len() && #[trigger] rs[i].0 <= x && x <= rs[i].1;
        }
    }
    assert forall|i: int, j: int| 0 <= i < j < t.len() implies (#[trigger] t[i]).1 + 1 < (
    #[trigger] t[j]).0 by {
        if j == rs.len() {
            if i < rs.len() - 1 {
                assert(rs[i].1 + 1 < rs[rs.len() - 1].0);
            }
        }
    }
}

/// Grows the last run of a cover of `lo ..= hi`, which ends at `hi`, up to
/// `top`, where all of `hi + 1 ..= top` are wanted.
proof fn lemma_cover_grow(
    rs: Seq<(int, int)>,
    records: Seq<MilestoneIndex>,
    want: bool,
    lo: int,
    hi: int,
    top: int,
)
    requires
        is_run_cover(rs, records, want, lo, hi),
        rs.len() > 0,
        rs.last().1 == hi,
        hi <= top,
        forall|x: int| hi < x <= top ==> is_record(records, x) == want,
    ensures
        is_run_cover(rs.update(rs.len() - 1, (rs.last().0, top)), records, want, lo, top),
{
    let n = rs.len() - 1;
    let t = rs.update(n, (rs.last().0, top));
    assert forall|x: int| lo <= x <= top implies (is_record(records, x) == want <==> #[trigger] in_runs(
        t,
        x,
    )) by {
        if x <= hi {
            if in_runs(rs, x) {
                let i = choose|i: int| 0 <= i < rs.len() && #[trigger] rs[i].0 <= x && x <= rs[i].1;
                assert(t[i].0 <= x && x <= t[i].1);
            }
            if in_runs(t, x) {
                let i = choose|i: int| 0 <= i < t.len() && #[trigger] t[i].0 <= x && x <= t[i].1;
                if i == n {
                    if x > rs[n].1 {
                        assert(false);
                    }
                    assert(rs[n].0 <= x && x <= rs[n].1);
                } else {
                    assert(rs[i].0 <= x && x <= rs[i].1);
                }
            }
        } else {
            assert(t[n].0 <= x && x <= t[n].1);
        }
    }
}

/// The last run of a cover of `lo ..= hi` ends before `hi` when `hi` is not wanted.
proof fn lemma_cover_last_below(
    rs: Seq<(int, int)>,
    records: Seq<MilestoneIndex>,
    want: bool,
    lo: int,
    hi: int,
)
    requires
        is_run_cover(rs, records, want, lo, hi),
        rs.len() > 0,
        is_record(records, hi) != want,
    ensures
        rs.last().1 < hi,
{
    let n = rs.len() - 1;
    assert(rs[n].0 <= rs[n].1 <= hi);
    if rs[n].1 == hi {
        assert(in_runs(rs, hi));
    }
}

/// Around the record at `i`: it is a record, and no number between it and
/// the record before it is one.
proof fn lemma_records_around(records: Seq<MilestoneIndex>, lo: int, hi: int, i: int)
    requires
        records_fit(records, lo, hi),
        0 <= i < records.len(),
    ensures
        is_record(records, records[i].0 as int),
        forall|x: int|
            (i == 0 || records[i - 1].0 < x) && x < records[i].0 ==> !#[trigger] is_record(
                records,
                x,
            ),
        forall|x: int| x < lo ==> !#[trigger] is_record(records, x),
{
    assert forall|x: int|
        (i == 0 || records[i - 1].0 < x) && x < records[i].0 implies !#[trigger] is_record(
        records,
        x,
    ) by {
        if is_record(records, x) {
            let k = choose|k: int| 0 <= k < records.len() && #[trigger] records[k].0 == x;
            if k < i && i > 0 {
                assert(records[k].0 <= records[i - 1].0);
            }
        }
    }
    assert forall|x: int| x < lo implies !#[trigger] is_record(records, x) by {
        if is_record(records, x) {
            let k = choose|k: int| 0 <= k < records.len() && #[trigger] records[k].0 == x;
        }
    }
}

/// No number past the last record is a record.
proof fn lemma_records_past_last(records: Seq<MilestoneIndex>, lo: int, hi: int)
    requires
        records_fit(records, lo, hi),
    ensures
        forall|x: int|
            (records.len() == 0 || records.last().0 < x) ==> !#[trigger] is_record(records, x),
{
    assert forall|x: int| (records.len() == 0 || records.last().0 < x) implies !#[trigger] is_record(
        records,
        x,
    ) by {
        if is_record(records, x) {
            let k = choose|k: int| 0 <= k < records.len() && #[trigger] records[k].0 == x;
            if k < records.len() - 1 {
                assert(records[k].0 < records[records.len() - 1].0);
            }
        }
    }
}

/// Every number of `start ..= end` lies either in a completed range or in
/// a gap, and never in both.
pub proof fn lemma_sync_data_partition(
    data: SyncData,
    records: Seq<MilestoneIndex>,
    start: int,
    end: int,
    x: int,
)
    requires
        is_run_cover(bounds_of(data.completed@), records, true, start, end),
        is_run_cover(bounds_of(data.gaps@), records, false, start, end),
        start <= x <= end,
    ensures
        in_runs(bounds_of(data.completed@), x) != in_runs(bounds_of(data.gaps@), x),
{
}

/// A cover of `lo ..= hi` without its first run covers what follows that run.
proof fn lemma_cover_tail(rs: Seq<(int, int)>, records: Seq<MilestoneIndex>, want: bool, lo: int, hi: int)
    requires
        is_run_cover(rs, records, want, lo, hi),
        rs.len() > 0,
    ensures
        is_run_cover(rs.drop_first(), records, want, rs[0].1 + 1, hi),
{
    let t = rs.drop_first();
    assert forall|i: int| 0 <= i < t.len() implies rs[0].1 + 1 <= (#[trigger] t[i]).0 <= t[i].1 <= hi by {
        assert(t[i] == rs[i + 1]);
        assert(rs[0].1 + 1 < rs[i + 1].0);
    }
    assert forall|i: int, j: int| 0 <= i < j < t.len() implies (#[trigger] t[i]).1 + 1 < (#[trigger] t[j]).0 by {
        assert(t[i] == rs[i + 1] && t[j] == rs[j + 1]);
    }
    assert forall|x: int| rs[0].1 + 1 <= x <= hi implies (is_record(records, x) == want <==> #[trigger] in_runs(
        t,
        x,
    )) by {
        if in_runs(rs, x) {
            let i = choose|i: int| 0 <= i < rs.len() && #[trigger] rs[i].0 <= x && x <= rs[i].1;
            assert(i > 0);
            assert(t[i - 1] == rs[i]);
        }
        if in_runs(t, x) {
            let i = choose|i: int| 0 <= i < t.len() && #[trigger] t[i].0 <= x && x <= t[i].1;
            assert(t[i] == rs[i + 1]);
        }
    }
}

/// A range has one cover only: the runs of a cover are the maximal runs of
/// wanted numbers, so the completed ranges and the gaps of a range are fixed
/// by its records.
pub proof fn lemma_run_cover_unique(
    a: Seq<(int, int)>,
    b: Seq<(int, int)>,
    records: Seq<MilestoneIndex>,
    want: bool,
    lo: int,
    hi: int,
)
    requires
        is_run_cover(a, records, want, lo, hi),
        is_run_cover(b, records, want, lo, hi),
    ensures
        a == b,
    decreases a.len() + b.len(),
{
    if a.len() == 0 || b.len() == 0 {
        if a.len() > 0 {
            assert(in_runs(a, a[0].0));
            assert(!in_runs(b, a[0].0));
        }
        if b.len() > 0 {
            assert(in_runs(b, b[0].0));
            assert(!in_runs(a, b[0].0));
        }
        assert(a =~= b);
    } else {
        // The first runs start at the first wanted number.
        assert(in_runs(a, a[0].0));
        assert(in_runs(b, b[0].0));
        assert(in_runs(b, a[0].0));
        assert(in_runs(a, b[0].0));
        let ka = choose|i: int| 0 <= i < b.len() && #[trigger] b[i].0 <= a[0].0 && a[0].0 <= b[i].1;
        let kb = choose|i: int| 0 <= i < a.len() && #[trigger] a[i].0 <= b[0].0 && b[0].0 <= a[i].1;
        if ka > 0 {
            assert(b[0].1 + 1 < b[ka].0);
        }
        if kb > 0 {
            assert(a[0].1 + 1 < a[kb].0);
        }
        assert(a[0].0 == b[0].0);
        // The first runs end before the first number past them that is not wanted.
        if a[0].1 < b[0].1 {
            let x = a[0].1 + 1;
            assert(b[0].0 <= x && x <= b[0].1);
            assert(in_runs(b, x));
            assert(in_runs(a, x));
            let k = choose|i: int| 0 <= i < a.len() && #[trigger] a[i].0 <= x && x <= a[i].1;
            if k > 0 {
                assert(a[0].1 + 1 < a[k].0);
            }
        }
        if b[0].1 < a[0].1 {
            let x = b[0].1 + 1;
            assert(a[0].0 <= x && x <= a[0].1);
            assert(in_runs(a, x));
            assert(in_runs(b, x));
            let k = choose|i: int| 0 <= i < b.len() && #[trigger] b[i].0 <= x && x <= b[i].1;
            if k > 0 {
                assert(b[0].1 + 1 < b[k].0);
            }
        }
        assert(a[0] == b[0]);
        lemma_cover_tail(a, records, want, lo, hi);
        lemma_cover_tail(b, records, want, lo, hi);
        lemma_run_cover_unique(a.drop_first(), b.drop_first(), records, want, a[0].1 + 1, hi);
        assert(a =~= seq![a[0]] + a.drop_first());
        assert(b =~= seq![b[0]] + b.drop_first());
    }
}

proof fn lemma_bounds_push(rs: Seq<RangeInclusive<MilestoneIndex>>, r: RangeInclusive<MilestoneIndex>)
    ensures
        bounds_of(rs.push(r)) == bounds_of(rs).push(bounds(r)),
{
    assert(bounds_of(rs.push(r)) =~= bounds_of(rs).push(bounds(r)));
}

/// Computes the completed ranges and the gaps of `start ..= end` from the
/// sync records of that range, sorted by index.
pub fn collect_sync_data(start: MilestoneIndex, end: MilestoneIndex, records: &Vec<MilestoneIndex>) -> (r: SyncData)
    requires
        records_fit(records@, start.0 as int, end.0 as int),
    ensures
        all_fresh(r.completed@),
        all_fresh(r.gaps@),
        is_run_cover(bounds_of(r.completed@), records@, true, start.0 as int, end.0 as int),
        is_run_cover(bounds_of(r.gaps@), records@, false, start.0 as int, end.0 as int),
{
    let ghost recs = records@;
    let ghost lo = start.0 as int;
    let mut sync_data = SyncData::default();
    let mut last_record: Option<u32> = None;
    let mut run_start: u32 = 0;
    let mut i: usize = 0;
    proof {
        lemma_cover_empty(recs, true, lo);
        lemma_cover_empty(recs, false, lo);
    }
    while i < records.len()
        invariant
            recs == records@,
            records_fit(recs, lo, end.0 as int),
            lo == start.0,
            i <= records.len(),
            all_fresh(sync_data.completed@),
            all_fresh(sync_data.gaps@),
            last_record is None <==> i == 0,
            i == 0 ==> sync_data.completed@.len() == 0 && sync_data.gaps@.len() == 0,
            last_record matches Some(l) ==> {
                &&& l == recs[i - 1].0
                &&& lo <= run_start <= l
                &&& is_run_cover(
                    bounds_of(sync_data.completed@).push((run_start as int, l as int)),
                    recs,
                    true,
                    lo,
                    l as int,
                )
                &&& is_run_cover(bounds_of(sync_data.gaps@), recs, false, lo, l as int)
            },
        decreases records.len() - i,
    {
        let idx = records[i].0;
        proof {
            lemma_records_around(recs, lo, end.0 as int, i as int);
            lemma_cover_empty(recs, true, lo);
            lemma_cover_empty(recs, false, lo);
        }
        let ghost old_gaps = sync_data.gaps@;
        let ghost old_completed = sync_data.completed@;
        // Missing records go into gaps
        match last_record {
            Some(last) => {
                proof {
                    if old_gaps.len() > 0 {
                        lemma_cover_last_below(bounds_of(old_gaps), recs, false, lo, last as int);
                    }
                }
                if last + 1 < idx {
                    let gap = RangeInclusive::new(MilestoneIndex(last + 1), MilestoneIndex(idx - 1));
                    sync_data.gaps.push(gap);
                    proof {
                        lemma_bounds_push(old_gaps, gap);
                        lemma_cover_extend(bounds_of(old_gaps), recs, false, lo, last as int, last + 1, idx - 1);
                        lemma_cover_skip(bounds_of(sync_data.gaps@), recs, false, lo, idx - 1, idx as int);
                    }
                } else {
                    proof {
                        lemma_cover_skip(bounds_of(old_gaps), recs, false, lo, last as int, idx as int);
                    }
                }
                let ghost c = bounds_of(old_completed).push((run_start as int, last as int));
                if last + 1 == idx {
                    proof {
                        lemma_cover_grow(c, recs, true, lo, last as int, idx as int);
                        assert(c.update(c.len() - 1, (c.last().0, idx as int)) =~= bounds_of(old_completed).push(
                            (run_start as int, idx as int),
                        ));
                    }
                } else {
                    let done = RangeInclusive::new(MilestoneIndex(run_start), MilestoneIndex(last));
                    sync_data.completed.push(done);
                    run_start = idx;
                    proof {
                        lemma_bounds_push(old_completed, done);
                        lemma_cover_extend(c, recs, true, lo, last as int, idx as int, idx as int);
                    }
                }
            },
            None => {
                if start.0 < idx {
                    let gap = RangeInclusive::new(start, MilestoneIndex(idx - 1));
                    sync_data.gaps.push(gap);
                    proof {
                        lemma_bounds_push(old_gaps, gap);
                        lemma_cover_extend(bounds_of(old_gaps), recs, false, lo, lo - 1, lo, idx - 1);
                        lemma_cover_skip(bounds_of(sync_data.gaps@), recs, false, lo, idx - 1, idx as int);
                    }
                } else {
                    proof {
                        lemma_cover_skip(bounds_of(old_gaps), recs, false, lo, lo - 1, idx as int);
                    }
                }
                run_start = idx;
                proof {
                    lemma_cover_extend(bounds_of(old_completed), recs, true, lo, lo - 1, idx as int, idx as int);
                }
            },
        }
        last_record = Some(idx);
        i = i + 1;
    }
    proof {
        lemma_records_past_last(recs, lo, end.0 as int);
    }
    match last_record {
        Some(last) => {
            let ghost old_gaps = sync_data.gaps@;
            let ghost old_completed = sync_data.completed@;
            let done = RangeInclusive::new(MilestoneIndex(run_start), MilestoneIndex(last));
            sync_data.completed.push(done);
            proof {
                lemma_records_around(recs, lo, end.0 as int, i - 1);
                lemma_bounds_push(old_completed, done);
                lemma_cover_skip(bounds_of(sync_data.completed@), recs, true, lo, last as int, end.0 as int);
                if old_gaps.len() > 0 {
                    lemma_cover_last_below(bounds_of(old_gaps), recs, false, lo, last as int);
                }
            }
            if last < end.0 {
                let gap = RangeInclusive::new(MilestoneIndex(last + 1), end);
                sync_data.gaps.push(gap);
                proof {
                    lemma_bounds_push(old_gaps, gap);
                    lemma_cover_extend(bounds_of(old_gaps), recs, false, lo, last as int, last + 1, end.0 as int);
                }
            }
        },
        None => {
            proof {
                assert(bounds_of(sync_data.completed@) =~= Seq::empty());
                assert(bounds_of(sync_data.gaps@) =~= Seq::empty());
                if lo <= end.0 {
                    lemma_cover_skip(Seq::empty(), recs, true, lo, lo - 1, end.0 as int);
                }
            }
            if start.0 <= end.0 {
                let ghost old_gaps = sync_data.gaps@;
                let gap = RangeInclusive::new(start, end);
                sync_data.gaps.push(gap);
                proof {
                    assert(bounds_of(old_gaps) =~= Seq::empty());
                    lemma_bounds_push(old_gaps, gap);
                    lemma_cover_extend(bounds_of(old_gaps), recs, false, lo, lo - 1, lo, end.0 as int);
                }
            } else {
                assert(is_run_cover(bounds_of(sync_data.gaps@), recs, false, lo, end.0 as int));
            }
        },
    }
    sync_data
}

} // verus!
