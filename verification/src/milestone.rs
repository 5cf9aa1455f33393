//! The writes that storing a milestone's ledger updates takes, and their
//! order: the milestone itself is written last, as the checkpoint of
//! syncing.

use vstd::prelude::*;

verus! {

/// How many outputs one write inserts or updates at most.
pub const INSERT_BATCH_SIZE: usize = 1000;

/// One write of a milestone's data.
#[derive(Clone, Copy, Debug, PartialEq, Eq, Structural)]
pub enum MilestoneWrite {
    /// Inserts the created outputs `start..end` as unspent.
    InsertUnspent { start: usize, end: usize },
    /// Marks the consumed outputs `start..end` as spent.
    UpdateSpent { start: usize, end: usize },
    /// Stores the blocks of the milestone's cone.
    ConeBlocks,
    /// Stores the protocol parameters in force at the milestone.
    ProtocolParameters,
    /// Stores the node configuration at the milestone.
    NodeConfiguration,
    /// Moves the analytics on to the milestone.
    Analytics,
    /// Stores the milestone: the checkpoint of syncing.
    Milestone,
}

/// The batch writes for the items `start..n`, in batches of
/// `INSERT_BATCH_SIZE`: created outputs are inserted, consumed ones updated.
pub open spec fn batch_writes(start: nat, n: nat, created: bool) -> Seq<MilestoneWrite>
    decreases n - start,
{
    if start >= n {
        Seq::empty()
    } else {
        let end: nat = if start + INSERT_BATCH_SIZE < n {
            (start + INSERT_BATCH_SIZE) as nat
        } else {
            n
        };
        let w = if created {
            MilestoneWrite::InsertUnspent { start: start as usize, end: end as usize }
        } else {
            MilestoneWrite::UpdateSpent { start: start as usize, end: end as usize }
        };
        if end < n {
            seq![w] + batch_writes(end, n, created)
        } else {
            seq![w]
        }
    }
}

/// The writes of a milestone with `created` created and `consumed` consumed
/// outputs: the output batches (which may run at once), then the cone, the
/// protocol parameters, the node configuration, the analytics where they
/// are kept up, and last the milestone.
pub open spec fn milestone_writes_spec(created: nat, consumed: nat, analytics: bool) -> Seq<MilestoneWrite> {
    batch_writes(0, created, true) + batch_writes(0, consumed, false) + seq![
        MilestoneWrite::ConeBlocks,
        MilestoneWrite::ProtocolParameters,
        MilestoneWrite::NodeConfiguration,
    ] + if analytics {
        seq![MilestoneWrite::Analytics]
    } else {
        Seq::empty()
    } + seq![MilestoneWrite::Milestone]
}

proof fn lemma_batches_not_milestone(start: nat, n: nat, created: bool)
    ensures
        forall|i: int| 0 <= i < batch_writes(start, n, created).len() ==> !(#[trigger] batch_writes(start, n, created)[i] is Milestone),
    decreases n - start,
{
    if start + INSERT_BATCH_SIZE < n {
        lemma_batches_not_milestone((start + INSERT_BATCH_SIZE) as nat, n, created);
    }
}

fn push_batches(writes: &mut Vec<MilestoneWrite>, n: usize, created: bool)
    ensures
        final(writes)@ == old(writes)@ + batch_writes(0, n as nat, created),
{
    let ghost first = writes@;
    let mut start: usize = 0;
    proof {
        assert(writes@ + Seq::<MilestoneWrite>::empty() =~= writes@);
    }
    while start < n
        invariant
            start <= n,
            first + batch_writes(0, n as nat, created) == writes@ + batch_writes(start as nat, n as nat, created),
        decreases n - start,
    {
        let end = if n >= INSERT_BATCH_SIZE && start < n - INSERT_BATCH_SIZE {
            start + INSERT_BATCH_SIZE
        } else {
            n
        };
        let w = if created {
            MilestoneWrite::InsertUnspent { start, end }
        } else {
            MilestoneWrite::UpdateSpent { start, end }
        };
        let ghost before = writes@;
        writes.push(w);
        proof {
            if end < n {
                assert(batch_writes(start as nat, n as nat, created) == seq![w] + batch_writes(
                    end as nat,
                    n as nat,
                    created,
                ));
                assert(before + (seq![w] + batch_writes(end as nat, n as nat, created)) =~= writes@
                    + batch_writes(end as nat, n as nat, created));
            } else {
                assert(batch_writes(start as nat, n as nat, created) == seq![w]);
                assert(batch_writes(end as nat, n as nat, created) =~= Seq::<MilestoneWrite>::empty());
                assert(before + seq![w] =~= writes@ + batch_writes(end as nat, n as nat, created));
            }
        }
        start = end;
    }
    proof {
        assert(batch_writes(start as nat, n as nat, created) =~= Seq::<MilestoneWrite>::empty());
        assert(writes@ + Seq::<MilestoneWrite>::empty() =~= writes@);
    }
}

/// The writes that store a milestone's ledger updates, in the order they
/// are made: everything else is written before the milestone itself, which
/// comes last and once.
pub fn milestone_writes(created: usize, consumed: usize, analytics: bool) -> (r: Vec<MilestoneWrite>)
    ensures
        r@ == milestone_writes_spec(created as nat, consumed as nat, analytics),
        r@.len() > 0,
        r@.last() == MilestoneWrite::Milestone,
        forall|i: int| 0 <= i < r@.len() - 1 ==> !(#[trigger] r@[i] is Milestone),
{
    let mut writes: Vec<MilestoneWrite> = Vec::new();
    push_batches(&mut writes, created, true);
    push_batches(&mut writes, consumed, false);
    writes.push(MilestoneWrite::ConeBlocks);
    writes.push(MilestoneWrite::ProtocolParameters);
    writes.push(MilestoneWrite::NodeConfiguration);
    if analytics {
        writes.push(MilestoneWrite::Analytics);
    }
    writes.push(MilestoneWrite::Milestone);
    proof {
        let a = batch_writes(0, created as nat, true);
        let b = batch_writes(0, consumed as nat, false);
        lemma_batches_not_milestone(0, created as nat, true);
        lemma_batches_not_milestone(0, consumed as nat, false);
        assert(writes@ =~= milestone_writes_spec(created as nat, consumed as nat, analytics));
        assert forall|i: int| 0 <= i < writes@.len() - 1 implies !(#[trigger] writes@[i] is Milestone) by {
            if i < a.len() {
                assert(writes@[i] == a[i]);
            } else if i < a.len() + b.len() {
                assert(writes@[i] == b[i - a.len()]);
            }
        }
    }
    writes
}


/// Whether a write is a batch of the given kind: an insert of created
/// outputs, or an update of consumed ones.
pub open spec fn is_batch(w: MilestoneWrite, created: bool) -> bool {
    if created {
        w is InsertUnspent
    } else {
        w is UpdateSpent
    }
}

/// Where a batch write starts.
pub open spec fn batch_start(w: MilestoneWrite) -> int {
    match w {
        MilestoneWrite::InsertUnspent { start, end } => start as int,
        MilestoneWrite::UpdateSpent { start, end } => start as int,
        _ => 0,
    }
}

/// Where a batch write ends (exclusive).
pub open spec fn batch_end(w: MilestoneWrite) -> int {
    match w {
        MilestoneWrite::InsertUnspent { start, end } => end as int,
        MilestoneWrite::UpdateSpent { start, end } => end as int,
        _ => 0,
    }
}

/// The writes are batches of one kind that cover the items `from..n` in
/// order: none when there are no items; otherwise the first starts at
/// `from`, each holds at least one item and at most `INSERT_BATCH_SIZE`,
/// each starts where the one before it ends, and the last ends at `n`.
pub open spec fn covers(ws: Seq<MilestoneWrite>, from: int, n: int, created: bool) -> bool {
    &&& (ws.len() == 0 <==> from >= n)
    &&& forall|i: int|
        0 <= i < ws.len() ==> is_batch(#[trigger] ws[i], created) && batch_start(ws[i]) < batch_end(ws[i])
            <= batch_start(ws[i]) + INSERT_BATCH_SIZE
    &&& ws.len() > 0 ==> batch_start(ws[0]) == from && batch_end(ws.last()) == n
    &&& forall|i: int| 0 <= i < ws.len() - 1 ==> batch_end(#[trigger] ws[i]) == batch_start(ws[i + 1])
}

proof fn lemma_batches_cover(start: nat, n: nat, created: bool)
    requires
        n <= usize::MAX,
    ensures
        covers(batch_writes(start, n, created), start as int, n as int, created),
    decreases n - start,
{
    let ws = batch_writes(start, n, created);
    if start < n {
        let end: nat = if start + INSERT_BATCH_SIZE < n {
            (start + INSERT_BATCH_SIZE) as nat
        } else {
            n
        };
        if end < n {
            lemma_batches_cover(end, n, created);
            let rest = batch_writes(end, n, created);
            assert(ws == seq![ws[0]] + rest);
            assert forall|i: int| 0 <= i < ws.len() - 1 implies batch_end(#[trigger] ws[i]) == batch_start(
                ws[i + 1],
            ) by {
                if i > 0 {
                    assert(ws[i] == rest[i - 1]);
                    assert(ws[i + 1] == rest[i]);
                }
            }
            assert forall|i: int| 0 <= i < ws.len() implies is_batch(#[trigger] ws[i], created) && batch_start(
                ws[i],
            ) < batch_end(ws[i]) <= batch_start(ws[i]) + INSERT_BATCH_SIZE by {
                if i > 0 {
                    assert(ws[i] == rest[i - 1]);
                }
            }
            assert(ws.last() == rest.last());
        }
    }
}

/// The writes that come after the batches, in order.
pub open spec fn closing_writes(analytics: bool) -> Seq<MilestoneWrite> {
    seq![MilestoneWrite::ConeBlocks, MilestoneWrite::ProtocolParameters, MilestoneWrite::NodeConfiguration] + if analytics {
        seq![MilestoneWrite::Analytics]
    } else {
        Seq::empty()
    } + seq![MilestoneWrite::Milestone]
}

/// The writes of a milestone are: inserts that cover all its created
/// outputs, then updates that cover all its consumed outputs, each in
/// consecutive batches of at most `INSERT_BATCH_SIZE`, and then the closing
/// writes, the milestone last.
pub proof fn lemma_milestone_writes_cover(created: nat, consumed: nat, analytics: bool)
    requires
        created <= usize::MAX,
        consumed <= usize::MAX,
    ensures
        exists|i: int, j: int|
            #![trigger milestone_writes_spec(created, consumed, analytics).subrange(0, i), milestone_writes_spec(created, consumed, analytics).subrange(i, j)]
            0 <= i <= j <= milestone_writes_spec(created, consumed, analytics).len() && covers(
                milestone_writes_spec(created, consumed, analytics).subrange(0, i),
                0,
                created as int,
                true,
            ) && covers(
                milestone_writes_spec(created, consumed, analytics).subrange(i, j),
                0,
                consumed as int,
                false,
            ) && milestone_writes_spec(created, consumed, analytics).subrange(
                j,
                milestone_writes_spec(created, consumed, analytics).len() as int,
            ) == closing_writes(analytics),
{
    let w = milestone_writes_spec(created, consumed, analytics);
    let a = batch_writes(0, created, true);
    let b = batch_writes(0, consumed, false);
    lemma_batches_cover(0, created, true);
    lemma_batches_cover(0, consumed, false);
    let i = a.len() as int;
    let j = (a.len() + b.len()) as int;
    assert(w =~= a + b + closing_writes(analytics));
    assert(w.subrange(0, i) =~= a);
    assert(w.subrange(i, j) =~= b);
    assert(w.subrange(j, w.len() as int) =~= closing_writes(analytics));
}

} // verus!
