//! Assembling the ledger updates of a milestone from the stream of updates
//! that a node sends: a `Begin` marker, the consumed and created outputs, and
//! an `End` marker.

use vstd::prelude::*;

use crate::types::MilestoneIndex;

verus! {

/// The marker that opens or closes the ledger updates of a milestone.
#[derive(Clone, Copy, Debug, PartialEq, Eq, Structural)]
pub struct LedgerUpdateMarker {
    /// The milestone the updates belong to.
    pub milestone_index: MilestoneIndex,
    /// How many outputs the milestone created.
    pub created_count: usize,
    /// How many outputs the milestone consumed.
    pub consumed_count: usize,
}

/// One item of the update stream, as it reaches the assembler: outputs
/// are already converted, or the conversion's error is carried.
pub enum LedgerUpdateEvent<O, S, E> {
    /// The updates of a milestone begin.
    Begin(LedgerUpdateMarker),
    /// An output was consumed.
    Consumed(Result<S, E>),
    /// An output was created.
    Created(Result<O, E>),
    /// The updates of a milestone end.
    End(LedgerUpdateMarker),
    /// The source stream failed.
    Failed(E),
    /// The source stream has ended.
    Finished,
}

/// The ledger updates of one milestone.
pub struct LedgerUpdateRecord<O, S> {
    /// The milestone the updates belong to.
    pub milestone_index: MilestoneIndex,
    /// The outputs the milestone created.
    pub created: Vec<O>,
    /// The outputs the milestone consumed.
    pub consumed: Vec<S>,
}

/// The record of a milestone as mathematical values.
pub struct RecordView<O, S> {
    pub milestone_index: MilestoneIndex,
    pub created: Seq<O>,
    pub consumed: Seq<S>,
}

impl<O, S> View for LedgerUpdateRecord<O, S> {
    type V = RecordView<O, S>;

    open spec fn view(&self) -> RecordView<O, S> {
        RecordView { milestone_index: self.milestone_index, created: self.created@, consumed: self.consumed@ }
    }
}

/// The errors of the update stream.
pub enum InxError<E> {
    /// The number of updates did not match what the markers announced.
    InvalidLedgerUpdateCount { received: usize, expected: usize },
    /// An update came outside of a milestone's `Begin` and `End`.
    InvalidMilestoneState,
    /// The source stream, or the conversion of an output, failed.
    Inx(E),
}

/// What one event yields, as mathematical values. The `expected` count of
/// a count mismatch is left out.
pub enum Outcome<O, S, E> {
    /// Nothing is yielded yet: the source is polled again.
    Pending,
    /// The stream has ended.
    Ended,
    /// The updates of a milestone are complete.
    Complete(RecordView<O, S>),
    /// The number of updates did not match, `received` of them having come.
    CountMismatch(nat),
    /// An update came outside of a milestone.
    InvalidState,
    /// The source failed.
    Source(E),
}

/// A stream of the ledger updates of whole milestones, assembled from the
/// stream `inner` of single updates.
#[verifier::reject_recursive_types(O)]
#[verifier::reject_recursive_types(S)]
pub struct LedgerUpdateStream<St, O, S> {
    inner: St,
    record: Option<LedgerUpdateRecord<O, S>>,
}

/// The record that an event leaves in place, and what it yields.
pub open spec fn step<O, S, E>(
    record: Option<RecordView<O, S>>,
    event: LedgerUpdateEvent<O, S, E>,
) -> (Option<RecordView<O, S>>, Outcome<O, S, E>) {
    match event {
        LedgerUpdateEvent::Begin(marker) => match record {
            Some(rec) => (None, Outcome::CountMismatch(rec.consumed.len() + rec.created.len())),
            None => (
                Some(RecordView { milestone_index: marker.milestone_index, created: seq![], consumed: seq![] }),
                Outcome::Pending,
            ),
        },
        LedgerUpdateEvent::Consumed(res) => match record {
            Some(rec) => match res {
                Ok(s) => (Some(RecordView { consumed: rec.consumed.push(s), ..rec }), Outcome::Pending),
                Err(e) => (record, Outcome::Source(e)),
            },
            None => (record, Outcome::InvalidState),
        },
        LedgerUpdateEvent::Created(res) => match record {
            Some(rec) => match res {
                Ok(o) => (Some(RecordView { created: rec.created.push(o), ..rec }), Outcome::Pending),
                Err(e) => (record, Outcome::Source(e)),
            },
            None => (record, Outcome::InvalidState),
        },
        LedgerUpdateEvent::End(marker) => match record {
            Some(rec) => if rec.created.len() != marker.created_count || rec.consumed.len()
                != marker.consumed_count {
                (None, Outcome::CountMismatch(rec.consumed.len() + rec.created.len()))
            } else {
                (None, Outcome::Complete(rec))
            },
            None => (record, Outcome::InvalidState),
        },
        LedgerUpdateEvent::Failed(e) => (record, Outcome::Source(e)),
        LedgerUpdateEvent::Finished => match record {
            Some(rec) => (None, Outcome::CountMismatch(rec.consumed.len() + rec.created.len())),
            None => (record, Outcome::Ended),
        },
    }
}

/// What a result of [`LedgerUpdateStream::handle`] yields, as mathematical values.
pub open spec fn outcome_of<O, S, E>(
    r: Option<Option<Result<LedgerUpdateRecord<O, S>, InxError<E>>>>,
) -> Outcome<O, S, E> {
    match r {
        None => Outcome::Pending,
        Some(None) => Outcome::Ended,
        Some(Some(Ok(rec))) => Outcome::Complete(rec@),
        Some(Some(Err(InxError::InvalidLedgerUpdateCount { received, expected: _ }))) => Outcome::CountMismatch(
            received as nat,
        ),
        Some(Some(Err(InxError::InvalidMilestoneState))) => Outcome::InvalidState,
        Some(Some(Err(InxError::Inx(e)))) => Outcome::Source(e),
    }
}

/// The record as mathematical values.
pub open spec fn record_view<O, S>(record: Option<LedgerUpdateRecord<O, S>>) -> Option<RecordView<O, S>> {
    match record {
        Some(rec) => Some(rec@),
        None => None,
    }
}

/// The number of updates a record holds.
pub open spec fn received_of<O, S>(record: Option<RecordView<O, S>>) -> nat {
    match record {
        Some(rec) => rec.consumed.len() + rec.created.len(),
        None => 0,
    }
}

/// The counts of an `End` marker add up within `usize` where they are added:
/// when a record is open and its updates do not match them.
pub open spec fn end_counts_fit<O, S>(record: Option<RecordView<O, S>>, m: LedgerUpdateMarker) -> bool {
    match record {
        Some(rec) => (rec.created.len() != m.created_count || rec.consumed.len() != m.consumed_count)
            ==> m.consumed_count + m.created_count <= usize::MAX,
        None => true,
    }
}

/// An event the assembler can take in the given state without an
/// arithmetic overflow: a record holds fewer than `usize::MAX` updates
/// before one more comes, and the counts of an `End` marker that does not
/// match the record add up within `usize`.
pub open spec fn event_fits<O, S, E>(
    record: Option<RecordView<O, S>>,
    event: LedgerUpdateEvent<O, S, E>,
) -> bool {
    &&& received_of(record) <= usize::MAX
    &&& (event matches LedgerUpdateEvent::Consumed(Ok(_)) ==> received_of(record) < usize::MAX)
    &&& (event matches LedgerUpdateEvent::Created(Ok(_)) ==> received_of(record) < usize::MAX)
    &&& (event matches LedgerUpdateEvent::End(m) ==> end_counts_fit(record, m))
}

/// The record left in place and the outcomes yielded by a run of events.
pub open spec fn run<O, S, E>(
    record: Option<RecordView<O, S>>,
    events: Seq<LedgerUpdateEvent<O, S, E>>,
) -> (Option<RecordView<O, S>>, Seq<Outcome<O, S, E>>)
    decreases events.len(),
{
    if events.len() == 0 {
        (record, seq![])
    } else {
        let (next, outcome) = step(record, events[0]);
        let (last, outcomes) = run(next, events.drop_first());
        (last, seq![outcome] + outcomes)
    }
}

/// The event carries a converted output, consumed or created.
pub open spec fn is_update<O, S, E>(event: LedgerUpdateEvent<O, S, E>) -> bool {
    ||| event matches LedgerUpdateEvent::Consumed(Ok(_))
    ||| event matches LedgerUpdateEvent::Created(Ok(_))
}

/// The created outputs that a run of events carries, in order.
pub open spec fn created_of<O, S, E>(events: Seq<LedgerUpdateEvent<O, S, E>>) -> Seq<O>
    decreases events.len(),
{
    if events.len() == 0 {
        seq![]
    } else {
        let rest = created_of(events.drop_first());
        match events[0] {
            LedgerUpdateEvent::Created(Ok(o)) => seq![o] + rest,
            _ => rest,
        }
    }
}

/// The consumed outputs that a run of events carries, in order.
pub open spec fn consumed_of<O, S, E>(events: Seq<LedgerUpdateEvent<O, S, E>>) -> Seq<S>
    decreases events.len(),
{
    if events.len() == 0 {
        seq![]
    } else {
        let rest = consumed_of(events.drop_first());
        match events[0] {
            LedgerUpdateEvent::Consumed(Ok(s)) => seq![s] + rest,
            _ => rest,
        }
    }
}

/// A run of `n` events that yield nothing.
pub open spec fn pending<O, S, E>(n: nat) -> Seq<Outcome<O, S, E>> {
    Seq::new(n, |i: int| Outcome::Pending)
}

proof fn lemma_run_append<O, S, E>(
    record: Option<RecordView<O, S>>,
    a: Seq<LedgerUpdateEvent<O, S, E>>,
    b: Seq<LedgerUpdateEvent<O, S, E>>,
)
    ensures
        run(record, a + b) == (run(run(record, a).0, b).0, run(record, a).1 + run(run(record, a).0, b).1),
    decreases a.len(),
{
    if a.len() == 0 {
        assert(a + b =~= b);
        assert(run(record, a).1 + run(record, b).1 =~= run(record, b).1);
    } else {
        let (next, outcome) = step(record, a[0]);
        assert((a + b).drop_first() =~= a.drop_first() + b);
        lemma_run_append(next, a.drop_first(), b);
        let (mid, os1) = run(next, a.drop_first());
        let (last, os2) = run(mid, b);
        assert(seq![outcome] + (os1 + os2) =~= (seq![outcome] + os1) + os2);
    }
}

proof fn lemma_run_updates<O, S, E>(rec: RecordView<O, S>, items: Seq<LedgerUpdateEvent<O, S, E>>)
    requires
        forall|i: int| 0 <= i < items.len() ==> is_update(#[trigger] items[i]),
    ensures
        run(Some(rec), items) == (
            Some(
                RecordView {
                    milestone_index: rec.milestone_index,
                    created: rec.created + created_of(items),
                    consumed: rec.consumed + consumed_of(items),
                },
            ),
            pending::<O, S, E>(items.len()),
        ),
    decreases items.len(),
{
    if items.len() == 0 {
        assert(rec.created + created_of(items) =~= rec.created);
        assert(rec.consumed + consumed_of(items) =~= rec.consumed);
        assert(pending::<O, S, E>(0) =~= seq![]);
    } else {
        assert(is_update(items[0]));
        let rest = items.drop_first();
        assert forall|i: int| 0 <= i < rest.len() implies is_update(#[trigger] rest[i]) by {
            assert(rest[i] == items[i + 1]);
        }
        let next = step(Some(rec), items[0]).0;
        let nrec = next.unwrap();
        lemma_run_updates(nrec, rest);
        match items[0] {
            LedgerUpdateEvent::Created(Ok(o)) => {
                assert(rec.created + created_of(items) =~= rec.created.push(o) + created_of(rest));
                assert(rec.consumed + consumed_of(items) =~= rec.consumed + consumed_of(rest));
            },
            LedgerUpdateEvent::Consumed(Ok(s)) => {
                assert(rec.consumed + consumed_of(items) =~= rec.consumed.push(s) + consumed_of(rest));
                assert(rec.created + created_of(items) =~= rec.created + created_of(rest));
            },
            _ => {},
        }
        assert(seq![Outcome::<O, S, E>::Pending] + pending::<O, S, E>(rest.len()) =~= pending::<O, S, E>(
            items.len(),
        ));
    }
}

/// A milestone's updates framed by its two markers, with as many created
/// and consumed outputs as the markers announce, yield nothing until the
/// `End` marker, which yields the record of those outputs in the order they
/// came; the stream is then in no milestone again.
pub proof fn lemma_milestone_assembled<O, S, E>(
    marker: LedgerUpdateMarker,
    items: Seq<LedgerUpdateEvent<O, S, E>>,
)
    requires
        forall|i: int| 0 <= i < items.len() ==> is_update(#[trigger] items[i]),
        created_of(items).len() == marker.created_count,
        consumed_of(items).len() == marker.consumed_count,
    ensures
        run(
            None,
            seq![LedgerUpdateEvent::Begin(marker)] + items + seq![LedgerUpdateEvent::End(marker)],
        ) == (
            None::<RecordView<O, S>>,
            pending::<O, S, E>(items.len() + 1).push(
                Outcome::Complete(
                    RecordView {
                        milestone_index: marker.milestone_index,
                        created: created_of(items),
                        consumed: consumed_of(items),
                    },
                ),
            ),
        ),
{
    let begin = seq![LedgerUpdateEvent::<O, S, E>::Begin(marker)];
    let end = seq![LedgerUpdateEvent::<O, S, E>::End(marker)];
    let empty = RecordView::<O, S> { milestone_index: marker.milestone_index, created: seq![], consumed: seq![] };
    lemma_run_append(None, begin + items, end);
    lemma_run_append(None, begin, items);
    assert(run(None, begin) == (Some(empty), seq![Outcome::<O, S, E>::Pending])) by {
        reveal_with_fuel(run, 2);
        assert(begin.drop_first() =~= Seq::<LedgerUpdateEvent<O, S, E>>::empty());
        assert(seq![Outcome::<O, S, E>::Pending] + Seq::<Outcome<O, S, E>>::empty() =~= seq![
            Outcome::<O, S, E>::Pending]);
    }
    lemma_run_updates(empty, items);
    assert(empty.created + created_of(items) =~= created_of(items));
    assert(empty.consumed + consumed_of(items) =~= consumed_of(items));
    let full = RecordView::<O, S> {
        milestone_index: marker.milestone_index,
        created: created_of(items),
        consumed: consumed_of(items),
    };
    assert(run(Some(full), end) == (None::<RecordView<O, S>>, seq![Outcome::<O, S, E>::Complete(full)])) by {
        reveal_with_fuel(run, 2);
        assert(end.drop_first() =~= Seq::<LedgerUpdateEvent<O, S, E>>::empty());
        assert(seq![Outcome::<O, S, E>::Complete(full)] + Seq::<Outcome<O, S, E>>::empty() =~= seq![
            Outcome::<O, S, E>::Complete(full)]);
    }
    assert(seq![Outcome::<O, S, E>::Pending] + pending::<O, S, E>(items.len()) + seq![
        Outcome::<O, S, E>::Complete(full)] =~= pending::<O, S, E>(items.len() + 1).push(
        Outcome::Complete(full),
    ));
}

/// `Vec::capacity`: how many items the vector can hold without
/// reallocating, which is never less than its length. The allocator decides
/// the rest, so nothing more is stated.
#[verifier::external_body]
fn vec_capacity<T>(v: &Vec<T>) -> (r: usize)
    ensures
        r >= v.len(),
{
    v.capacity()
}

impl<St, O, S> LedgerUpdateStream<St, O, S> {
    /// Creates a stream over the single updates of `inner`, in no milestone yet.
    pub fn new(inner: St) -> (r: Self)
        ensures
            r.inner() == inner,
            r.record() is None,
    {
        Self { inner, record: None }
    }

    /// The source stream.
    pub closed spec fn inner(&self) -> St {
        self.inner
    }

    /// The updates gathered for the milestone in progress, if any.
    pub closed spec fn record(&self) -> Option<RecordView<O, S>> {
        record_view(self.record)
    }

    /// The source stream, to be polled for the next update.
    pub fn inner_mut(&mut self) -> (r: &mut St)
        ensures
            *r == old(self).inner(),
            final(self).inner() == *final(r),
            final(self).record() == old(self).record(),
    {
        &mut self.inner
    }

    /// The number of updates gathered for the milestone in progress.
    pub fn received(&self) -> (r: usize)
        requires
            received_of(self.record()) <= usize::MAX,
        ensures
            r == received_of(self.record()),
    {
        match &self.record {
            Some(rec) => rec.consumed.len() + rec.created.len(),
            None => 0,
        }
    }

    /// Takes one event of the source stream. `None` asks for the next event;
    /// `Some` is what the stream yields: `Some(None)` when it has ended.
    pub fn handle<E>(&mut self, event: LedgerUpdateEvent<O, S, E>) -> (r: Option<
        Option<Result<LedgerUpdateRecord<O, S>, InxError<E>>>,
    >)
        requires
            event_fits(old(self).record(), event),
        ensures
            final(self).inner() == old(self).inner(),
            final(self).record() == step(old(self).record(), event).0,
            outcome_of(r) == step(old(self).record(), event).1,
            event matches LedgerUpdateEvent::End(m) ==> (r matches Some(
                Some(Err(InxError::InvalidLedgerUpdateCount { received: _, expected })),
            ) ==> expected == m.consumed_count + m.created_count),
            (event is Begin || event is Finished) ==> (r matches Some(
                Some(Err(InxError::InvalidLedgerUpdateCount { received, expected })),
            ) ==> received <= expected),
    {
        match event {
            LedgerUpdateEvent::Begin(marker) => {
                // A record of an earlier milestone is still open.
                match self.record.take() {
                    Some(record) => {
                        let received = record.consumed.len() + record.created.len();
                        let expected = vec_capacity(&record.consumed).saturating_add(
                            vec_capacity(&record.created),
                        );
                        Some(Some(Err(InxError::InvalidLedgerUpdateCount { received, expected })))
                    },
                    None => {
                        self.record = Some(
                            LedgerUpdateRecord {
                                milestone_index: marker.milestone_index,
                                created: Vec::with_capacity(marker.created_count),
                                consumed: Vec::with_capacity(marker.consumed_count),
                            },
                        );
                        None
                    },
                }
            },
            LedgerUpdateEvent::Consumed(res) => match &mut self.record {
                Some(record) => match res {
                    Ok(consumed) => {
                        record.consumed.push(consumed);
                        None
                    },
                    Err(e) => Some(Some(Err(InxError::Inx(e)))),
                },
                None => Some(Some(Err(InxError::InvalidMilestoneState))),
            },
            LedgerUpdateEvent::Created(res) => match &mut self.record {
                Some(record) => match res {
                    Ok(created) => {
                        record.created.push(created);
                        None
                    },
                    Err(e) => Some(Some(Err(InxError::Inx(e)))),
                },
                None => Some(Some(Err(InxError::InvalidMilestoneState))),
            },
            LedgerUpdateEvent::End(marker) => match self.record.take() {
                Some(record) => {
                    if record.created.len() != marker.created_count || record.consumed.len()
                        != marker.consumed_count {
                        let received = record.consumed.len() + record.created.len();
                        let expected = marker.consumed_count + marker.created_count;
                        Some(Some(Err(InxError::InvalidLedgerUpdateCount { received, expected })))
                    } else {
                        Some(Some(Ok(record)))
                    }
                },
                None => Some(Some(Err(InxError::InvalidMilestoneState))),
            },
            LedgerUpdateEvent::Failed(e) => Some(Some(Err(InxError::Inx(e)))),
            LedgerUpdateEvent::Finished => match self.record.take() {
                // The source ended in the middle of a milestone.
                Some(record) => {
                    let received = record.consumed.len() + record.created.len();
                    let expected = vec_capacity(&record.consumed).saturating_add(
                        vec_capacity(&record.created),
                    );
                    Some(Some(Err(InxError::InvalidLedgerUpdateCount { received, expected })))
                },
                None => Some(None),
            },
        }
    }
}

} // verus!
