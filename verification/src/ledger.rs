//! The stored outputs as the ledger analytics count them, and why the
//! analytics of one ledger follow from those of the ledger before it and
//! the outputs that the ledger created and consumed.

use vstd::prelude::*;

use crate::measurement::{applied, changes_fit};
use crate::types::OutputType;

verus! {

/// An output as the ledger analytics see it: its kind, its tokens, the
/// milestone that booked it, the one that spent it if any, and its unlock
/// conditions (with the tokens a storage deposit return gives back).
#[derive(Clone, Copy, Debug, PartialEq, Eq)]
pub struct LedgerOutput {
    pub kind: OutputType,
    pub amount: u64,
    pub booked: u32,
    pub spent: Option<u32>,
    pub timelock: bool,
    pub expiration: bool,
    pub storage_deposit_return: Option<u64>,
}

/// Whether an output is unspent in ledger `i`: booked by then and not
/// spent by then.
pub open spec fn unspent_at(o: LedgerOutput, i: int) -> bool {
    o.booked <= i && !(o.spent matches Some(s) && s <= i)
}

/// Whether ledger `i` created an output that it did not also spend.
pub open spec fn created_at(o: LedgerOutput, i: int) -> bool {
    o.booked == i && !(o.spent matches Some(s) && s == i)
}

/// Whether ledger `i` spent an output that an earlier ledger created.
pub open spec fn consumed_at(o: LedgerOutput, i: int) -> bool {
    o.booked != i && (o.spent matches Some(s) && s == i)
}

/// The outputs unspent in ledger `i`.
pub open spec fn unspent_in(i: int) -> spec_fn(LedgerOutput) -> bool {
    |o: LedgerOutput| unspent_at(o, i)
}

/// The outputs created in ledger `i` and not spent there.
pub open spec fn created_in(i: int) -> spec_fn(LedgerOutput) -> bool {
    |o: LedgerOutput| created_at(o, i)
}

/// The outputs of earlier ledgers spent in ledger `i`.
pub open spec fn consumed_in(i: int) -> spec_fn(LedgerOutput) -> bool {
    |o: LedgerOutput| consumed_at(o, i)
}

/// Whether an output, if spent, was spent no earlier than it was booked.
pub open spec fn spent_after_booked(o: LedgerOutput) -> bool {
    o.spent matches Some(s) ==> o.booked <= s
}

/// No output is spent before it is booked.
pub open spec fn outputs_consistent(outputs: Seq<LedgerOutput>) -> bool {
    forall|j: int| 0 <= j < outputs.len() ==> spent_after_booked(#[trigger] outputs[j])
}

/// The sum of `w` over the outputs.
pub open spec fn tally(outputs: Seq<LedgerOutput>, w: spec_fn(LedgerOutput) -> int) -> int
    decreases outputs.len(),
{
    if outputs.len() == 0 {
        0
    } else {
        tally(outputs.drop_last(), w) + w(outputs.last())
    }
}

/// `f` of the outputs that `sel` picks, and nothing of the others.
pub open spec fn picked(sel: spec_fn(LedgerOutput) -> bool, f: spec_fn(LedgerOutput) -> int) -> spec_fn(
    LedgerOutput,
) -> int {
    |o: LedgerOutput| if sel(o) { f(o) } else { 0 }
}

/// One for each output of kind `k`.
pub open spec fn kind_units(k: OutputType) -> spec_fn(LedgerOutput) -> int {
    |o: LedgerOutput| if o.kind == k { 1int } else { 0int }
}

/// The tokens of each output of kind `k`.
pub open spec fn kind_tokens(k: OutputType) -> spec_fn(LedgerOutput) -> int {
    |o: LedgerOutput| if o.kind == k { o.amount as int } else { 0int }
}

/// The ledger output analytics of the outputs that `sel` picks, in the
/// order of the fields of a ledger output analytics result.
pub open spec fn ledger_output_fields(outputs: Seq<LedgerOutput>, sel: spec_fn(LedgerOutput) -> bool) -> Seq<int> {
    seq![
        tally(outputs, picked(sel, kind_units(OutputType::Basic))),
        tally(outputs, picked(sel, kind_tokens(OutputType::Basic))),
        tally(outputs, picked(sel, kind_units(OutputType::Alias))),
        tally(outputs, picked(sel, kind_tokens(OutputType::Alias))),
        tally(outputs, picked(sel, kind_units(OutputType::Foundry))),
        tally(outputs, picked(sel, kind_tokens(OutputType::Foundry))),
        tally(outputs, picked(sel, kind_units(OutputType::Nft))),
        tally(outputs, picked(sel, kind_tokens(OutputType::Nft))),
        tally(outputs, picked(sel, kind_units(OutputType::Treasury))),
        tally(outputs, picked(sel, kind_tokens(OutputType::Treasury))),
    ]
}

/// One for each output with a timelock.
pub open spec fn timelock_units() -> spec_fn(LedgerOutput) -> int {
    |o: LedgerOutput| if o.timelock { 1int } else { 0int }
}

/// The tokens of each output with a timelock.
pub open spec fn timelock_tokens() -> spec_fn(LedgerOutput) -> int {
    |o: LedgerOutput| if o.timelock { o.amount as int } else { 0int }
}

/// One for each output with an expiration.
pub open spec fn expiration_units() -> spec_fn(LedgerOutput) -> int {
    |o: LedgerOutput| if o.expiration { 1int } else { 0int }
}

/// The tokens of each output with an expiration.
pub open spec fn expiration_tokens() -> spec_fn(LedgerOutput) -> int {
    |o: LedgerOutput| if o.expiration { o.amount as int } else { 0int }
}

/// One for each output with a storage deposit return.
pub open spec fn return_units() -> spec_fn(LedgerOutput) -> int {
    |o: LedgerOutput| if o.storage_deposit_return is Some { 1int } else { 0int }
}

/// The tokens of each output with a storage deposit return.
pub open spec fn return_tokens() -> spec_fn(LedgerOutput) -> int {
    |o: LedgerOutput| if o.storage_deposit_return is Some { o.amount as int } else { 0int }
}

/// The tokens that each storage deposit return gives back.
pub open spec fn returned_tokens() -> spec_fn(LedgerOutput) -> int {
    |o: LedgerOutput|
        match o.storage_deposit_return {
            Some(r) => r as int,
            None => 0int,
        }
}

/// The unlock condition analytics of the outputs that `sel` picks, in the
/// order of the fields of an unlock condition analytics result.
pub open spec fn unlock_condition_fields(outputs: Seq<LedgerOutput>, sel: spec_fn(LedgerOutput) -> bool) -> Seq<int> {
    seq![
        tally(outputs, picked(sel, timelock_units())),
        tally(outputs, picked(sel, timelock_tokens())),
        tally(outputs, picked(sel, expiration_units())),
        tally(outputs, picked(sel, expiration_tokens())),
        tally(outputs, picked(sel, return_units())),
        tally(outputs, picked(sel, return_tokens())),
        tally(outputs, picked(sel, returned_tokens())),
    ]
}

/// No counter passes `u64::MAX` once the created outputs are added.
pub open spec fn additions_fit(old: Seq<int>, created: Seq<int>) -> bool {
    forall|j: int| 0 <= j < old.len() ==> #[trigger] old[j] + created[j] <= u64::MAX
}

/// A measure that is never negative sums to zero or more.
proof fn lemma_tally_nonneg(outputs: Seq<LedgerOutput>, w: spec_fn(LedgerOutput) -> int)
    requires
        forall|o: LedgerOutput| #[trigger] w(o) >= 0,
    ensures
        tally(outputs, w) >= 0,
    decreases outputs.len(),
{
    if outputs.len() > 0 {
        lemma_tally_nonneg(outputs.drop_last(), w);
        assert(w(outputs.last()) >= 0);
    }
}

proof fn lemma_ledger_fields_nonneg(outputs: Seq<LedgerOutput>, sel: spec_fn(LedgerOutput) -> bool)
    ensures
        forall|j: int| 0 <= j < 10 ==> 0 <= #[trigger] ledger_output_fields(outputs, sel)[j],
{
    assert forall|k: OutputType| true implies tally(outputs, picked(sel, kind_units(k))) >= 0 && tally(
        outputs,
        picked(sel, kind_tokens(k)),
    ) >= 0 by {
        let a = picked(sel, kind_units(k));
        let b = picked(sel, kind_tokens(k));
        assert forall|o: LedgerOutput| #[trigger] a(o) >= 0 by {}
        assert forall|o: LedgerOutput| #[trigger] b(o) >= 0 by {}
        lemma_tally_nonneg(outputs, a);
        lemma_tally_nonneg(outputs, b);
    }
    let f = ledger_output_fields(outputs, sel);
    assert(f[0] >= 0 && f[1] >= 0 && f[2] >= 0 && f[3] >= 0 && f[4] >= 0);
    assert(f[5] >= 0 && f[6] >= 0 && f[7] >= 0 && f[8] >= 0 && f[9] >= 0);
}

proof fn lemma_condition_fields_nonneg(outputs: Seq<LedgerOutput>, sel: spec_fn(LedgerOutput) -> bool)
    ensures
        forall|j: int| 0 <= j < 7 ==> 0 <= #[trigger] unlock_condition_fields(outputs, sel)[j],
{
    let ws = seq![
        timelock_units(),
        timelock_tokens(),
        expiration_units(),
        expiration_tokens(),
        return_units(),
        return_tokens(),
        returned_tokens(),
    ];
    assert forall|j: int| 0 <= j < 7 implies tally(outputs, picked(sel, #[trigger] ws[j])) >= 0 by {
        let w = picked(sel, ws[j]);
        assert forall|o: LedgerOutput| #[trigger] w(o) >= 0 by {}
        lemma_tally_nonneg(outputs, w);
    }
    let f = unlock_condition_fields(outputs, sel);
    assert forall|j: int| 0 <= j < 7 implies 0 <= #[trigger] f[j] by {
        assert(f[j] == tally(outputs, picked(sel, ws[j])));
    }
}

/// For any measure of the outputs, what ledger `i` holds is what ledger
/// `i - 1` held, plus what `i` created, minus what `i` consumed.
proof fn lemma_tally_step(outputs: Seq<LedgerOutput>, i: int, f: spec_fn(LedgerOutput) -> int)
    requires
        outputs_consistent(outputs),
    ensures
        tally(outputs, picked(unspent_in(i), f)) == tally(outputs, picked(unspent_in(i - 1), f)) + tally(
            outputs,
            picked(created_in(i), f),
        ) - tally(outputs, picked(consumed_in(i), f)),
    decreases outputs.len(),
{
    if outputs.len() > 0 {
        let rest = outputs.drop_last();
        assert(outputs_consistent(rest)) by {
            assert forall|j: int| 0 <= j < rest.len() implies spent_after_booked(#[trigger] rest[j]) by {
                assert(rest[j] == outputs[j]);
            }
        }
        lemma_tally_step(rest, i, f);
        let o = outputs.last();
        assert(o == outputs[outputs.len() - 1]);
    }
}

/// The ledger output analytics of ledger `i` are those of ledger `i - 1`
/// with the outputs created in `i` (and not spent there) added and the
/// outputs of earlier ledgers spent in `i` taken off, kind by kind. The
/// step can be taken whenever no counter passes `u64::MAX` once the created
/// outputs are added.
pub proof fn lemma_ledger_outputs_step(outputs: Seq<LedgerOutput>, i: int)
    requires
        outputs_consistent(outputs),
    ensures
        additions_fit(
            ledger_output_fields(outputs, unspent_in(i - 1)),
            ledger_output_fields(outputs, created_in(i)),
        ) ==> changes_fit(
            ledger_output_fields(outputs, unspent_in(i - 1)),
            ledger_output_fields(outputs, created_in(i)),
            ledger_output_fields(outputs, consumed_in(i)),
        ),
        applied(
            ledger_output_fields(outputs, unspent_in(i - 1)),
            ledger_output_fields(outputs, created_in(i)),
            ledger_output_fields(outputs, consumed_in(i)),
        ) == ledger_output_fields(outputs, unspent_in(i)),
{
    lemma_tally_step(outputs, i, kind_units(OutputType::Basic));
    lemma_tally_step(outputs, i, kind_tokens(OutputType::Basic));
    lemma_tally_step(outputs, i, kind_units(OutputType::Alias));
    lemma_tally_step(outputs, i, kind_tokens(OutputType::Alias));
    lemma_tally_step(outputs, i, kind_units(OutputType::Foundry));
    lemma_tally_step(outputs, i, kind_tokens(OutputType::Foundry));
    lemma_tally_step(outputs, i, kind_units(OutputType::Nft));
    lemma_tally_step(outputs, i, kind_tokens(OutputType::Nft));
    lemma_tally_step(outputs, i, kind_units(OutputType::Treasury));
    lemma_tally_step(outputs, i, kind_tokens(OutputType::Treasury));
    lemma_ledger_fields_nonneg(outputs, unspent_in(i - 1));
    lemma_ledger_fields_nonneg(outputs, created_in(i));
    lemma_ledger_fields_nonneg(outputs, consumed_in(i));
    lemma_ledger_fields_nonneg(outputs, unspent_in(i));
    assert(applied(
        ledger_output_fields(outputs, unspent_in(i - 1)),
        ledger_output_fields(outputs, created_in(i)),
        ledger_output_fields(outputs, consumed_in(i)),
    ) =~= ledger_output_fields(outputs, unspent_in(i)));
}

/// The unlock condition analytics of ledger `i` are those of ledger `i - 1`
/// with the unlock conditions of the outputs created in `i` (and not spent
/// there) added and those of the outputs of earlier ledgers spent in `i`
/// taken off. The step can be taken whenever no counter passes `u64::MAX`
/// once the created outputs are added.
pub proof fn lemma_unlock_conditions_step(outputs: Seq<LedgerOutput>, i: int)
    requires
        outputs_consistent(outputs),
    ensures
        additions_fit(
            unlock_condition_fields(outputs, unspent_in(i - 1)),
            unlock_condition_fields(outputs, created_in(i)),
        ) ==> changes_fit(
            unlock_condition_fields(outputs, unspent_in(i - 1)),
            unlock_condition_fields(outputs, created_in(i)),
            unlock_condition_fields(outputs, consumed_in(i)),
        ),
        applied(
            unlock_condition_fields(outputs, unspent_in(i - 1)),
            unlock_condition_fields(outputs, created_in(i)),
            unlock_condition_fields(outputs, consumed_in(i)),
        ) == unlock_condition_fields(outputs, unspent_in(i)),
{
    lemma_tally_step(outputs, i, timelock_units());
    lemma_tally_step(outputs, i, timelock_tokens());
    lemma_tally_step(outputs, i, expiration_units());
    lemma_tally_step(outputs, i, expiration_tokens());
    lemma_tally_step(outputs, i, return_units());
    lemma_tally_step(outputs, i, return_tokens());
    lemma_tally_step(outputs, i, returned_tokens());
    lemma_condition_fields_nonneg(outputs, unspent_in(i - 1));
    lemma_condition_fields_nonneg(outputs, created_in(i));
    lemma_condition_fields_nonneg(outputs, consumed_in(i));
    lemma_condition_fields_nonneg(outputs, unspent_in(i));
    assert(applied(
        unlock_condition_fields(outputs, unspent_in(i - 1)),
        unlock_condition_fields(outputs, created_in(i)),
        unlock_condition_fields(outputs, consumed_in(i)),
    ) =~= unlock_condition_fields(outputs, unspent_in(i)));
}

} // verus!
