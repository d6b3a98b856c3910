//! Whole passes: what holds of every course that a pass can take.

use vstd::prelude::*;
use crate::error::SyncError;
use crate::store::{
    applied, fresh_record, lemma_second_pass_changes_nothing, RecordView, ResolvedView,
};
use crate::sync::{
    advanced, command_of, lemma_advanced_stays_well_formed, CommandView, Event, FailurePolicy,
    PhaseView, SyncState,
};

verus! {

/// The state that follows `state` on each event of `events` in turn.
pub open spec fn run(state: SyncState, events: Seq<Event>) -> SyncState
    decreases events.len(),
{
    if events.len() == 0 {
        state
    } else {
        advanced(run(state, events.drop_last()), events.last())
    }
}

/// The releases that the store took in the course of a pass, in the order
/// in which it took them.
pub open spec fn handed_over(state: SyncState, events: Seq<Event>) -> Seq<ResolvedView>
    decreases events.len(),
{
    if events.len() == 0 {
        Seq::empty()
    } else {
        let earlier = handed_over(state, events.drop_last());
        match (command_of(run(state, events.drop_last())), events.last()) {
            (CommandView::Store(resolved), Event::Done) => earlier.push(resolved),
            _ => earlier,
        }
    }
}

/// The places in the batch of the releases that the store took, in the
/// order in which it took them.
pub open spec fn turns_taken(state: SyncState, events: Seq<Event>) -> Seq<int>
    decreases events.len(),
{
    if events.len() == 0 {
        Seq::empty()
    } else {
        let earlier = turns_taken(state, events.drop_last());
        let before = run(state, events.drop_last());
        match (command_of(before), events.last()) {
            (CommandView::Store(_), Event::Done) => earlier.push(before.next as int),
            _ => earlier,
        }
    }
}

/// Every state that a pass reaches is well formed.
pub proof fn lemma_run_stays_well_formed(state: SyncState, events: Seq<Event>)
    requires
        state.well_formed(),
    ensures
        run(state, events).well_formed(),
    decreases events.len(),
{
    if events.len() > 0 {
        lemma_run_stays_well_formed(state, events.drop_last());
        lemma_advanced_stays_well_formed(run(state, events.drop_last()), events.last());
    }
}

/// A pass that has failed stays failed with the same error, whatever is
/// reported to it: it commands nothing but the abort.
pub proof fn lemma_failed_pass_stays_failed(state: SyncState, error: SyncError, events: Seq<Event>)
    requires
        state.phase == PhaseView::Failed(error),
    ensures
        run(state, events) == state,
        command_of(run(state, events)) == CommandView::Abort(error),
    decreases events.len(),
{
    if events.len() > 0 {
        lemma_failed_pass_stays_failed(state, error, events.drop_last());
    }
}

/// A pass over a catalog without releases fails with `NoData` before it
/// asks the registry for anything: its first command reads the catalog, and
/// once the catalog has reported that it holds no release, every command is
/// the abort.
pub proof fn lemma_no_data_ends_the_pass(
    registry_base: Seq<char>,
    policy: FailurePolicy,
    events: Seq<Event>,
)
    requires
        events.len() > 0,
        events[0] == Event::LatestTimestamp(None),
    ensures
        command_of(SyncState::initial(registry_base, policy)) == CommandView::ReadLatestTimestamp,
        forall|n: int|
            1 <= n <= events.len() ==> command_of(
                #[trigger] run(SyncState::initial(registry_base, policy), events.take(n)),
            ) == CommandView::Abort(SyncError::NoData),
{
    let start = SyncState::initial(registry_base, policy);
    let failed = start.failed(SyncError::NoData);
    assert forall|n: int| 1 <= n <= events.len() implies command_of(
        #[trigger] run(start, events.take(n)),
    ) == CommandView::Abort(SyncError::NoData) by {
        lemma_run_splits(start, events.take(1), events.take(n).skip(1));
        assert(events.take(1) + events.take(n).skip(1) =~= events.take(n));
        assert(events.take(1).drop_last() =~= Seq::<Event>::empty());
        assert(events.take(1).last() == events[0]);
        assert(run(start, Seq::<Event>::empty()) == start);
        assert(run(start, events.take(1)) == failed);
        lemma_failed_pass_stays_failed(failed, SyncError::NoData, events.take(n).skip(1));
    }
}

/// Running on `first` and then on `second` is running on both in a row.
pub proof fn lemma_run_splits(state: SyncState, first: Seq<Event>, second: Seq<Event>)
    ensures
        run(state, first + second) == run(run(state, first), second),
    decreases second.len(),
{
    if second.len() == 0 {
        assert(first + second =~= first);
    } else {
        lemma_run_splits(state, first, second.drop_last());
        assert((first + second).drop_last() =~= first + second.drop_last());
        assert((first + second).last() == second.last());
    }
}

/// Whatever course a pass takes, the store is handed releases of the batch
/// only, each at most once and in the batch's order. A pass that stores
/// unresolved releases too passes none over, and hands the store the
/// releases of the batch one after the other.
pub proof fn lemma_handed_over_is_of_the_batch(
    registry_base: Seq<char>,
    policy: FailurePolicy,
    events: Seq<Event>,
)
    ensures
        ({
            let start = SyncState::initial(registry_base, policy);
            let end = run(start, events);
            let handed = handed_over(start, events);
            let turns = turns_taken(start, events);
            &&& end.well_formed()
            &&& handed.len() == end.stored
            &&& turns.len() == handed.len()
            &&& forall|k: int|
                0 <= k < handed.len() ==> 0 <= #[trigger] turns[k] < end.batch.len()
                    && handed[k].release == end.batch[turns[k]]
            &&& forall|j: int, k: int| 0 <= j < k < turns.len() ==> turns[j] < turns[k]
            &&& forall|k: int|
                0 <= k < turns.len() ==> #[trigger] turns[k] <= end.next && (turns[k] == end.next
                    ==> end.phase is AwaitPause || end.phase is Failed)
            &&& policy == FailurePolicy::RecordWithoutPredecessor ==> end.skipped == 0
                && !(end.phase is AwaitNote) && forall|k: int|
                0 <= k < turns.len() ==> #[trigger] turns[k] == k
        }),
    decreases events.len(),
{
    let start = SyncState::initial(registry_base, policy);
    if events.len() == 0 {
    } else {
        let front = events.drop_last();
        let before = run(start, front);
        let end = run(start, events);
        lemma_handed_over_is_of_the_batch(registry_base, policy, front);
        lemma_advanced_stays_well_formed(before, events.last());
        lemma_run_keeps_the_setting(start, front);
        let turns = turns_taken(start, events);
        let handed = handed_over(start, events);
        let earlier_turns = turns_taken(start, front);
        let earlier = handed_over(start, front);
        assert forall|k: int| 0 <= k < handed.len() implies 0 <= #[trigger] turns[k]
            < end.batch.len() && handed[k].release == end.batch[turns[k]] by {
            if k < earlier.len() {
                assert(turns[k] == earlier_turns[k]);
                assert(handed[k] == earlier[k]);
            }
        }
        assert forall|j: int, k: int| 0 <= j < k < turns.len() implies turns[j] < turns[k] by {
            assert(turns[j] == earlier_turns[j]);
            if k < earlier_turns.len() {
                assert(turns[k] == earlier_turns[k]);
            }
        }
        assert forall|k: int| 0 <= k < turns.len() implies #[trigger] turns[k] <= end.next && (
        turns[k] == end.next ==> end.phase is AwaitPause || end.phase is Failed) by {
            if k < earlier_turns.len() {
                assert(turns[k] == earlier_turns[k]);
            }
        }
        if policy == FailurePolicy::RecordWithoutPredecessor {
            assert forall|k: int| 0 <= k < turns.len() implies #[trigger] turns[k] == k by {
                if k < earlier_turns.len() {
                    assert(turns[k] == earlier_turns[k]);
                }
            }
        }
    }
}

/// A pass keeps the registry's address and the policy that it began with.
pub proof fn lemma_run_keeps_the_setting(state: SyncState, events: Seq<Event>)
    requires
        state.well_formed(),
    ensures
        run(state, events).registry_base == state.registry_base,
        run(state, events).policy == state.policy,
    decreases events.len(),
{
    if events.len() > 0 {
        lemma_run_keeps_the_setting(state, events.drop_last());
        lemma_run_stays_well_formed(state, events.drop_last());
        lemma_advanced_stays_well_formed(run(state, events.drop_last()), events.last());
    }
}

/// A finished pass that stores unresolved releases too has handed the store
/// every release of its batch, in the batch's order.
pub proof fn lemma_full_pass_hands_over_the_batch(registry_base: Seq<char>, events: Seq<Event>)
    requires
        run(
            SyncState::initial(registry_base, FailurePolicy::RecordWithoutPredecessor),
            events,
        ).phase is Finished,
    ensures
        ({
            let start = SyncState::initial(registry_base, FailurePolicy::RecordWithoutPredecessor);
            let handed = handed_over(start, events);
            &&& handed.len() == run(start, events).batch.len()
            &&& forall|k: int|
                0 <= k < handed.len() ==> (#[trigger] handed[k]).release == run(
                    start,
                    events,
                ).batch[k]
        }),
{
    let start = SyncState::initial(registry_base, FailurePolicy::RecordWithoutPredecessor);
    lemma_handed_over_is_of_the_batch(registry_base, FailurePolicy::RecordWithoutPredecessor, events);
    let turns = turns_taken(start, events);
    let handed = handed_over(start, events);
    assert forall|k: int| 0 <= k < handed.len() implies (#[trigger] handed[k]).release == run(
        start,
        events,
    ).batch[k] by {
        assert(turns[k] == k);
    }
}

/// Running the synchronisation a second time over the same releases leaves
/// the store as the first run left it, whatever the registry answers the
/// second time: two finished passes that store unresolved releases too and
/// took up the same batch write no more than the first of them, once the
/// store took every record of the first.
pub proof fn lemma_repeated_pass_changes_nothing(
    records: Seq<RecordView>,
    registry_base: Seq<char>,
    first: Seq<Event>,
    second: Seq<Event>,
)
    requires
        run(
            SyncState::initial(registry_base, FailurePolicy::RecordWithoutPredecessor),
            first,
        ).phase is Finished,
        run(
            SyncState::initial(registry_base, FailurePolicy::RecordWithoutPredecessor),
            second,
        ).phase is Finished,
        run(SyncState::initial(registry_base, FailurePolicy::RecordWithoutPredecessor), first).batch
            == run(
            SyncState::initial(registry_base, FailurePolicy::RecordWithoutPredecessor),
            second,
        ).batch,
        forall|k: int|
            0 <= k < handed_over(
                SyncState::initial(registry_base, FailurePolicy::RecordWithoutPredecessor),
                first,
            ).len() ==> fresh_record(
                #[trigger] handed_over(
                    SyncState::initial(registry_base, FailurePolicy::RecordWithoutPredecessor),
                    first,
                )[k],
            ).admissible(),
    ensures
        ({
            let start = SyncState::initial(registry_base, FailurePolicy::RecordWithoutPredecessor);
            let once = applied(records, handed_over(start, first));
            applied(once, handed_over(start, second)) == once
        }),
{
    let start = SyncState::initial(registry_base, FailurePolicy::RecordWithoutPredecessor);
    let handed_first = handed_over(start, first);
    let handed_second = handed_over(start, second);
    lemma_full_pass_hands_over_the_batch(registry_base, first);
    lemma_full_pass_hands_over_the_batch(registry_base, second);
    assert forall|k: int| 0 <= k < handed_second.len() implies exists|m: int|
        0 <= m < handed_first.len() && (#[trigger] handed_first[m]).release == (
        #[trigger] handed_second[k]).release by {
        assert(handed_first[k].release == handed_second[k].release);
    }
    lemma_second_pass_changes_nothing(records, handed_first, handed_second);
}

/// Running the synchronisation a second time with the same answers from the
/// catalog and the registry leaves the store as the first run left it,
/// under either policy.
pub proof fn lemma_same_pass_twice_changes_nothing(
    records: Seq<RecordView>,
    state: SyncState,
    events: Seq<Event>,
)
    ensures
        applied(applied(records, handed_over(state, events)), handed_over(state, events))
            == applied(records, handed_over(state, events)),
{
    crate::store::lemma_pass_is_idempotent(records, handed_over(state, events));
}

} // verus!
