//! What holds of every import run.

use vstd::prelude::*;
use crate::runner::{polls, step, Action, Event, Outcome, Phase, RunnerView};

verus! {

/// The state after a run of events, each with what the caller learned when
/// it last asked whether the run is canceled.
pub open spec fn run(state: RunnerView, events: Seq<(Event, bool)>) -> RunnerView
    decreases events.len(),
{
    if events.len() == 0 {
        state
    } else {
        step(run(state, events.drop_last()), events.last().0, events.last().1).0
    }
}

/// Every step keeps the state well formed.
pub proof fn step_keeps_well_formed(state: RunnerView, event: Event, canceled: bool)
    requires
        state.wf(),
    ensures
        step(state, event, canceled).0.wf(),
        step(state, event, canceled).0.configuration == state.configuration,
{
}

/// A cancellation is observed between two documents and between two attempts
/// to fetch: the run ends there as canceled, and what it did so far stands.
pub proof fn cancellation_is_observed(state: RunnerView, event: Event)
    requires
        state.wf(),
        polls(state, event),
    ensures
        step(state, event, true).0.phase == Phase::Canceled,
        step(state, event, true).1 == Action::Finish(Outcome::Canceled),
        step(state, event, true).0.processed == state.processed,
        step(state, event, true).0.skipped == state.skipped,
        step(state, event, true).0.failed == state.failed,
{
}

/// Work in hand is not interrupted: where the runner does not ask whether the
/// run is canceled, a cancellation changes nothing of what it does.
pub proof fn work_in_hand_is_not_interrupted(state: RunnerView, event: Event)
    requires
        !polls(state, event),
    ensures
        step(state, event, true) == step(state, event, false),
{
}

/// A run that was canceled or given up starts nothing: whatever is reported
/// to it, it asks for no work and its state stays as it is.
pub proof fn ended_run_starts_nothing(state: RunnerView, events: Seq<(Event, bool)>)
    requires
        state.phase == Phase::Canceled || state.phase == Phase::Failed,
    ensures
        run(state, events) == state,
        forall|event: Event, canceled: bool|
            step(state, event, canceled) == (state, Action::Ignore),
    decreases events.len(),
{
    if events.len() > 0 {
        ended_run_starts_nothing(state, events.drop_last());
    }
}

/// No document is committed in part: the runner asks for a commit only of a
/// document whose rows were built, and counts a document as processed only
/// when its commit is reported, and then that document and no other.
pub proof fn documents_are_committed_whole(state: RunnerView, event: Event, canceled: bool)
    requires
        state.wf(),
    ensures
        step(state, event, canceled).1 is Commit <==> state.phase == Phase::Building
            && event is Built,
        if state.phase == Phase::Committing && event is Committed {
            step(state, event, canceled).0.processed == state.processed.push(state.document->0)
        } else {
            step(state, event, canceled).0.processed == state.processed
        },
{
}

/// What a run has committed stays committed: the documents that were
/// processed before a run of events are still the first of the processed
/// documents after it.
pub proof fn processed_documents_are_kept(state: RunnerView, events: Seq<(Event, bool)>)
    requires
        state.wf(),
    ensures
        run(state, events).wf(),
        state.processed.is_prefix_of(run(state, events).processed),
    decreases events.len(),
{
    if events.len() > 0 {
        let before = run(state, events.drop_last());
        processed_documents_are_kept(state, events.drop_last());
        documents_are_committed_whole(before, events.last().0, events.last().1);
        step_keeps_well_formed(before, events.last().0, events.last().1);
    }
}

/// The marker of a source goes through the run as it came: a run that takes
/// every document returns the marker that the source gave when it was
/// reached, and no event in between changes it.
pub proof fn marker_is_returned_as_given(state: RunnerView, event: Event, canceled: bool)
    requires
        state.wf(),
    ensures
        state.phase == Phase::Idle && event is Exhausted ==> step(state, event, canceled).1 == (
        Action::Finish(Outcome::Completed { marker: state.marker })),
        state.phase == Phase::Idle ==> (event matches Event::Discovered { marker } ==> step(
            state,
            event,
            canceled,
        ).0.marker == Some(marker)),
        !(state.phase == Phase::Idle && (event is Exhausted || event is Discovered)) ==> step(
            state,
            event,
            canceled,
        ).0.marker == state.marker,
{
}

/// No document is fetched more often than the run allows: after a failed
/// attempt the runner asks for another only while fewer attempts failed than
/// the configured number of retries.
pub proof fn retries_are_bounded(state: RunnerView, event: Event, canceled: bool)
    requires
        state.wf(),
        state.phase == Phase::Fetching,
        event is FetchFailed,
    ensures
        step(state, event, canceled).1 is Fetch ==> state.attempts
            < state.configuration.fetch_retries && step(state, event, canceled).0.attempts
            == state.attempts + 1,
        state.attempts >= state.configuration.fetch_retries ==> !(step(
            state,
            event,
            canceled,
        ).1 is Fetch),
{
}

/// A document over the size limit of the run is passed over and the run goes
/// on: nothing of it is fetched further, parsed or committed, and it is
/// listed among the skipped documents.
pub proof fn oversized_document_is_skipped(state: RunnerView, name: String, size: u64)
    requires
        state.wf(),
        state.phase == Phase::Idle,
        state.configuration.size_limit matches Some(limit) && size > limit,
    ensures
        ({
            let (after, action) = step(
                state,
                Event::Document { name, declared_size: Some(size) },
                false,
            );
            &&& action == Action::Next
            &&& after.phase == Phase::Idle
            &&& after.skipped.len() == state.skipped.len() + 1
            &&& after.skipped.last().document == name
            &&& after.processed == state.processed
            &&& after.failed == state.failed
        }),
{
}

} // verus!
