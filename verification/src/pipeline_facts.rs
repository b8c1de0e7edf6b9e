//! What holds of every run.
use crate::decode::utf8_fault_text;
use crate::parser::outcome;
use crate::pipeline::{
    failed, is_over, moved, next, result_of, started, ActionModel, EventModel,
    PipelineModel, StateModel,
};
use crate::response::{message_of, summary_text, Outcome, PipelineFault};
use vstd::prelude::*;
use vstd::utf8::{decode_utf8_encode_utf8, valid_utf8};

verus! {

/// The actions that a run gives for a sequence of events, in order.
pub open spec fn actions(p: PipelineModel, events: Seq<EventModel>) -> Seq<ActionModel>
    decreases events.len(),
{
    if events.len() == 0 {
        Seq::empty()
    } else {
        seq![next(p, events[0]).1] + actions(next(p, events[0]).0, events.drop_first())
    }
}

/// The run after a sequence of events.
pub open spec fn after(p: PipelineModel, events: Seq<EventModel>) -> PipelineModel
    decreases events.len(),
{
    if events.len() == 0 {
        p
    } else {
        after(next(p, events[0]).0, events.drop_first())
    }
}

/// The bytes of a fetched object are parsed as they are, if they are text;
/// if they are not, the run fails at decoding with the decoder's words.
pub proof fn lemma_fetched_bytes(p: PipelineModel, bytes: Seq<u8>)
    requires
        p.state is Fetching,
    ensures
        next(p, EventModel::Fetched(bytes)) == (if !valid_utf8(bytes) {
            failed(p, PipelineFault::Decode { detail: utf8_fault_text(bytes) })
        } else {
            match outcome(bytes) {
                Err(fault) => failed(p, PipelineFault::Parse(fault)),
                Ok(system) => (moved(p, StateModel::Solving), ActionModel::Solve(system)),
            }
        }),
{
    if valid_utf8(bytes) {
        decode_utf8_encode_utf8(bytes);
    }
}

/// A fetch that fails ends the run with a failure whose message tells
/// nothing of the cause.
pub proof fn lemma_fetch_failure(p: PipelineModel)
    requires
        p.state is Fetching,
    ensures
        next(p, EventModel::FetchFailed) == failed(p, PipelineFault::Fetch),
        next(p, EventModel::FetchFailed).1 == ActionModel::Finish(
            Outcome::Failure {
                message: "The lambda encountered an error and your calculation wasn't saved"@,
            },
        ),
        is_over(next(p, EventModel::FetchFailed).0),
{
}

/// A system without a solution is a success: the words for it are stored
/// under the key of the object, and once they are stored the run ends with
/// a success that reports them.
pub proof fn lemma_no_solution_is_success(p: PipelineModel)
    requires
        p.state is Solving,
    ensures
        next(p, EventModel::Solved(None)).1 == (ActionModel::Store {
            bucket: p.write_bucket,
            key: p.key,
            body: "No solution found"@,
            content_type: "text/plain"@,
        }),
        next(next(p, EventModel::Solved(None)).0, EventModel::Stored).1 == ActionModel::Finish(
            Outcome::Success {
                message: summary_text("No solution found"@, p.write_bucket, p.key),
            },
        ),
        next(next(p, EventModel::Solved(None)).0, EventModel::Stored).0.state is Done,
{
}

/// A solution is stored as the solver rendered it, and reported so.
pub proof fn lemma_solution_is_stored(p: PipelineModel, rendering: Seq<char>)
    requires
        p.state is Solving,
    ensures
        next(p, EventModel::Solved(Some(rendering))).1 == (ActionModel::Store {
            bucket: p.write_bucket,
            key: p.key,
            body: rendering,
            content_type: "text/plain"@,
        }),
        next(
            next(p, EventModel::Solved(Some(rendering))).0,
            EventModel::Stored,
        ).1 == ActionModel::Finish(
            Outcome::Success { message: summary_text(rendering, p.write_bucket, p.key) },
        ),
{
}

/// When the result cannot be stored the run fails, and the message says
/// that nothing was saved, whatever the result was.
pub proof fn lemma_store_failure(p: PipelineModel, event: EventModel)
    requires
        p.state is Storing,
        !(event is Stored),
    ensures
        next(p, event) == failed(p, PipelineFault::Store),
        next(p, event).1 == ActionModel::Finish(
            Outcome::Failure {
                message: "The lambda encountered an error and your message was not saved"@,
            },
        ),
{
}

/// Nothing is stored but the answer of the solver: a store is asked for
/// only while solving, and only when the solver answered.
pub proof fn lemma_store_needs_answer(p: PipelineModel, event: EventModel)
    requires
        next(p, event).1 is Store,
    ensures
        p.state is Solving,
        event is Solved,
{
}

/// A run reports its result exactly when it is over, and the result that it
/// reports is the result of its state.
pub proof fn lemma_one_result(p: PipelineModel, event: EventModel)
    ensures
        next(p, event).1 is Finish <==> is_over(next(p, event).0),
        next(p, event).1 is Finish ==> result_of(next(p, event).0) == Some(
            next(p, event).1->Finish_0,
        ),
{
}

/// A run that is over stays as it is, whatever comes, and reports the same
/// result again.
pub proof fn lemma_result_is_final(p: PipelineModel, event: EventModel)
    requires
        is_over(p),
    ensures
        next(p, event).0 == p,
        Some(next(p, event).1->Finish_0) == result_of(p),
        next(p, event).1 is Finish,
{
}

/// After a failure nothing is fetched, solved or stored, whatever events
/// follow: every action reports the failure.
pub proof fn lemma_failure_is_final(p: PipelineModel, events: Seq<EventModel>)
    requires
        p.state is Failed,
    ensures
        after(p, events) == p,
        actions(p, events).len() == events.len(),
        forall|i: int|
            0 <= i < events.len() ==> #[trigger] actions(p, events)[i] == ActionModel::Finish(
                Outcome::Failure { message: message_of(p.state->fault) },
            ),
    decreases events.len(),
{
    if events.len() > 0 {
        lemma_failure_is_final(p, events.drop_first());
    }
}

/// A run is over after three events at the latest.
pub proof fn lemma_three_events_end_a_run(
    read_bucket: Seq<char>,
    write_bucket: Seq<char>,
    key: Seq<char>,
    first: EventModel,
    second: EventModel,
    third: EventModel,
)
    ensures
        is_over(
            next(
                next(next(started(read_bucket, write_bucket, key).0, first).0, second).0,
                third,
            ).0,
        ),
{
}

/// A run neither changes where it reads and writes nor the key of its
/// object.
pub proof fn lemma_places_are_kept(p: PipelineModel, event: EventModel)
    ensures
        next(p, event).0.read_bucket == p.read_bucket,
        next(p, event).0.write_bucket == p.write_bucket,
        next(p, event).0.key == p.key,
{
}

/// A run succeeds only by the three events of success in their order: the
/// object's text, the solver's answer, the store's receipt.
pub proof fn lemma_success_needs_all_steps(p: PipelineModel, event: EventModel)
    requires
        !(p.state is Done),
        next(p, event).0.state is Done,
    ensures
        p.state is Storing,
        event is Stored,
        next(p, event).1 == ActionModel::Finish(
            Outcome::Success {
                message: summary_text(p.state->result, p.write_bucket, p.key),
            },
        ),
{
}

/// Nothing is tried twice: no event makes a run fetch again, and a system
/// goes to the solver only from the text of the fetched object.
pub proof fn lemma_no_retry(p: PipelineModel, event: EventModel)
    ensures
        !(next(p, event).1 is Fetch),
        next(p, event).1 is Solve ==> p.state is Fetching && (event is Fetched
            || event is Decoded),
{
}

} // verus!
