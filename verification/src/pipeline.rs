//! One run, from the notice of an uploaded object to its one result.
//!
//! The run is a state machine. The library decides; whoever drives it does
//! the work that the library cannot: it fetches the object, calls the
//! solver, stores the result, and reports what came of each as an
//! [`Event`]. For each event [`Pipeline::step`] gives the next [`Action`].
//! Decoding and parsing need no outside work and take place within the
//! step that receives the object's bytes.
//!
//! ```text
//! Fetching -> (Decoding -> Parsing ->) Solving -> Storing -> Done
//! ```
//!
//! Every state but `Done` can fall to `Failed`. Nothing is tried twice.
use crate::decode::{decode, decoded, DecodeError};
use crate::parser::{outcome, parse, LinearSystem, SystemModel};
use crate::response::{
    message_of, render_result, render_summary, result_text, summary_text, InvocationOutcome,
    Outcome, PipelineError, PipelineFault,
};
use vstd::prelude::*;
use vstd::utf8::encode_utf8;

verus! {

/// The content type under which a result is stored.
pub open spec fn content_type_text() -> Seq<char> {
    "text/plain"@
}

/// Where objects are read from and results are written to.
#[derive(Debug, PartialEq, Eq)]
pub struct Config {
    pub read_bucket: String,
    pub write_bucket: String,
}

/// The notice that an object was uploaded.
#[derive(Debug, PartialEq, Eq)]
pub struct StorageEvent {
    pub key: String,
}

/// Where a run stands, as a mathematical value.
pub enum StateModel {
    Fetching,
    Solving,
    Storing { result: Seq<char> },
    Done { message: Seq<char> },
    Failed { fault: PipelineFault },
}

/// Where a run stands.
#[derive(Debug, PartialEq, Eq)]
pub enum State {
    /// The object was asked for.
    Fetching,
    /// The system was handed to the solver.
    Solving,
    /// The result was handed to the store.
    Storing { result: String },
    /// The run succeeded, with this message.
    Done { message: String },
    /// The run failed, at the step and for the reason that the error tells.
    Failed { error: PipelineError },
}

impl View for State {
    type V = StateModel;

    open spec fn view(&self) -> StateModel {
        match self {
            State::Fetching => StateModel::Fetching,
            State::Solving => StateModel::Solving,
            State::Storing { result } => StateModel::Storing { result: result@ },
            State::Done { message } => StateModel::Done { message: message@ },
            State::Failed { error } => StateModel::Failed { fault: error@ },
        }
    }
}

/// What the outside work came to, as a mathematical value.
pub enum EventModel {
    Fetched(Seq<u8>),
    FetchFailed,
    Decoded(Result<Seq<char>, Seq<char>>),
    Solved(Option<Seq<char>>),
    SolveFailed,
    Stored,
    StoreFailed,
}

/// What the outside work came to.
#[derive(Debug, PartialEq, Eq)]
pub enum Event {
    /// The object was fetched; these are all of its bytes.
    Fetched(Vec<u8>),
    /// The object is missing or cannot be reached.
    FetchFailed,
    /// The object was fetched and, outside the library, turned into text or
    /// found to be none. A driver that cannot collect the bytes of an object
    /// reports that here, as an error with the reason.
    Decoded(Result<String, DecodeError>),
    /// The solver answered: the rendering of the solution, or none where
    /// the system has no solution.
    Solved(Option<String>),
    /// The solver itself failed.
    SolveFailed,
    /// The result was stored.
    Stored,
    /// The result could not be stored.
    StoreFailed,
}

impl View for Event {
    type V = EventModel;

    open spec fn view(&self) -> EventModel {
        match self {
            Event::Fetched(bytes) => EventModel::Fetched(bytes@),
            Event::FetchFailed => EventModel::FetchFailed,
            Event::Decoded(Ok(text)) => EventModel::Decoded(Ok(text@)),
            Event::Decoded(Err(e)) => EventModel::Decoded(Err(e@)),
            Event::Solved(Some(rendering)) => EventModel::Solved(Some(rendering@)),
            Event::Solved(None) => EventModel::Solved(None),
            Event::SolveFailed => EventModel::SolveFailed,
            Event::Stored => EventModel::Stored,
            Event::StoreFailed => EventModel::StoreFailed,
        }
    }
}

/// What is to be done next, as a mathematical value.
pub enum ActionModel {
    Fetch { bucket: Seq<char>, key: Seq<char> },
    Solve(SystemModel),
    Store { bucket: Seq<char>, key: Seq<char>, body: Seq<char>, content_type: Seq<char> },
    Finish(Outcome),
}

/// What is to be done next.
#[derive(Debug, PartialEq, Eq)]
pub enum Action {
    /// Fetch the object `key` from `bucket`, all of it.
    Fetch { bucket: String, key: String },
    /// Solve the system.
    Solve(LinearSystem),
    /// Store `body` under `key` in `bucket`, with this content type.
    Store { bucket: String, key: String, body: String, content_type: String },
    /// Report the result; the run is over.
    Finish(InvocationOutcome),
}

impl View for Action {
    type V = ActionModel;

    open spec fn view(&self) -> ActionModel {
        match self {
            Action::Fetch { bucket, key } => ActionModel::Fetch { bucket: bucket@, key: key@ },
            Action::Solve(system) => ActionModel::Solve(system@),
            Action::Store { bucket, key, body, content_type } => ActionModel::Store {
                bucket: bucket@,
                key: key@,
                body: body@,
                content_type: content_type@,
            },
            Action::Finish(result) => ActionModel::Finish(result@),
        }
    }
}

/// A run as a mathematical value.
pub struct PipelineModel {
    pub read_bucket: Seq<char>,
    pub write_bucket: Seq<char>,
    pub key: Seq<char>,
    pub state: StateModel,
}

/// A run: where it reads and writes, the key of its object, and where it
/// stands.
#[derive(Debug, PartialEq, Eq)]
pub struct Pipeline {
    pub read_bucket: String,
    pub write_bucket: String,
    pub key: String,
    pub state: State,
}

impl View for Pipeline {
    type V = PipelineModel;

    open spec fn view(&self) -> PipelineModel {
        PipelineModel {
            read_bucket: self.read_bucket@,
            write_bucket: self.write_bucket@,
            key: self.key@,
            state: self.state@,
        }
    }
}

/// The run `p` in another state.
pub open spec fn moved(p: PipelineModel, state: StateModel) -> PipelineModel {
    PipelineModel { state, ..p }
}

/// The run `p` failed: its state and the report of the failure.
pub open spec fn failed(p: PipelineModel, fault: PipelineFault) -> (PipelineModel, ActionModel) {
    (
        moved(p, StateModel::Failed { fault }),
        ActionModel::Finish(Outcome::Failure { message: message_of(fault) }),
    )
}

/// How a run starts: it asks for the object of the notice.
pub open spec fn started(
    read_bucket: Seq<char>,
    write_bucket: Seq<char>,
    key: Seq<char>,
) -> (PipelineModel, ActionModel) {
    (
        PipelineModel { read_bucket, write_bucket, key, state: StateModel::Fetching },
        ActionModel::Fetch { bucket: read_bucket, key },
    )
}

/// What follows once the object's text, or the reason why it has none, is
/// known: the text is parsed, and a system goes to the solver.
pub open spec fn next_of_text(p: PipelineModel, text: Result<Seq<char>, Seq<char>>) -> (
    PipelineModel,
    ActionModel,
) {
    match text {
        Err(detail) => failed(p, PipelineFault::Decode { detail }),
        Ok(chars) => match outcome(encode_utf8(chars)) {
            Err(fault) => failed(p, PipelineFault::Parse(fault)),
            Ok(system) => (moved(p, StateModel::Solving), ActionModel::Solve(system)),
        },
    }
}

/// The state after an event, and the action that it calls for.
///
/// In each state one kind of event means that the work went well. Any other
/// event fails the run at that step. A run that is over stays as it is and
/// reports its result again.
pub open spec fn next(p: PipelineModel, event: EventModel) -> (PipelineModel, ActionModel) {
    match p.state {
        StateModel::Fetching => match event {
            EventModel::Fetched(bytes) => next_of_text(p, decoded(bytes)),
            EventModel::Decoded(text) => next_of_text(p, text),
            _ => failed(p, PipelineFault::Fetch),
        },
        StateModel::Solving => match event {
            EventModel::Solved(solution) => {
                let result = result_text(solution);
                (
                    moved(p, StateModel::Storing { result }),
                    ActionModel::Store {
                        bucket: p.write_bucket,
                        key: p.key,
                        body: result,
                        content_type: content_type_text(),
                    },
                )
            },
            _ => failed(p, PipelineFault::Solve),
        },
        StateModel::Storing { result } => match event {
            EventModel::Stored => {
                let message = summary_text(result, p.write_bucket, p.key);
                (
                    moved(p, StateModel::Done { message }),
                    ActionModel::Finish(Outcome::Success { message }),
                )
            },
            _ => failed(p, PipelineFault::Store),
        },
        StateModel::Done { message } => (p, ActionModel::Finish(Outcome::Success { message })),
        StateModel::Failed { fault } => (
            p,
            ActionModel::Finish(Outcome::Failure { message: message_of(fault) }),
        ),
    }
}

/// Whether a run is over.
pub open spec fn is_over(p: PipelineModel) -> bool {
    p.state is Done || p.state is Failed
}

/// The result of a run that is over.
pub open spec fn result_of(p: PipelineModel) -> Option<Outcome> {
    match p.state {
        StateModel::Done { message } => Some(Outcome::Success { message }),
        StateModel::Failed { fault } => Some(Outcome::Failure { message: message_of(fault) }),
        _ => None,
    }
}

impl Pipeline {
    /// Starts a run for the object that `event` names.
    pub fn start(config: Config, event: StorageEvent) -> (r: (Pipeline, Action))
        ensures
            (r.0@, r.1@) == started(config.read_bucket@, config.write_bucket@, event.key@),
    {
        let bucket = config.read_bucket.clone();
        let key = event.key.clone();
        (
            Pipeline {
                read_bucket: config.read_bucket,
                write_bucket: config.write_bucket,
                key: event.key,
                state: State::Fetching,
            },
            Action::Fetch { bucket, key },
        )
    }

    /// Fails the run.
    fn fail(&mut self, error: PipelineError) -> (action: Action)
        ensures
            (final(self)@, action@) == failed(old(self)@, error@),
    {
        let report = error.outcome();
        self.state = State::Failed { error };
        Action::Finish(report)
    }

    /// Takes the object's text, or the reason why it has none.
    fn take_text(&mut self, text: Result<String, DecodeError>) -> (action: Action)
        ensures
            (final(self)@, action@) == next_of_text(
                old(self)@,
                match text {
                    Ok(t) => Ok(t@),
                    Err(e) => Err(e@),
                },
            ),
    {
        match text {
            Err(e) => self.fail(PipelineError::Decode(e)),
            Ok(t) => match parse(t.as_str()) {
                Err(e) => self.fail(PipelineError::Parse(e)),
                Ok(system) => {
                    self.state = State::Solving;
                    Action::Solve(system)
                },
            },
        }
    }

    /// Takes an event and gives the action that it calls for.
    pub fn step(&mut self, event: Event) -> (action: Action)
        ensures
            (final(self)@, action@) == next(old(self)@, event@),
    {
        match &self.state {
            State::Fetching => match event {
                Event::Fetched(bytes) => {
                    let text = decode(bytes);
                    self.take_text(text)
                },
                Event::Decoded(text) => self.take_text(text),
                _ => self.fail(PipelineError::Fetch),
            },
            State::Solving => match event {
                Event::Solved(solution) => {
                    let result = render_result(solution);
                    let body = result.clone();
                    let action = Action::Store {
                        bucket: self.write_bucket.clone(),
                        key: self.key.clone(),
                        body,
                        content_type: "text/plain".to_owned(),
                    };
                    self.state = State::Storing { result };
                    action
                },
                _ => self.fail(PipelineError::Solve),
            },
            State::Storing { result } => match event {
                Event::Stored => {
                    let message = render_summary(
                        result.as_str(),
                        self.write_bucket.as_str(),
                        self.key.as_str(),
                    );
                    let report = message.clone();
                    self.state = State::Done { message };
                    Action::Finish(InvocationOutcome::Success { message: report })
                },
                _ => self.fail(PipelineError::Store),
            },
            State::Done { message } => Action::Finish(
                InvocationOutcome::Success { message: message.clone() },
            ),
            State::Failed { error } => Action::Finish(error.outcome()),
        }
    }

    /// Whether the run is over.
    pub fn is_over(&self) -> (over: bool)
        ensures
            over == is_over(self@),
    {
        match &self.state {
            State::Done { .. } => true,
            State::Failed { .. } => true,
            _ => false,
        }
    }

    /// The result of the run, once it is over.
    pub fn result(&self) -> (r: Option<InvocationOutcome>)
        ensures
            match result_of(self@) {
                Some(o) => r is Some && r->0@ == o,
                None => r is None,
            },
    {
        match &self.state {
            State::Done { message } => Some(InvocationOutcome::Success { message: message.clone() }),
            State::Failed { error } => Some(error.outcome()),
            _ => None,
        }
    }
}

} // verus!
