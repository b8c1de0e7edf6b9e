//! What one run reports: success or failure, and the faults behind a
//! failure.
use crate::decode::DecodeError;
use crate::parser::{ParseError, ParseFault};
use vstd::prelude::*;

verus! {

/// The one result of a run, as a mathematical value.
pub enum Outcome {
    Success { message: Seq<char> },
    Failure { message: Seq<char> },
}

/// The one result of a run.
#[derive(Debug, PartialEq, Eq)]
pub enum InvocationOutcome {
    /// The result was computed and stored; the message says what it is and
    /// where it went.
    Success { message: String },
    /// The run failed; the message may be shown to the user.
    Failure { message: String },
}

impl View for InvocationOutcome {
    type V = Outcome;

    open spec fn view(&self) -> Outcome {
        match self {
            InvocationOutcome::Success { message } => Outcome::Success { message: message@ },
            InvocationOutcome::Failure { message } => Outcome::Failure { message: message@ },
        }
    }
}

/// The steps of a run that can fail.
#[derive(Clone, Copy, Debug, PartialEq, Eq, Structural)]
pub enum Stage {
    Fetching,
    Decoding,
    Parsing,
    Solving,
    Storing,
}

/// Why a run failed, as a mathematical value.
pub enum PipelineFault {
    Fetch,
    Decode { detail: Seq<char> },
    Parse(ParseFault),
    Solve,
    Store,
}

/// Why a run failed.
#[derive(Debug, PartialEq, Eq)]
pub enum PipelineError {
    /// The object is missing or cannot be reached.
    Fetch,
    /// The object's bytes cannot be had in full, or are not text.
    Decode(DecodeError),
    /// The text is not a linear system.
    Parse(ParseError),
    /// The solver itself failed; a system without a solution is no error.
    Solve,
    /// The result could not be stored.
    Store,
}

impl View for PipelineError {
    type V = PipelineFault;

    open spec fn view(&self) -> PipelineFault {
        match self {
            PipelineError::Fetch => PipelineFault::Fetch,
            PipelineError::Decode(e) => PipelineFault::Decode { detail: e@ },
            PipelineError::Parse(e) => PipelineFault::Parse(e@),
            PipelineError::Solve => PipelineFault::Solve,
            PipelineError::Store => PipelineFault::Store,
        }
    }
}

/// The step at which a fault arises.
pub open spec fn stage_of(fault: PipelineFault) -> Stage {
    match fault {
        PipelineFault::Fetch => Stage::Fetching,
        PipelineFault::Decode { .. } => Stage::Decoding,
        PipelineFault::Parse(_) => Stage::Parsing,
        PipelineFault::Solve => Stage::Solving,
        PipelineFault::Store => Stage::Storing,
    }
}

/// The message that a failure shows to the user.
///
/// It tells the step but none of the fault's detail, with one exception:
/// what the decoder said is shown as it is.
pub open spec fn message_of(fault: PipelineFault) -> Seq<char> {
    match fault {
        PipelineFault::Fetch => "The lambda encountered an error and your calculation wasn't saved"@,
        PipelineFault::Decode { detail } => detail,
        PipelineFault::Parse(_) => "The lambda could not read your file as a linear equation and your calculation wasn't saved"@,
        PipelineFault::Solve => "The lambda could not solve your linear equation and your calculation wasn't saved"@,
        PipelineFault::Store => "The lambda encountered an error and your message was not saved"@,
    }
}

/// What is stored and reported for a system without a solution.
pub open spec fn no_solution_text() -> Seq<char> {
    "No solution found"@
}

/// What is stored and reported for the answer of the solver: the rendering
/// of the solution, or the words for none.
pub open spec fn result_text(solution: Option<Seq<char>>) -> Seq<char> {
    match solution {
        Some(rendering) => rendering,
        None => no_solution_text(),
    }
}

/// The message of a success: the result, and where it was stored.
pub open spec fn summary_text(result: Seq<char>, bucket: Seq<char>, key: Seq<char>) -> Seq<char> {
    "Result was: "@ + result + ", it was stored in bucket "@ + bucket + "/"@ + key
}

impl PipelineError {
    /// The step at which the error arose.
    pub fn stage(&self) -> (s: Stage)
        ensures
            s == stage_of(self@),
    {
        match self {
            PipelineError::Fetch => Stage::Fetching,
            PipelineError::Decode(_) => Stage::Decoding,
            PipelineError::Parse(_) => Stage::Parsing,
            PipelineError::Solve => Stage::Solving,
            PipelineError::Store => Stage::Storing,
        }
    }

    /// The message that the failure shows to the user.
    pub fn message(&self) -> (m: String)
        ensures
            m@ == message_of(self@),
    {
        match self {
            PipelineError::Fetch => "The lambda encountered an error and your calculation wasn't saved".to_owned(),
            PipelineError::Decode(e) => e.detail.clone(),
            PipelineError::Parse(_) => "The lambda could not read your file as a linear equation and your calculation wasn't saved".to_owned(),
            PipelineError::Solve => "The lambda could not solve your linear equation and your calculation wasn't saved".to_owned(),
            PipelineError::Store => "The lambda encountered an error and your message was not saved".to_owned(),
        }
    }

    /// The failure that reports this error.
    pub fn outcome(&self) -> (o: InvocationOutcome)
        ensures
            o@ == (Outcome::Failure { message: message_of(self@) }),
    {
        InvocationOutcome::Failure { message: self.message() }
    }
}

/// Renders what is stored for the answer of the solver.
pub fn render_result(solution: Option<String>) -> (text: String)
    ensures
        text@ == result_text(
            match solution {
                Some(s) => Some(s@),
                None => None,
            },
        ),
{
    match solution {
        Some(rendering) => rendering,
        None => "No solution found".to_owned(),
    }
}

/// Renders the message of a success.
pub fn render_summary(result: &str, bucket: &str, key: &str) -> (message: String)
    ensures
        message@ == summary_text(result@, bucket@, key@),
{
    let mut message = "Result was: ".to_owned();
    message.append(result);
    message.append(", it was stored in bucket ");
    message.append(bucket);
    message.append("/");
    message.append(key);
    message
}

} // verus!
