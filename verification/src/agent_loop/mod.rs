//! The agent loop: what a run reports, the ReAct step policy, and the
//! single-use handling of each committed tool round.

mod events;
mod react;
mod runtime;

use std::sync::Arc;

use vstd::prelude::*;

use crate::inference::{InferenceError, TokenUsage};
use crate::session::{
    SessionRepositoryError, ToolDisplay, TranscriptEntry, UsageSummary, repository_error_text,
};
use crate::text::push_str;

pub use events::{
    MAX_FRAGMENT_BYTES, RunEvent, fragment_end, output_fragments, texts, utf8_len, utf8_len_seq,
};
pub use react::{ReactLoop, ReactRun, StepDecision, step_decision};
pub use runtime::{
    PendingRound, STEP_LIMIT_OUTPUT, activity, activity_of, call_display, finish_run, finished_run,
    invocation_outcome, skipped_outcome, start_run,
};

verus! {

/// The text of the model messages among `entries`, in order.
pub open spec fn messages_text(entries: Seq<TranscriptEntry>) -> Seq<char>
    decreases entries.len(),
{
    if entries.len() == 0 {
        seq![]
    } else {
        messages_text(entries.drop_last()) + match entries.last() {
            TranscriptEntry::ModelMessage { text } => text@,
            _ => seq![],
        }
    }
}

/// A committed model response: its presentation entries and usage.
pub struct CommittedModelTurn {
    pub entries: Vec<Arc<TranscriptEntry>>,
    pub usage: Option<TokenUsage>,
}

impl CommittedModelTurn {
    /// The turn's model messages concatenated, for summary consumers. It
    /// never defines presentation order or document boundaries.
    pub fn text_summary(&self) -> (s: String)
        ensures
            s@ == messages_text(self.entries@.map_values(|a: Arc<TranscriptEntry>| *a)),
    {
        let mut s = String::new();
        let mut i: usize = 0;
        while i < self.entries.len()
            invariant
                i <= self.entries@.len(),
                s@ == messages_text(self.entries@.map_values(|a: Arc<TranscriptEntry>| *a).take(i as int)),
            decreases self.entries.len() - i,
        {
            let ghost all = self.entries@.map_values(|a: Arc<TranscriptEntry>| *a);
            proof {
                assert(all.take(i + 1).drop_last() =~= all.take(i as int));
                assert(all.take(i + 1).last() == *self.entries@[i as int]);
            }
            match &*self.entries[i] {
                TranscriptEntry::ModelMessage { text } => {
                    crate::text::push_str(&mut s, text.as_str());
                },
                _ => {
                    assert(s@ =~= s@ + Seq::<char>::empty());
                },
            }
            i += 1;
        }
        assert(self.entries@.map_values(|a: Arc<TranscriptEntry>| *a).take(self.entries@.len() as int)
            =~= self.entries@.map_values(|a: Arc<TranscriptEntry>| *a));
        s
    }
}

/// The activities of one committed tool round, in call order.
pub struct CommittedToolRound {
    pub activities: Vec<ToolActivity>,
}

/// Why a run stopped.
#[derive(Clone, Copy, Debug, PartialEq, Eq)]
pub enum RunStopReason {
    /// The model answered without requesting tools.
    Completed,
    /// The model-turn limit was reached with tool calls requested; they were
    /// recorded as skipped.
    StepLimit,
}

/// What a finished run reports.
#[derive(Debug)]
pub struct RunOutcome {
    /// The final turn's messages concatenated, for summary consumers.
    pub text: String,
    pub model_turns: usize,
    pub tool_activity: Vec<ToolActivity>,
    pub usage: UsageSummary,
    pub stop_reason: RunStopReason,
}

/// How one tool call ended, for observers.
#[derive(Clone, Copy, Debug, PartialEq, Eq)]
pub enum ToolActivityStatus {
    Completed,
    Error,
    Skipped,
}

/// An observation of one tool call. The name is for observation only, never
/// routing or execution authority.
#[derive(Debug)]
pub struct ToolActivity {
    pub name: String,
    pub display: ToolDisplay,
    pub status: ToolActivityStatus,
}

impl ToolActivity {
    pub fn duplicate(&self) -> (r: Self)
        ensures
            r == *self,
    {
        ToolActivity { name: self.name.clone(), display: self.display.duplicate(), status: self.status }
    }
}

/// Why a run failed.
#[derive(Debug)]
pub enum LoopError {
    EmptyPrompt,
    InvalidMaxSteps,
    Protocol(&'static str),
    /// A run failed and also left an unresolved tool round behind.
    UnfinishedRun { source: Box<LoopError>, pending: Box<LoopError> },
    Inference(InferenceError),
    Session(SessionRepositoryError),
}

/// The text of a loop error.
pub open spec fn loop_error_text(e: LoopError) -> Seq<char>
    decreases e,
{
    match e {
        LoopError::EmptyPrompt => "prompt must not be empty"@,
        LoopError::InvalidMaxSteps => "loop.max_steps must be greater than zero"@,
        LoopError::Protocol(m) => "loop protocol violation: "@ + m@,
        LoopError::UnfinishedRun { source, pending } => loop_error_text(*source)
            + "; run also ended with unresolved session state: "@ + loop_error_text(*pending),
        LoopError::Inference(i) => i@,
        LoopError::Session(s) => repository_error_text(s),
    }
}

impl LoopError {
    pub fn message(&self) -> (s: String)
        ensures
            s@ == loop_error_text(*self),
        decreases self,
    {
        match self {
            LoopError::EmptyPrompt => "prompt must not be empty".to_owned(),
            LoopError::InvalidMaxSteps => "loop.max_steps must be greater than zero".to_owned(),
            LoopError::Protocol(m) => {
                let mut s = "loop protocol violation: ".to_owned();
                push_str(&mut s, m);
                s
            },
            LoopError::UnfinishedRun { source, pending } => {
                let mut s = source.message();
                push_str(&mut s, "; run also ended with unresolved session state: ");
                let p = pending.message();
                push_str(&mut s, p.as_str());
                s
            },
            LoopError::Inference(i) => i.message().to_owned(),
            LoopError::Session(e) => e.message(),
        }
    }
}

} // verus!
