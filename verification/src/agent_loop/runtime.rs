//! The mechanism under loop policy: a run's first commit, the single use of
//! each committed tool round, and the records that a tool round produces.

use vstd::prelude::*;

use super::{LoopError, RunOutcome, ToolActivity, ToolActivityStatus};
use crate::inference::ToolCall;
use crate::model::ReasoningEffort;
use crate::session::{
    MemorySessionRepository, SessionId, SessionRepositoryError, ToolDisplay, ToolOutcome, ToolResult,
    session_of, user_text_committed,
};
use crate::text::{is_blank, push_str, str_is_blank};
use crate::tool::{ToolInvocation, encode_error, error_json};

verus! {

/// What the model is told of a tool call that the step limit skipped.
pub const STEP_LIMIT_OUTPUT: &'static str = "tool call was not executed because the run reached its model-turn limit";

/// How a call is shown: its tool name and its arguments in parentheses.
pub open spec fn call_text(call: ToolCall) -> Seq<char> {
    call.name@ + "("@ + call.arguments@ + ")"@
}

/// The presentation text of a call.
pub fn call_display(call: &ToolCall) -> (s: String)
    ensures
        s@ == call_text(*call),
{
    let mut s = call.name.clone();
    push_str(&mut s, "(");
    push_str(&mut s, call.arguments.as_str());
    push_str(&mut s, ")");
    s
}

/// The outcome recorded for a call that the step limit skipped: an error of
/// kind `step_limit` for the model, and the reason for presentation.
pub fn skipped_outcome(call: &ToolCall) -> (o: ToolOutcome)
    ensures
        o matches ToolOutcome::Skipped(r) && r.context_output@ == error_json(
            "step_limit"@,
            STEP_LIMIT_OUTPUT@,
        ) && r.display.call@ == call_text(*call) && r.display.output@ == STEP_LIMIT_OUTPUT@,
{
    ToolOutcome::Skipped(
        ToolResult {
            context_output: encode_error("step_limit", STEP_LIMIT_OUTPUT),
            display: ToolDisplay { call: call_display(call), output: STEP_LIMIT_OUTPUT.to_owned() },
        },
    )
}

/// The outcome of an executed call: failed when the invocation reports an
/// error, completed otherwise. Its output goes to model history unchanged
/// and is also what presentation shows.
pub fn invocation_outcome(call: &ToolCall, invocation: ToolInvocation) -> (o: ToolOutcome)
    ensures
        invocation.is_error ==> o is Failed,
        !invocation.is_error ==> o is Completed,
        o matches ToolOutcome::Completed(r) ==> r.context_output == invocation.output
            && r.display.call@ == call_text(*call) && r.display.output@ == invocation.output@,
        o matches ToolOutcome::Failed(r) ==> r.context_output == invocation.output
            && r.display.call@ == call_text(*call) && r.display.output@ == invocation.output@,
{
    let display = ToolDisplay { call: call_display(call), output: invocation.output.clone() };
    let result = ToolResult { context_output: invocation.output, display };
    if invocation.is_error {
        ToolOutcome::Failed(result)
    } else {
        ToolOutcome::Completed(result)
    }
}

/// The display and status an observer sees of an outcome.
pub open spec fn activity_of(o: ToolOutcome) -> (ToolDisplay, ToolActivityStatus) {
    match o {
        ToolOutcome::Completed(r) => (r.display, ToolActivityStatus::Completed),
        ToolOutcome::Failed(r) => (r.display, ToolActivityStatus::Error),
        ToolOutcome::Skipped(r) => (r.display, ToolActivityStatus::Skipped),
    }
}

/// The observation of one tool call's outcome.
pub fn activity(name: &str, outcome: &ToolOutcome) -> (a: ToolActivity)
    ensures
        a.name@ == name@,
        (a.display, a.status) == activity_of(*outcome),
{
    let (display, status) = match outcome {
        ToolOutcome::Completed(r) => (r.display.duplicate(), ToolActivityStatus::Completed),
        ToolOutcome::Failed(r) => (r.display.duplicate(), ToolActivityStatus::Error),
        ToolOutcome::Skipped(r) => (r.display.duplicate(), ToolActivityStatus::Skipped),
    };
    ToolActivity { name: name.to_owned(), display, status }
}

/// The tool round a run may still execute or skip: installed by a model
/// commit, and taken exactly once.
pub struct PendingRound {
    calls: Option<Vec<ToolCall>>,
}

impl View for PendingRound {
    type V = Option<Seq<ToolCall>>;

    closed spec fn view(&self) -> Option<Seq<ToolCall>> {
        match self.calls {
            Some(v) => Some(v@),
            None => None,
        }
    }
}

impl PendingRound {
    pub fn new() -> (r: Self)
        ensures
            r@ is None,
    {
        PendingRound { calls: None }
    }

    /// Whether policy can still choose to execute or skip a round. This is
    /// not an observation of whether its results have committed.
    pub fn has_pending_tools(&self) -> (b: bool)
        ensures
            b == self@ is Some,
    {
        self.calls.is_some()
    }

    /// Installs the calls of a model commit; a commit without calls leaves
    /// nothing to execute.
    pub fn install(&mut self, calls: Vec<ToolCall>)
        ensures
            calls@.len() == 0 ==> final(self)@ is None,
            calls@.len() > 0 ==> final(self)@ == Some(calls@),
    {
        if calls.len() == 0 {
            self.calls = None;
        } else {
            self.calls = Some(calls);
        }
    }

    /// Takes the round for execution or skipping; a second take fails.
    pub fn take(&mut self) -> (r: Result<Vec<ToolCall>, LoopError>)
        ensures
            final(self)@ is None,
            match old(self)@ {
                Some(c) => r matches Ok(v) && v@ == c,
                None => r matches Err(LoopError::Protocol(m)) && m@
                    == "no unconsumed tool round; invocation and skipping are single-use"@,
            },
    {
        match self.calls.take() {
            Some(v) => Ok(v),
            None => Err(LoopError::Protocol("no unconsumed tool round; invocation and skipping are single-use")),
        }
    }

    /// Whether the session and this run are both ready for new work: the
    /// repository has no unresolved round and no taken-but-unused round is
    /// left here.
    pub fn ready(&self, store: Result<(), SessionRepositoryError>) -> (r: Result<(), LoopError>)
        ensures
            match store {
                Err(e) => r matches Err(LoopError::Session(f)) && f == e,
                Ok(()) => if self@ is Some {
                    r matches Err(LoopError::Protocol(m)) && m@ == "unconsumed execution requests"@
                } else {
                    r is Ok
                },
            },
    {
        match store {
            Err(e) => Err(LoopError::Session(e)),
            Ok(()) => if self.calls.is_some() {
                Err(LoopError::Protocol("unconsumed execution requests"))
            } else {
                Ok(())
            },
        }
    }
}

/// Begins a run: a blank prompt is refused; otherwise the session must be
/// ready, and the prompt is committed before any network work. Returns the
/// session's reasoning effort, which the run keeps for all its turns.
pub fn start_run(store: &mut MemorySessionRepository, id: SessionId, prompt: &str) -> (r: Result<
    Option<ReasoningEffort>,
    LoopError,
>)
    requires
        old(store).wf(),
    ensures
        final(store).wf(),
        is_blank(prompt@) ==> (r matches Err(LoopError::EmptyPrompt) && final(store).records()
            == old(store).records()),
        !is_blank(prompt@) ==> (match session_of(old(store).records(), id.0) {
            None => r matches Err(LoopError::Session(e)) && e == SessionRepositoryError::NotFound(id)
                && final(store).records() == old(store).records(),
            Some(st) => if st.pending.len() > 0 {
                r matches Err(LoopError::Session(e)) && e == (SessionRepositoryError::InvalidToolRound {
                    id,
                    reason: "unresolved tool round",
                }) && final(store).records() == old(store).records()
            } else {
                r matches Ok(effort) && effort == st.config.reasoning_effort && user_text_committed(
                    old(store).records(),
                    id.0,
                    prompt@,
                    final(store).records(),
                )
            },
        }),
{
    if str_is_blank(prompt) {
        return Err(LoopError::EmptyPrompt);
    }
    if let Err(e) = store.ensure_ready(id) {
        return Err(LoopError::Session(e));
    }
    let snapshot = match store.snapshot(id) {
        Ok(s) => s,
        Err(e) => return Err(LoopError::Session(e)),
    };
    match store.commit_user(id, prompt) {
        Ok(()) => Ok(snapshot.config.reasoning_effort),
        Err(e) => Err(LoopError::Session(e)),
    }
}

/// The result a run reports once policy has returned: the policy's result
/// when nothing is left unresolved; otherwise the unresolved state, kept
/// together with the policy's own failure if there was one.
pub open spec fn finished_run(result: Result<RunOutcome, LoopError>, ready: Result<(), LoopError>) -> Result<
    RunOutcome,
    LoopError,
> {
    match (result, ready) {
        (result, Ok(())) => result,
        (Ok(_), Err(pending)) => Err(pending),
        (Err(source), Err(pending)) => Err(
            LoopError::UnfinishedRun { source: Box::new(source), pending: Box::new(pending) },
        ),
    }
}

/// Checks the execution and commit obligations when policy returns, even
/// early, and keeps the originating failure when reporting an open round.
pub fn finish_run(result: Result<RunOutcome, LoopError>, ready: Result<(), LoopError>) -> (r: Result<
    RunOutcome,
    LoopError,
>)
    ensures
        r == finished_run(result, ready),
{
    match (result, ready) {
        (result, Ok(())) => result,
        (Ok(_), Err(pending)) => Err(pending),
        (Err(source), Err(pending)) => Err(
            LoopError::UnfinishedRun { source: Box::new(source), pending: Box::new(pending) },
        ),
    }
}

} // verus!
