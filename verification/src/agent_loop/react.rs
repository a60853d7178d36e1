//! The ReAct step policy: infer, then invoke the requested tools, until the
//! model answers or the model-turn limit is reached.

use vstd::prelude::*;

use super::{LoopError, RunOutcome, RunStopReason, ToolActivity};
use crate::inference::TokenUsage;
use crate::session::{UsageSummary, observed, usage_zero};

verus! {

/// A ReAct loop allowing at most `max_steps` model turns per run.
#[derive(Debug)]
pub struct ReactLoop {
    max_steps: usize,
}

/// What the policy does after a model turn has committed.
#[derive(Clone, Copy, Debug, PartialEq, Eq)]
pub enum StepDecision {
    /// No tool calls were requested: the run completes.
    Complete,
    /// Tool calls were requested on the last allowed turn: they are recorded
    /// as skipped and the run stops.
    StopAtLimit,
    /// Tool calls were requested: they run, then the model is asked again.
    InvokeTools,
}

/// The decision after turn `turn` of at most `max_steps`.
pub open spec fn step_decision(max_steps: nat, turn: nat, has_pending_tools: bool) -> StepDecision {
    if !has_pending_tools {
        StepDecision::Complete
    } else if turn >= max_steps {
        StepDecision::StopAtLimit
    } else {
        StepDecision::InvokeTools
    }
}

impl ReactLoop {
    pub closed spec fn limit(&self) -> nat {
        self.max_steps as nat
    }

    /// Refuses a limit of zero turns.
    pub fn new(max_steps: usize) -> (r: Result<Self, LoopError>)
        ensures
            max_steps == 0 <==> r is Err,
            r matches Err(e) ==> e is InvalidMaxSteps,
            r matches Ok(l) ==> l.limit() == max_steps,
    {
        if max_steps == 0 {
            return Err(LoopError::InvalidMaxSteps);
        }
        Ok(ReactLoop { max_steps })
    }

    pub fn max_steps(&self) -> (n: usize)
        ensures
            n == self.limit(),
    {
        self.max_steps
    }

    /// A run that has not yet asked the model anything.
    pub fn start(&self) -> (run: ReactRun)
        requires
            self.limit() > 0,
        ensures
            run.wf(),
            run.max_steps() == self.limit(),
            run.turn() == 0,
            run.activities().len() == 0,
            run.usage() == usage_zero(),
    {
        ReactRun {
            max_steps: self.max_steps,
            turn: 0,
            activities: Vec::new(),
            usage: UsageSummary::default(),
        }
    }
}

/// The progress of one ReAct run: turns taken, tool activity in order, and
/// the usage of this run's model calls.
pub struct ReactRun {
    max_steps: usize,
    turn: usize,
    activities: Vec<ToolActivity>,
    usage: UsageSummary,
}

impl ReactRun {
    pub closed spec fn max_steps(&self) -> nat {
        self.max_steps as nat
    }

    pub closed spec fn turn(&self) -> nat {
        self.turn as nat
    }

    pub closed spec fn activities(&self) -> Seq<ToolActivity> {
        self.activities@
    }

    pub closed spec fn usage(&self) -> UsageSummary {
        self.usage
    }

    /// At least one turn is allowed and no more than the limit were taken.
    pub closed spec fn wf(&self) -> bool {
        0 < self.max_steps && self.turn <= self.max_steps
    }

    /// Whether another model turn is allowed.
    pub fn can_infer(&self) -> (r: bool)
        requires
            self.wf(),
        ensures
            r == (self.turn() < self.max_steps()),
    {
        self.turn < self.max_steps
    }

    /// Records one committed model turn and its usage, and decides what
    /// follows it.
    pub fn after_turn(&mut self, usage: Option<TokenUsage>, has_pending_tools: bool) -> (d: StepDecision)
        requires
            old(self).wf(),
            old(self).turn() < old(self).max_steps(),
        ensures
            final(self).wf(),
            final(self).max_steps() == old(self).max_steps(),
            final(self).turn() == old(self).turn() + 1,
            final(self).usage() == observed(old(self).usage(), usage),
            final(self).activities() == old(self).activities(),
            d == step_decision(final(self).max_steps(), final(self).turn(), has_pending_tools),
    {
        self.turn = self.turn + 1;
        self.usage.observe(usage);
        if !has_pending_tools {
            StepDecision::Complete
        } else if self.turn >= self.max_steps {
            StepDecision::StopAtLimit
        } else {
            StepDecision::InvokeTools
        }
    }

    /// Appends a committed round's activities, in call order.
    pub fn record_round(&mut self, activities: Vec<ToolActivity>)
        requires
            old(self).wf(),
        ensures
            final(self).wf(),
            final(self).max_steps() == old(self).max_steps(),
            final(self).turn() == old(self).turn(),
            final(self).usage() == old(self).usage(),
            final(self).activities() == old(self).activities() + activities@,
    {
        let mut activities = activities;
        self.activities.append(&mut activities);
    }

    /// The run's outcome, with the final turn's text.
    pub fn finish(self, text: String, stop_reason: RunStopReason) -> (o: RunOutcome)
        ensures
            o.text == text,
            o.model_turns == self.turn(),
            o.tool_activity@ == self.activities(),
            o.usage == self.usage(),
            o.stop_reason == stop_reason,
    {
        RunOutcome {
            text,
            model_turns: self.turn,
            tool_activity: self.activities,
            usage: self.usage,
            stop_reason,
        }
    }
}

/// Tools are invoked only on a turn before the limit, and a run stops at the
/// limit only when tools were requested: so no run asks the model more than
/// `max_steps` times, and a turn that requested no tools always completes.
pub proof fn lemma_decision_bounds(max_steps: nat, turn: nat, has_pending_tools: bool)
    requires
        0 < turn <= max_steps,
    ensures
        step_decision(max_steps, turn, has_pending_tools) == StepDecision::InvokeTools ==> turn
            < max_steps,
        step_decision(max_steps, turn, has_pending_tools) == StepDecision::StopAtLimit ==> turn
            == max_steps && has_pending_tools,
        !has_pending_tools ==> step_decision(max_steps, turn, has_pending_tools)
            == StepDecision::Complete,
{
}

/// Whether a run whose model requests tools on turn `k` exactly when
/// `requests[k - 1]` goes on after each of its first `t - 1` turns and stops
/// after turn `t`.
pub open spec fn run_stops_at(max_steps: nat, requests: Seq<bool>, t: nat) -> bool {
    &&& 1 <= t <= requests.len()
    &&& forall|k: nat| 1 <= k < t ==> #[trigger] step_decision(max_steps, k, requests[k - 1]) == StepDecision::InvokeTools
    &&& step_decision(max_steps, t, requests[t - 1]) != StepDecision::InvokeTools
}

/// A whole run asks the model at least once and at most `max_steps` times:
/// it stops at its first turn without tool requests, which completes it,
/// or else at the limit, with the last turn's tool calls left unrun.
pub proof fn lemma_run_within_limit(max_steps: nat, requests: Seq<bool>)
    requires
        max_steps >= 1,
        requests.len() >= max_steps,
    ensures
        exists|t: nat| run_stops_at(max_steps, requests, t),
        forall|t: nat|
            #[trigger] run_stops_at(max_steps, requests, t) ==> t <= max_steps && (step_decision(
                max_steps,
                t,
                requests[t - 1],
            ) == StepDecision::Complete <==> !requests[t - 1]) && (step_decision(max_steps, t, requests[t - 1])
                == StepDecision::StopAtLimit ==> t == max_steps),
{
    lemma_first_stop(max_steps, requests, 1);
    let t = first_stop(max_steps, requests, 1);
    assert(run_stops_at(max_steps, requests, t));
    assert forall|u: nat| #[trigger] run_stops_at(max_steps, requests, u) implies u <= max_steps by {
        if u > max_steps {
            assert(step_decision(max_steps, max_steps, requests[max_steps - 1]) == StepDecision::InvokeTools);
        }
    }
}

/// The first turn from `t` on after which a run stops.
spec fn first_stop(max_steps: nat, requests: Seq<bool>, t: nat) -> nat
    decreases max_steps - t,
{
    if t >= max_steps || !requests[t - 1] {
        t
    } else {
        first_stop(max_steps, requests, t + 1)
    }
}

proof fn lemma_first_stop(max_steps: nat, requests: Seq<bool>, t: nat)
    requires
        1 <= t <= max_steps,
        requests.len() >= max_steps,
        forall|k: nat| 1 <= k < t ==> #[trigger] step_decision(max_steps, k, requests[k - 1]) == StepDecision::InvokeTools,
    ensures
        run_stops_at(max_steps, requests, first_stop(max_steps, requests, t)),
    decreases max_steps - t,
{
    if !(t >= max_steps || !requests[t - 1]) {
        assert forall|k: nat| 1 <= k < t + 1 implies #[trigger] step_decision(max_steps, k, requests[k - 1])
            == StepDecision::InvokeTools by {
            if k == t {
                assert(requests[t - 1]);
            }
        }
        lemma_first_stop(max_steps, requests, t + 1);
    }
}

} // verus!
