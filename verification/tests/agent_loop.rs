use std::sync::Arc;

use minuet::agent_loop::{
    CommittedModelTurn, LoopError, PendingRound, ReactLoop, RunOutcome, RunStopReason, StepDecision,
    ToolActivityStatus, activity, finish_run, invocation_outcome, output_fragments, skipped_outcome,
    start_run,
};
use minuet::inference::{ToolCall, TokenUsage};
use minuet::session::{MemorySessionRepository, SessionConfig, SessionId, ToolOutcome, TranscriptEntry, UsageSummary};
use minuet::tool::ToolInvocation;

fn call(id: &str) -> ToolCall {
    ToolCall { call_id: id.to_owned(), name: "echo".to_owned(), arguments: "{\"text\":\"hi\"}".to_owned() }
}

fn outcome() -> RunOutcome {
    RunOutcome {
        text: String::new(),
        model_turns: 1,
        tool_activity: Vec::new(),
        usage: UsageSummary::default(),
        stop_reason: RunStopReason::Completed,
    }
}

#[test]
fn a_zero_turn_limit_is_refused() {
    assert!(matches!(ReactLoop::new(0), Err(LoopError::InvalidMaxSteps)));
    assert_eq!(LoopError::InvalidMaxSteps.message(), "loop.max_steps must be greater than zero");
}

#[test]
fn the_step_policy_invokes_tools_until_the_limit_then_skips_them() {
    let react = ReactLoop::new(2).unwrap();
    let mut run = react.start();
    assert!(run.can_infer());
    let usage = TokenUsage { input_tokens: 10, output_tokens: 3, total_tokens: 13 };
    assert_eq!(run.after_turn(Some(usage), true), StepDecision::InvokeTools);
    assert_eq!(run.after_turn(Some(usage), true), StepDecision::StopAtLimit);
    assert!(!run.can_infer());
    let outcome = run.finish("partial".to_owned(), RunStopReason::StepLimit);
    assert_eq!(outcome.model_turns, 2);
    assert_eq!(outcome.usage.total_tokens, 26);
    assert_eq!(outcome.text, "partial");

    let mut run = react.start();
    assert_eq!(run.after_turn(None, false), StepDecision::Complete);
    assert_eq!(run.finish(String::new(), RunStopReason::Completed).usage.unreported_calls, 1);
}

#[test]
fn the_turn_summary_concatenates_only_model_messages() {
    let turn = CommittedModelTurn {
        entries: vec![
            Arc::new(TranscriptEntry::ModelMessage { text: "A".into() }),
            Arc::new(TranscriptEntry::UserMessage { text: "x".into() }),
            Arc::new(TranscriptEntry::ModelMessage { text: "B".into() }),
        ],
        usage: None,
    };
    assert_eq!(turn.text_summary(), "AB");
}

#[test]
fn a_round_is_taken_once() {
    let mut round = PendingRound::new();
    assert!(round.take().is_err());
    round.install(Vec::new());
    assert!(!round.has_pending_tools());
    round.install(vec![call("x")]);
    assert!(round.has_pending_tools());
    assert!(matches!(round.ready(Ok(())), Err(LoopError::Protocol("unconsumed execution requests"))));
    assert_eq!(round.take().unwrap().len(), 1);
    assert!(matches!(
        round.take(),
        Err(LoopError::Protocol("no unconsumed tool round; invocation and skipping are single-use"))
    ));
    assert!(round.ready(Ok(())).is_ok());
}

#[test]
fn an_unfinished_run_keeps_the_original_failure() {
    assert!(finish_run(Ok(outcome()), Ok(())).is_ok());
    let pending = || Err(LoopError::Protocol("unconsumed execution requests"));
    assert!(matches!(finish_run(Ok(outcome()), pending()), Err(LoopError::Protocol(_))));
    let error = finish_run(Err(LoopError::Protocol("policy failed")), pending()).err().unwrap();
    let text = error.message();
    assert!(text.contains("policy failed"));
    assert!(text.contains("unresolved session state"));
}

#[test]
fn skipped_and_executed_calls_are_recorded_for_model_and_observer() {
    let skipped = skipped_outcome(&call("x"));
    let ToolOutcome::Skipped(result) = &skipped else { panic!("skipped") };
    let value: serde_json::Value = serde_json::from_str(&result.context_output).unwrap();
    assert_eq!(value["error"]["kind"], "step_limit");
    assert_eq!(result.display.call, "echo({\"text\":\"hi\"})");
    let observed = activity("echo", &skipped);
    assert_eq!(observed.status, ToolActivityStatus::Skipped);

    let failed = invocation_outcome(&call("y"), ToolInvocation { output: "{}".into(), is_error: true });
    assert!(matches!(failed, ToolOutcome::Failed(_)));
    assert_eq!(activity("echo", &failed).status, ToolActivityStatus::Error);
}

#[test]
fn a_run_commits_its_prompt_only_when_the_session_is_ready() {
    let mut store = MemorySessionRepository::new();
    let id = store.create(SessionConfig::default()).unwrap();
    assert!(matches!(start_run(&mut store, id, " \n"), Err(LoopError::EmptyPrompt)));
    assert!(store.snapshot(id).unwrap().items.is_empty());
    assert!(start_run(&mut store, id, "question").unwrap().is_none());
    assert_eq!(store.snapshot(id).unwrap().items.len(), 1);
    let missing = SessionId::from_value(id.0.wrapping_add(1));
    assert!(matches!(start_run(&mut store, missing, "q"), Err(LoopError::Session(_))));
}

#[test]
fn tool_output_is_sent_in_bounded_whole_character_fragments() {
    let text = "中文".repeat(5000);
    let parts = output_fragments(&text);
    assert_eq!(parts.concat(), text);
    assert!(parts.iter().all(|p| !p.is_empty() && p.len() <= 4096));
    assert_eq!(parts[0].len(), 4095);
    assert!(output_fragments("").is_empty());
    assert_eq!(output_fragments("short"), ["short"]);
}
