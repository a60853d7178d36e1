use minuet::agent_loop::{RunOutcome, RunStopReason};
use minuet::inference::TokenUsage;
use minuet::kernel::{ContextInfo, InputTokenCount, ModelInfo};
use minuet::report::{
    context_report, effort_report, model_report, outcome_report, session_report, toggle_report,
    tools_report, usage_report,
};
use minuet::session::{SessionId, UsageSummary};
use minuet::tool::ToolStatus;

fn summary(reported: u64, unreported: u64, latest: Option<TokenUsage>) -> UsageSummary {
    UsageSummary {
        reported_calls: reported,
        unreported_calls: unreported,
        input_tokens: 10,
        output_tokens: 4,
        total_tokens: 14,
        latest,
    }
}

#[test]
fn usage_without_calls_says_so() {
    assert_eq!(
        usage_report(&summary(0, 0, None)),
        "last reported usage: no model calls yet\nsession reported usage: input 10, output 4, total 14"
    );
}

#[test]
fn usage_with_latest_and_partial_totals() {
    let latest = TokenUsage { input_tokens: 3, output_tokens: 2, total_tokens: 5 };
    assert_eq!(
        usage_report(&summary(1, 1, Some(latest))),
        "last reported usage: input 3, output 2, total 5\nsession reported usage: input 10, output 4, total 14 (partial: at least one call omitted usage)"
    );
    assert_eq!(
        usage_report(&summary(1, 1, None)),
        "last reported usage: unavailable for the latest model call\nsession reported usage: input 10, output 4, total 14 (partial: at least one call omitted usage)"
    );
}

#[test]
fn context_report_lists_session_tokens_and_usage() {
    let id = SessionId(0x0123456789abcdef0123456789abcdef);
    let info = ContextInfo {
        session_id: id,
        committed_input_tokens: InputTokenCount::Available(42),
        usage: summary(0, 0, None),
    };
    assert_eq!(
        context_report(&info),
        "session: 01234567-89ab-cdef-0123-456789abcdef\ncommitted input tokens: 42 (upstream count)\nlast reported usage: no model calls yet\nsession reported usage: input 10, output 4, total 14"
    );
    let info = ContextInfo {
        session_id: id,
        committed_input_tokens: InputTokenCount::Unavailable("offline".to_owned()),
        usage: summary(0, 0, None),
    };
    assert!(context_report(&info).contains("committed input tokens: unavailable (offline)\n"));
}

#[test]
fn model_and_effort_reports() {
    let info = ModelInfo { provider: "p".to_owned(), model: "m".to_owned(), reasoning_effort: None };
    assert_eq!(model_report(&info), "provider: p\nmodel: m\nreasoning effort: upstream default");
    let info = ModelInfo { provider: "p".to_owned(), model: "m".to_owned(), reasoning_effort: Some("high".to_owned()) };
    assert_eq!(model_report(&info), "provider: p\nmodel: m\nreasoning effort: high");
    assert_eq!(effort_report(Some("low")), "reasoning effort set to `low`");
    assert_eq!(effort_report(None), "reasoning effort cleared; the upstream default will be used");
}

#[test]
fn tools_and_toggle_reports() {
    assert_eq!(tools_report(&[]), "no compiled tools");
    let tools = vec![
        ToolStatus { name: "echo".to_owned(), description: "Echo".to_owned(), enabled: true },
        ToolStatus { name: "random".to_owned(), description: "Roll".to_owned(), enabled: false },
    ];
    assert_eq!(tools_report(&tools), "echo (enabled) — Echo\nrandom (disabled) — Roll");
    assert_eq!(toggle_report("echo", false), "tool `echo` disabled");
    assert_eq!(toggle_report("echo", true), "tool `echo` enabled");
}

#[test]
fn outcome_and_session_reports() {
    let outcome = RunOutcome {
        text: String::new(),
        model_turns: 1,
        tool_activity: Vec::new(),
        usage: summary(0, 0, None),
        stop_reason: RunStopReason::StepLimit,
    };
    assert_eq!(
        outcome_report(&outcome),
        "(no text output)\nrun stopped: model-turn limit reached; pending tool calls were not executed"
    );
    let outcome = RunOutcome { text: "done".to_owned(), stop_reason: RunStopReason::Completed, ..outcome };
    assert_eq!(outcome_report(&outcome), "done");
    assert_eq!(
        session_report("started session ", SessionId(1)),
        "started session 00000000-0000-0000-0000-000000000001"
    );
}
