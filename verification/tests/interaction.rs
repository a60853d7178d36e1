use minuet::agent_loop::{RunEvent, RunOutcome, RunStopReason};
use minuet::interaction::{echo, preview_room, progress_label, request_failed, run_finished, viewport_height};
use minuet::render::Tone;
use minuet::session::UsageSummary;

fn outcome(text: &str, stop_reason: RunStopReason) -> RunOutcome {
    RunOutcome {
        text: text.to_owned(),
        model_turns: 1,
        tool_activity: Vec::new(),
        usage: UsageSummary::default(),
        stop_reason,
    }
}

#[test]
fn blank_lines_are_not_echoed() {
    assert_eq!(echo(" \t\n"), None);
    assert_eq!(echo("  hi"), Some(">   hi".to_owned()));
}

#[test]
fn progress_sets_the_status_label() {
    assert_eq!(progress_label(&RunEvent::InferenceStarted).as_deref(), Some("Waiting for model…"));
    let started = RunEvent::ToolStarted { call_id: "c".to_owned(), name: "echo".to_owned() };
    assert_eq!(progress_label(&started).as_deref(), Some("Running echo…"));
    let committed = RunEvent::ModelTurnCommitted { entries: Vec::new() };
    assert_eq!(progress_label(&committed).as_deref(), Some("Continuing…"));
    let delta = RunEvent::ModelTextDelta { text: "x".to_owned() };
    assert_eq!(progress_label(&delta), None);
}

#[test]
fn finished_runs_report_how_they_stopped() {
    assert_eq!(
        run_finished(&outcome("done", RunStopReason::Completed), "3s"),
        vec![("Completed · 3s".to_owned(), Tone::Meta)]
    );
    assert_eq!(
        run_finished(&outcome("", RunStopReason::StepLimit), "1m 00s"),
        vec![
            ("(no text output)".to_owned(), Tone::Meta),
            (
                "run stopped: model-turn limit reached; pending tool calls were not executed".to_owned(),
                Tone::Error
            ),
            ("Stopped · 1m 00s".to_owned(), Tone::Meta),
        ]
    );
}

#[test]
fn failures_report_their_error() {
    assert_eq!(
        request_failed("boom", Some("2s")),
        vec![("error: boom".to_owned(), Tone::Error), ("Failed · 2s".to_owned(), Tone::Error)]
    );
    assert_eq!(request_failed("no such tool", None), vec![("error: no such tool".to_owned(), Tone::Error)]);
}

#[test]
fn viewport_fits_preview_prompt_and_hint() {
    assert_eq!(preview_room(24, false, false), 22);
    assert_eq!(preview_room(24, true, true), 20);
    assert_eq!(preview_room(2, true, false), 0);
    assert_eq!(viewport_height(3, false, 2, true, 24), 7);
    assert_eq!(viewport_height(6, true, 8, true, 24), 10);
    assert_eq!(viewport_height(6, false, 8, false, 5), 5);
    assert_eq!(viewport_height(0, false, 0, false, 0), 1);
}
