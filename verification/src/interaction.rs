//! What the terminal interface shows around a request: the echo of a
//! submitted line, the status label while a run progresses, and the lines
//! that close a finished run or command.

use vstd::prelude::*;

use crate::agent_loop::{RunEvent, RunOutcome, RunStopReason};
use crate::render::Tone;
use crate::text::{framed, is_blank, push_str, str_is_blank};

verus! {

/// `a` followed by `b`.
fn joined(a: &str, b: &str) -> (s: String)
    ensures
        s@ == a@ + b@,
{
    let mut s = a.to_owned();
    push_str(&mut s, b);
    s
}

/// The echo of a submitted line: `> ` and the line, unless it is blank.
pub fn echo(line: &str) -> (r: Option<String>)
    ensures
        is_blank(line@) ==> r is None,
        !is_blank(line@) ==> (r matches Some(s) && s@ == "> "@ + line@),
{
    if str_is_blank(line) {
        None
    } else {
        Some(joined("> ", line))
    }
}

/// The status label a run event sets, if it sets one.
pub open spec fn label_after(event: RunEvent) -> Option<Seq<char>> {
    match event {
        RunEvent::InferenceStarted => Some("Waiting for model…"@),
        RunEvent::ModelTurnCommitted { .. } => Some("Continuing…"@),
        RunEvent::ToolStarted { name, .. } => Some("Running "@ + name@ + "…"@),
        RunEvent::ToolExecutionFinished { .. } => Some("Continuing…"@),
        _ => None,
    }
}

/// The status label after `event`: the model is awaited, the run goes on
/// after a turn or a tool, or a named tool runs.
pub fn progress_label(event: &RunEvent) -> (r: Option<String>)
    ensures
        match (r, label_after(*event)) {
            (Some(s), Some(t)) => s@ == t,
            (None, None) => true,
            _ => false,
        },
{
    match event {
        RunEvent::InferenceStarted => Some("Waiting for model…".to_owned()),
        RunEvent::ModelTurnCommitted { .. } => Some("Continuing…".to_owned()),
        RunEvent::ToolStarted { name, .. } => Some(framed("Running ", name.as_str(), "…")),
        RunEvent::ToolExecutionFinished { .. } => Some("Continuing…".to_owned()),
        _ => None,
    }
}

/// The lines that close a finished run, after its answer was published: a
/// note when it had no text, then how it stopped and how long it was
/// awaited.
pub fn run_finished(outcome: &RunOutcome, waited: &str) -> (lines: Vec<(String, Tone)>)
    ensures
        ({
            let note: Seq<(Seq<char>, Tone)> = if outcome.text@.len() == 0 {
                seq![("(no text output)"@, Tone::Meta)]
            } else {
                seq![]
            };
            let end: Seq<(Seq<char>, Tone)> = if outcome.stop_reason == RunStopReason::StepLimit {
                seq![
                    ("run stopped: model-turn limit reached; pending tool calls were not executed"@, Tone::Error),
                    ("Stopped · "@ + waited@, Tone::Meta),
                ]
            } else {
                seq![("Completed · "@ + waited@, Tone::Meta)]
            };
            lines@.map_values(|l: (String, Tone)| (l.0@, l.1)) == note + end
        }),
{
    let mut lines: Vec<(String, Tone)> = Vec::new();
    if outcome.text.as_str().unicode_len() == 0 {
        lines.push(("(no text output)".to_owned(), Tone::Meta));
    }
    if matches!(outcome.stop_reason, RunStopReason::StepLimit) {
        lines.push(
            (
                "run stopped: model-turn limit reached; pending tool calls were not executed".to_owned(),
                Tone::Error,
            ),
        );
        lines.push((joined("Stopped · ", waited), Tone::Meta));
    } else {
        lines.push((joined("Completed · ", waited), Tone::Meta));
    }
    proof {
        let note: Seq<(Seq<char>, Tone)> = if outcome.text@.len() == 0 {
            seq![("(no text output)"@, Tone::Meta)]
        } else {
            seq![]
        };
        let end: Seq<(Seq<char>, Tone)> = if outcome.stop_reason == RunStopReason::StepLimit {
            seq![
                ("run stopped: model-turn limit reached; pending tool calls were not executed"@, Tone::Error),
                ("Stopped · "@ + waited@, Tone::Meta),
            ]
        } else {
            seq![("Completed · "@ + waited@, Tone::Meta)]
        };
        assert(lines@.map_values(|l: (String, Tone)| (l.0@, l.1)) =~= note + end);
    }
    lines
}

/// The lines that close a failed request: its error, and for a run how long
/// it was awaited.
pub fn request_failed(message: &str, waited: Option<&str>) -> (lines: Vec<(String, Tone)>)
    ensures
        lines@.map_values(|l: (String, Tone)| (l.0@, l.1)) == seq![("error: "@ + message@, Tone::Error)] + match waited {
            Some(w) => seq![("Failed · "@ + w@, Tone::Error)],
            None => Seq::<(Seq<char>, Tone)>::empty(),
        },
{
    let mut lines: Vec<(String, Tone)> = Vec::new();
    lines.push((joined("error: ", message), Tone::Error));
    if let Some(w) = waited {
        lines.push((joined("Failed · ", w), Tone::Error));
    }
    proof {
        let expected = seq![("error: "@ + message@, Tone::Error)] + match waited {
            Some(w) => seq![("Failed · "@ + w@, Tone::Error)],
            None => Seq::<(Seq<char>, Tone)>::empty(),
        };
        assert(lines@.map_values(|l: (String, Tone)| (l.0@, l.1)) =~= expected);
    }
    lines
}

/// The rows left for the model preview on a screen `screen_rows` high: all
/// but the prompt, the key hint, and the status and unfinished output lines
/// when they are shown.
pub fn preview_room(screen_rows: u16, busy: bool, tail: bool) -> (r: u16)
    ensures
        r as int == (if screen_rows >= 2 + (busy as int) + (tail as int) {
            screen_rows - 2 - (busy as int) - (tail as int)
        } else {
            0
        }),
{
    let reserved: u16 = 2 + if busy { 1 } else { 0 } + if tail { 1 } else { 0 };
    screen_rows.saturating_sub(reserved)
}

/// The live viewport's height: the preview rows, the status line (while
/// busy) or the prompt's rows, the key hint, and the unfinished output line
/// when there is one, within the screen and at least one row.
pub fn viewport_height(preview_rows: u16, busy: bool, input_rows: u16, tail: bool, screen_rows: u16) -> (h: u16)
    ensures
        ({
            let wanted = preview_rows + (if busy { 1int } else { input_rows as int }) + 1 + (tail as int) + (busy as int);
            let fitted = if wanted > screen_rows { screen_rows as int } else { wanted };
            h == (if fitted < 1 { 1 } else { fitted })
        }),
{
    let wanted: u32 = preview_rows as u32 + if busy { 1 } else { input_rows as u32 } + 1 + if tail { 1 } else { 0 } + if busy {
        1
    } else {
        0
    };
    let fitted: u32 = if wanted > screen_rows as u32 { screen_rows as u32 } else { wanted };
    if fitted < 1 {
        1
    } else {
        fitted as u16
    }
}

} // verus!
