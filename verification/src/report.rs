//! The texts that command results are shown as.

use vstd::prelude::*;

use crate::agent_loop::{RunOutcome, RunStopReason};
use crate::kernel::{ContextInfo, InputTokenCount, ModelInfo};
use crate::session::{SessionId, UsageSummary, uuid_text_spec};
use crate::text::{decimal_digits, push_decimal, push_str};
use crate::tool::ToolStatus;

verus! {

/// Three counters as `input …, output …, total …`.
pub open spec fn counts_text(input: u64, output: u64, total: u64) -> Seq<char> {
    "input "@ + decimal_digits(input as nat) + ", output "@ + decimal_digits(output as nat) + ", total "@
        + decimal_digits(total as nat)
}

fn push_counts(s: &mut String, input: u64, output: u64, total: u64)
    ensures
        final(s)@ == old(s)@ + counts_text(input, output, total),
{
    push_str(s, "input ");
    push_decimal(s, input);
    push_str(s, ", output ");
    push_decimal(s, output);
    push_str(s, ", total ");
    push_decimal(s, total);
}

/// How a session's usage is reported: the latest call's usage (or why there
/// is none), then the session's totals, marked partial when some call
/// reported no usage.
pub open spec fn usage_text(u: UsageSummary) -> Seq<char> {
    "last reported usage: "@ + match u.latest {
        Some(l) => counts_text(l.input_tokens, l.output_tokens, l.total_tokens),
        None => if u.reported_calls + u.unreported_calls == 0 {
            "no model calls yet"@
        } else {
            "unavailable for the latest model call"@
        },
    } + "\nsession reported usage: "@ + counts_text(u.input_tokens, u.output_tokens, u.total_tokens) + if u.unreported_calls
        == 0 {
        seq![]
    } else {
        " (partial: at least one call omitted usage)"@
    }
}

pub fn usage_report(u: &UsageSummary) -> (s: String)
    ensures
        s@ == usage_text(*u),
{
    let mut s = "last reported usage: ".to_owned();
    match u.latest {
        Some(l) => push_counts(&mut s, l.input_tokens, l.output_tokens, l.total_tokens),
        None => if u.reported_calls == 0 && u.unreported_calls == 0 {
            push_str(&mut s, "no model calls yet");
        } else {
            push_str(&mut s, "unavailable for the latest model call");
        },
    }
    push_str(&mut s, "\nsession reported usage: ");
    push_counts(&mut s, u.input_tokens, u.output_tokens, u.total_tokens);
    if u.unreported_calls != 0 {
        push_str(&mut s, " (partial: at least one call omitted usage)");
    } else {
        assert(s@ =~= s@ + Seq::<char>::empty());
    }
    s
}

/// The committed context's token count, as reported.
pub open spec fn tokens_text(t: InputTokenCount) -> Seq<char> {
    match t {
        InputTokenCount::Available(n) => decimal_digits(n as nat) + " (upstream count)"@,
        InputTokenCount::Unavailable(e) => "unavailable ("@ + e@ + ")"@,
    }
}

/// The context report: the session, its committed input tokens, its usage.
pub fn context_report(info: &ContextInfo) -> (s: String)
    ensures
        s@ == "session: "@ + uuid_text_spec(info.session_id.0) + "\ncommitted input tokens: "@ + tokens_text(
            info.committed_input_tokens,
        ) + "\n"@ + usage_text(info.usage),
{
    let mut s = "session: ".to_owned();
    push_str(&mut s, info.session_id.to_text().as_str());
    push_str(&mut s, "\ncommitted input tokens: ");
    match &info.committed_input_tokens {
        InputTokenCount::Available(n) => {
            push_decimal(&mut s, *n);
            push_str(&mut s, " (upstream count)");
        },
        InputTokenCount::Unavailable(e) => {
            push_str(&mut s, "unavailable (");
            push_str(&mut s, e.as_str());
            push_str(&mut s, ")");
        },
    }
    push_str(&mut s, "\n");
    push_str(&mut s, usage_report(&info.usage).as_str());
    s
}

/// The model report; an absent effort is the upstream default.
pub fn model_report(info: &ModelInfo) -> (s: String)
    ensures
        s@ == "provider: "@ + info.provider@ + "\nmodel: "@ + info.model@ + "\nreasoning effort: "@
            + match info.reasoning_effort {
            Some(e) => e@,
            None => "upstream default"@,
        },
{
    let mut s = "provider: ".to_owned();
    push_str(&mut s, info.provider.as_str());
    push_str(&mut s, "\nmodel: ");
    push_str(&mut s, info.model.as_str());
    push_str(&mut s, "\nreasoning effort: ");
    match &info.reasoning_effort {
        Some(e) => push_str(&mut s, e.as_str()),
        None => push_str(&mut s, "upstream default"),
    }
    s
}

/// What setting or clearing the effort reports.
pub fn effort_report(effort: Option<&str>) -> (s: String)
    ensures
        match effort {
            Some(e) => s@ == "reasoning effort set to `"@ + e@ + "`"@,
            None => s@ == "reasoning effort cleared; the upstream default will be used"@,
        },
{
    match effort {
        Some(e) => crate::text::framed("reasoning effort set to `", e, "`"),
        None => "reasoning effort cleared; the upstream default will be used".to_owned(),
    }
}

/// One tool's line: name, state and description.
pub open spec fn tool_line(t: ToolStatus) -> Seq<char> {
    t.name@ + " ("@ + (if t.enabled { "enabled"@ } else { "disabled"@ }) + ") — "@ + t.description@
}

/// Lines joined with line feeds.
pub open spec fn lines_text(lines: Seq<Seq<char>>) -> Seq<char>
    decreases lines.len(),
{
    if lines.len() == 0 {
        seq![]
    } else if lines.len() == 1 {
        lines[0]
    } else {
        lines_text(lines.drop_last()) + "\n"@ + lines.last()
    }
}

/// The tool list, one line per tool, or a note that there are none.
pub fn tools_report(tools: &[ToolStatus]) -> (s: String)
    ensures
        tools@.len() == 0 ==> s@ == "no compiled tools"@,
        tools@.len() > 0 ==> s@ == lines_text(tools@.map_values(|t: ToolStatus| tool_line(t))),
{
    if tools.len() == 0 {
        return "no compiled tools".to_owned();
    }
    let ghost views = tools@.map_values(|t: ToolStatus| tool_line(t));
    let mut s = String::new();
    let mut i: usize = 0;
    while i < tools.len()
        invariant
            i <= tools@.len(),
            views == tools@.map_values(|t: ToolStatus| tool_line(t)),
            s@ == lines_text(views.take(i as int)),
        decreases tools.len() - i,
    {
        assert(views.take(i + 1).drop_last() =~= views.take(i as int));
        if i > 0 {
            push_str(&mut s, "\n");
        } else {
            assert(views.take(1) =~= seq![views[0]]);
            assert(s@ =~= Seq::<char>::empty());
        }
        let t = &tools[i];
        let ghost before = s@;
        push_str(&mut s, t.name.as_str());
        push_str(&mut s, " (");
        if t.enabled {
            push_str(&mut s, "enabled");
        } else {
            push_str(&mut s, "disabled");
        }
        push_str(&mut s, ") — ");
        push_str(&mut s, t.description.as_str());
        assert(s@ =~= before + tool_line(*t));
        i += 1;
    }
    assert(views.take(tools@.len() as int) =~= views);
    s
}

/// What enabling or disabling a tool reports.
pub fn toggle_report(name: &str, enabled: bool) -> (s: String)
    ensures
        s@ == "tool `"@ + name@ + "` "@ + if enabled { "enabled"@ } else { "disabled"@ },
{
    let mut s = crate::text::framed("tool `", name, "` ");
    push_str(&mut s, if enabled { "enabled" } else { "disabled" });
    s
}

/// What a finished run reports in the transcript: its text (or a note that
/// there is none), and why it stopped when it hit the turn limit.
pub fn outcome_report(outcome: &RunOutcome) -> (s: String)
    ensures
        ({
            let text = if outcome.text@.len() == 0 { "(no text output)"@ } else { outcome.text@ };
            if outcome.stop_reason == RunStopReason::StepLimit {
                s@ == text + "\nrun stopped: model-turn limit reached; pending tool calls were not executed"@
            } else {
                s@ == text
            }
        }),
{
    let mut s = if outcome.text.as_str().unicode_len() == 0 {
        "(no text output)".to_owned()
    } else {
        outcome.text.clone()
    };
    if matches!(outcome.stop_reason, RunStopReason::StepLimit) {
        push_str(&mut s, "\nrun stopped: model-turn limit reached; pending tool calls were not executed");
    }
    s
}

/// What session commands report about a session.
pub fn session_report(prefix: &str, id: SessionId) -> (s: String)
    ensures
        s@ == prefix@ + uuid_text_spec(id.0),
{
    let mut s = prefix.to_owned();
    push_str(&mut s, id.to_text().as_str());
    s
}

} // verus!
