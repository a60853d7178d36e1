use std::sync::Arc;

use minuet::inference::{ContinuationItem, ConversationItem, ModelOutputItem, OutputEffect, TokenUsage, ToolCall};
use minuet::session::{
    MemorySessionRepository, SessionConfig, SessionId, SessionRepositoryError, ToolDisplay,
    ToolExecution, ToolOutcome, ToolResult, TranscriptEntry, UsageSummary,
};

#[test]
fn unknown_usage_is_counted() {
    let mut usage = UsageSummary::default();
    usage.observe(None);
    assert_eq!(usage.unreported_calls, 1);
}

#[test]
fn session_ids_round_trip() {
    let id = SessionId::random();
    assert_eq!(SessionId::parse(&id.to_text()).unwrap(), id);
}

#[test]
fn session_id_text_is_the_hyphenated_uuid() {
    let id = SessionId::from_value(0x0123_4567_89ab_cdef_0011_2233_4455_6677);
    assert_eq!(id.to_text(), "01234567-89ab-cdef-0011-223344556677");
    assert!(SessionId::parse("not-a-uuid").is_err());
}

#[test]
fn reported_usage_saturates_and_is_kept_as_latest() {
    let mut usage = UsageSummary::default();
    let big = TokenUsage { input_tokens: u64::MAX, output_tokens: 2, total_tokens: 3 };
    usage.observe(Some(big));
    usage.observe(Some(big));
    assert_eq!(usage.reported_calls, 2);
    assert_eq!(usage.input_tokens, u64::MAX);
    assert_eq!(usage.output_tokens, 4);
    assert_eq!(usage.total_tokens, 6);
    assert_eq!(usage.latest, Some(big));
    usage.observe(None);
    assert_eq!(usage.latest, None);
}

fn item(effect: OutputEffect) -> ModelOutputItem {
    ModelOutputItem::new(ContinuationItem::from_protocol_text("{\"type\":\"test\"}".to_owned()), effect)
}

fn call(id: &str) -> ModelOutputItem {
    item(OutputEffect::ToolCall(ToolCall {
        call_id: id.to_owned(),
        name: "echo".to_owned(),
        arguments: "{}".to_owned(),
    }))
}

fn completed(text: &str) -> ToolOutcome {
    ToolOutcome::Completed(ToolResult {
        context_output: text.to_owned(),
        display: ToolDisplay { call: "echo({})".to_owned(), output: text.to_owned() },
    })
}

#[test]
fn a_tool_round_needs_exactly_its_results_before_new_input() {
    let mut repo = MemorySessionRepository::new();
    let id = repo.create(SessionConfig::default()).unwrap();
    repo.commit_user(id, "question").unwrap();
    let output = [item(OutputEffect::Message("A".to_owned())), call("x"), call("y")];
    let commit = repo.commit_inference(id, &output, None).unwrap();
    assert_eq!(commit.entries.len(), 3);
    assert_eq!(commit.calls.iter().map(|c| c.call_id.as_str()).collect::<Vec<_>>(), ["x", "y"]);
    let before = repo.transcript(id).unwrap();

    assert!(matches!(repo.ensure_ready(id), Err(SessionRepositoryError::InvalidToolRound { .. })));
    assert!(repo.commit_user(id, "again").is_err());
    assert!(repo.commit_inference(id, &[], None).is_err());
    assert_eq!(
        repo.commit_tool_round(id, vec![completed("1")]),
        Err(SessionRepositoryError::InvalidToolRound {
            id,
            reason: "result count does not match pending calls"
        })
    );
    assert_eq!(repo.transcript(id).unwrap(), before);

    let done = repo.commit_tool_round(id, vec![completed("1"), completed("2")]).unwrap();
    assert_eq!(done.len(), 2);
    assert!(matches!(
        done[1].as_ref(),
        TranscriptEntry::ToolInvocation { execution: ToolExecution::Completed(d), .. } if d.output == "2"
    ));
    assert!(matches!(
        before[2].as_ref(),
        TranscriptEntry::ToolInvocation { execution: ToolExecution::Pending, .. }
    ));
    assert!(repo.ensure_ready(id).is_ok());
    let items = repo.snapshot(id).unwrap().items;
    assert_eq!(items.len(), 6);
    assert!(matches!(&items[5], ConversationItem::FunctionCallOutput { call_id, output } if call_id == "y" && output == "2"));
    assert_eq!(
        repo.commit_tool_round(id, Vec::new()),
        Err(SessionRepositoryError::InvalidToolRound { id, reason: "no pending tool round" })
    );
}

#[test]
fn sessions_are_listed_cleared_and_deleted() {
    let mut repo = MemorySessionRepository::new();
    let a = repo.create(SessionConfig::default()).unwrap();
    let b = repo.create(SessionConfig::default()).unwrap();
    assert_ne!(a, b);
    repo.commit_user(a, &"x".repeat(100)).unwrap();
    repo.commit_inference(a, &[], Some(TokenUsage { input_tokens: 1, output_tokens: 2, total_tokens: 3 }))
        .unwrap();
    let list = repo.list();
    assert_eq!(list.len(), 2);
    let summary = list.iter().find(|s| s.id == a).unwrap();
    assert_eq!(summary.brief, "x".repeat(80));
    assert_eq!(summary.item_count, 1);
    assert_eq!(summary.usage.total_tokens, 3);
    assert_eq!(list.iter().find(|s| s.id == b).unwrap().brief, "empty session");
    repo.clear(a).unwrap();
    assert!(repo.snapshot(a).unwrap().items.is_empty());
    assert_eq!(repo.snapshot(a).unwrap().usage, UsageSummary::default());
    repo.delete(b).unwrap();
    assert_eq!(repo.delete(b), Err(SessionRepositoryError::NotFound(b)));
    assert_eq!(repo.list().len(), 1);
    let shared: Vec<Arc<TranscriptEntry>> = repo.transcript(a).unwrap();
    assert!(shared.is_empty());
}

#[test]
fn repository_errors_render_the_session_id() {
    let id = SessionId::from_value(1);
    assert_eq!(
        SessionRepositoryError::NotFound(id).message(),
        "session 00000000-0000-0000-0000-000000000001 was not found"
    );
}

#[test]
fn random_ids_are_version_four_rfc_variant_uuids() {
    let a = SessionId::random();
    let b = SessionId::random();
    assert_eq!((a.0 >> 76) & 0xF, 4);
    assert_eq!((a.0 >> 62) & 0x3, 2);
    assert_ne!(a, b);
    assert_eq!(SessionId::parse(&a.to_text()), Ok(a));
}
