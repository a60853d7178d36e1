use minuet::inference::openai_responses::stream::{ResponseStream, WireEvent};
use minuet::inference::openai_responses::wire::{ErrorMessage, WireContent, WireItem, WireResponse, WireUsage};
use minuet::inference::{InferenceResponse, OpenAiResponsesBackendError as Error, OutputEffect};
use serde_json::Value;

fn text_of(v: &Value, key: &str) -> Option<String> {
    v.get(key).and_then(Value::as_str).map(str::to_owned)
}

fn wire_item(v: &Value) -> WireItem {
    WireItem {
        protocol_text: v.to_string(),
        item_type: text_of(v, "type"),
        content: v.get("content").and_then(Value::as_array).map(|parts| {
            parts
                .iter()
                .map(|p| WireContent { part_type: text_of(p, "type"), text: text_of(p, "text") })
                .collect()
        }),
        call_id: text_of(v, "call_id"),
        name: text_of(v, "name"),
        arguments: text_of(v, "arguments"),
    }
}

fn error_field(v: &Value) -> ErrorMessage {
    match v.pointer("/error/message") {
        None => ErrorMessage::Absent,
        Some(Value::String(s)) => ErrorMessage::Text(s.clone()),
        Some(_) => ErrorMessage::NotText,
    }
}

fn wire_response(v: &Value) -> WireResponse {
    WireResponse {
        status: text_of(v, "status"),
        output: v.get("output").and_then(Value::as_array).map(|items| items.iter().map(wire_item).collect()),
        usage: match v.get("usage") {
            None | Some(Value::Null) => WireUsage::Unreported,
            Some(u) => WireUsage::Reported {
                input_tokens: u.get("input_tokens").and_then(Value::as_u64),
                output_tokens: u.get("output_tokens").and_then(Value::as_u64),
                total_tokens: u.get("total_tokens").and_then(Value::as_u64),
            },
        },
        error_message: error_field(v),
        message: text_of(v, "message"),
    }
}

fn wire_event(data: &str) -> Option<WireEvent> {
    let v: Value = serde_json::from_str(data).ok()?;
    Some(WireEvent {
        event_type: text_of(&v, "type"),
        output_index: v.get("output_index").and_then(Value::as_u64),
        delta: text_of(&v, "delta"),
        item: v.get("item").map(wire_item),
        response: v.get("response").map(wire_response),
        error_message: error_field(&v),
        message: text_of(&v, "message"),
    })
}

fn json(text: &str) -> Value {
    serde_json::from_str(text).unwrap()
}

fn message(text: &str) -> Value {
    let mut m = json(
        r#"{"type":"message","id":"m","role":"assistant","status":"completed","content":[{"type":"output_text","annotations":[]}]}"#,
    );
    m["content"][0]["text"] = Value::String(text.to_owned());
    m
}

fn push(s: &mut ResponseStream, e: &Value) -> Result<Option<String>, Error> {
    let data = e.to_string();
    s.push(&data, wire_event(&data))
}

fn stream(events: Vec<Value>) -> Result<InferenceResponse, Error> {
    let mut s = ResponseStream::new();
    for e in events {
        push(&mut s, &e)?;
    }
    s.finish()
}

fn done(index: usize, item: &Value) -> Value {
    let mut e = json(r#"{"type":"response.output_item.done"}"#);
    e["output_index"] = Value::from(index);
    e["item"] = item.clone();
    e
}

fn completed(output: Vec<Value>) -> Value {
    let mut e = json(r#"{"type":"response.completed","response":{"status":"completed"}}"#);
    e["response"]["output"] = Value::Array(output);
    e
}

#[test]
fn reconstructs_empty_terminal_from_done_item() {
    let item = message("OK");
    let r = stream(vec![done(0, &item), completed(vec![])]).unwrap();
    assert!(matches!(r.output[0].effect(), OutputEffect::Message(t) if t == "OK"));
}

#[test]
fn complete_and_reconstructed_turns_preserve_message_boundaries_and_call_order() {
    let items = vec![
        json(r#"{"type":"reasoning","encrypted_content":"opaque"}"#),
        message("[cross][ref]\n\n"),
        message("[ref]: https://example.test\n\nseparate"),
        json(r#"{"type":"function_call","call_id":"x","name":"echo","arguments":"{}"}"#),
        message("```rust\nfn partial() {}"),
        json(r#"{"type":"function_call","call_id":"y","name":"echo","arguments":"{}"}"#),
        message("**after-fence**"),
    ];
    for reconstruct in [false, true] {
        let mut events = Vec::new();
        if reconstruct {
            for (index, item) in items.iter().enumerate().rev() {
                events.push(done(index, item));
            }
        }
        events.push(completed(if reconstruct { vec![] } else { items.clone() }));
        let response = stream(events).unwrap();
        assert_eq!(response.output.len(), items.len());
        for (projected, original) in response.output.iter().zip(&items) {
            let replayed: Value = serde_json::from_str(projected.continuation().protocol_text()).unwrap();
            assert_eq!(&replayed, original);
        }
        assert!(matches!(response.output[0].effect(), OutputEffect::NoEffect));
        assert!(matches!(response.output[1].effect(), OutputEffect::Message(text) if text == "[cross][ref]\n\n"));
        assert!(matches!(response.output[2].effect(), OutputEffect::Message(text) if text.starts_with("[ref]:")));
        assert!(matches!(response.output[3].effect(), OutputEffect::ToolCall(call) if call.call_id == "x"));
        assert!(matches!(response.output[4].effect(), OutputEffect::Message(text) if text.starts_with("```")));
        assert!(matches!(response.output[5].effect(), OutputEffect::ToolCall(call) if call.call_id == "y"));
        assert!(matches!(response.output[6].effect(), OutputEffect::Message(text) if text == "**after-fence**"));
    }
}

#[test]
fn terminal_item_is_authoritative() {
    let item = message("OK");
    let mut other = message("NO");
    other["id"] = Value::String("m".to_owned());
    let result = stream(vec![done(0, &item), completed(vec![other])]).unwrap();
    assert!(matches!(result.output[0].effect(), OutputEffect::Message(t) if t == "NO"));
}

#[test]
fn complete_terminal_output_survives_unfinished_preview() {
    let item = message("OK");
    let result = stream(vec![
        json(r#"{"type":"response.output_item.added","output_index":3,"item":{"type":"message","status":"in_progress"}}"#),
        completed(vec![item]),
    ])
    .unwrap();
    assert!(matches!(result.output[0].effect(), OutputEffect::Message(t) if t == "OK"));
}

#[test]
fn rejects_events_after_terminal() {
    assert!(
        stream(vec![completed(vec![]), json(r#"{"type":"response.output_text.delta","delta":"late"}"#)])
            .is_err()
    );
}

#[test]
fn accepts_done_sentinel_only_as_framing_after_success() {
    let mut s = ResponseStream::new();
    let data = r#"{"type":"response.completed","response":{"status":"completed","output":[]}}"#;
    s.push(data, wire_event(data)).unwrap();
    s.push("[DONE]", wire_event("[DONE]")).unwrap();
    assert!(s.finish().is_ok());
}

#[test]
fn rejects_unindexed_preview_when_terminal_output_is_empty() {
    assert!(stream(vec![json(r#"{"type":"response.output_text.delta","delta":"preview"}"#), completed(vec![])]).is_err());
}

#[test]
fn rejects_a_started_index_that_has_no_matching_finalized_item() {
    let item = message("OK");
    assert!(stream(vec![
        json(r#"{"type":"response.output_item.added","output_index":1,"item":{"type":"message","status":"in_progress"}}"#),
        done(0, &item),
        completed(vec![]),
    ])
    .is_err());
}

#[test]
fn preserves_tool_call_identity() {
    let item = json(r#"{"type":"function_call","id":"f","call_id":"c","name":"x","arguments":"{}"}"#);
    assert!(stream(vec![done(0, &item), done(1, &item), completed(vec![])]).is_err());
}

#[test]
fn text_deltas_preview_and_failures_report_the_upstream_message() {
    let mut s = ResponseStream::new();
    let delta = json(r#"{"type":"response.output_text.delta","output_index":0,"delta":"hi"}"#);
    assert_eq!(push(&mut s, &delta).unwrap(), Some("hi".to_owned()));
    let failed = json(r#"{"type":"response.failed","response":{"error":{"message":"quota"}}}"#);
    assert_eq!(push(&mut s, &failed), Err(Error::StreamTerminal("quota".to_owned())));
    assert_eq!(s.push("not json", None), Err(Error::MalformedStream("invalid SSE JSON")));
    let other = json(r#"{"type":"error"}"#);
    assert_eq!(
        push(&mut s, &other),
        Err(Error::StreamTerminal("upstream returned an unspecified error".to_owned()))
    );
}

#[test]
fn indexes_beyond_the_item_limit_and_gaps_are_refused() {
    let mut s = ResponseStream::new();
    let far = json(r#"{"type":"response.output_item.added","output_index":1024,"item":{}}"#);
    assert_eq!(push(&mut s, &far), Err(Error::ResourceLimit("output index exceeds limit")));
    let gap = stream(vec![done(1, &message("late")), completed(vec![])]);
    assert_eq!(
        gap.err(),
        Some(Error::OutputIntegrity { index: None, detail: "output indexes were not contiguous" })
    );
    assert_eq!(
        ResponseStream::new().finish().err(),
        Some(Error::MalformedStream("stream ended without response.completed"))
    );
}

#[test]
fn empty_terminal_output_integrity_errors_carry_no_index() {
    let unindexed = stream(vec![json(r#"{"type":"response.output_text.delta","delta":"preview"}"#), completed(vec![])]);
    assert!(matches!(unindexed, Err(Error::OutputIntegrity { index: None, .. })));
    let item = message("OK");
    let unfinished = stream(vec![
        json(r#"{"type":"response.output_item.added","output_index":1,"item":{"type":"message","status":"in_progress"}}"#),
        done(0, &item),
        completed(vec![]),
    ]);
    assert!(matches!(unfinished, Err(Error::OutputIntegrity { index: None, .. })));
    let finished = stream(vec![
        json(r#"{"type":"response.output_item.added","output_index":0,"item":{"type":"message","status":"in_progress"}}"#),
        done(0, &item),
        completed(vec![]),
    ]);
    assert!(finished.is_ok());
}
