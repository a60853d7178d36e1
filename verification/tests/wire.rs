use minuet::inference::openai_responses::wire::{
    ErrorMessage,
    WireContent, WireItem, WireResponse, WireUsage, create_request, parse_response, upstream_message,
};
use minuet::inference::openai_responses::endpoints;
use minuet::inference::{ContinuationItem, ConversationItem, OpenAiResponsesBackendError, OutputEffect};
use minuet::model::ReasoningEffort;
use minuet::tool::ToolDefinition;
use serde_json::Value;

fn text_of(v: &Value, key: &str) -> Option<String> {
    v.get(key).and_then(Value::as_str).map(str::to_owned)
}

fn wire_item(v: &Value) -> WireItem {
    WireItem {
        protocol_text: v.to_string(),
        item_type: text_of(v, "type"),
        content: v.get("content").and_then(Value::as_array).map(|parts| {
            parts
                .iter()
                .map(|p| WireContent { part_type: text_of(p, "type"), text: text_of(p, "text") })
                .collect()
        }),
        call_id: text_of(v, "call_id"),
        name: text_of(v, "name"),
        arguments: text_of(v, "arguments"),
    }
}

fn error_field(v: &Value) -> ErrorMessage {
    match v.pointer("/error/message") {
        None => ErrorMessage::Absent,
        Some(Value::String(s)) => ErrorMessage::Text(s.clone()),
        Some(_) => ErrorMessage::NotText,
    }
}

fn wire_response(text: &str) -> WireResponse {
    let v: Value = serde_json::from_str(text).unwrap();
    WireResponse {
        status: text_of(&v, "status"),
        output: v.get("output").and_then(Value::as_array).map(|items| items.iter().map(wire_item).collect()),
        usage: match v.get("usage") {
            None | Some(Value::Null) => WireUsage::Unreported,
            Some(u) => WireUsage::Reported {
                input_tokens: u.get("input_tokens").and_then(Value::as_u64),
                output_tokens: u.get("output_tokens").and_then(Value::as_u64),
                total_tokens: u.get("total_tokens").and_then(Value::as_u64),
            },
        },
        error_message: error_field(&v),
        message: text_of(&v, "message"),
    }
}

fn definition() -> ToolDefinition {
    ToolDefinition {
        name: "echo".to_owned(),
        description: "Echo text".to_owned(),
        parameters: r#"{"type":"object"}"#.to_owned(),
    }
}

fn body(text: String) -> Value {
    serde_json::from_str(&text).unwrap()
}

fn generation_request_is_stateless_and_streaming_case() {
    let items = [ConversationItem::UserText("hello".to_owned())];
    let tools = [definition()];
    let effort = ReasoningEffort::new("vendor-special").unwrap();
    let body = body(create_request("model", &items, &tools, Some(&effort), true));
    assert_eq!(body["stream"], true);
    assert_eq!(body["store"], false);
    assert_eq!(body["truncation"], "disabled");
    assert_eq!(body["include"], serde_json::from_str::<Value>(r#"["reasoning.encrypted_content"]"#).unwrap());
    assert_eq!(body["reasoning"]["effort"], "vendor-special");
    assert!(body.get("instructions").is_none());
}

fn token_count_request_omits_generation_controls_case() {
    let items = [ConversationItem::UserText("hello".to_owned())];
    let body = body(create_request("model", &items, &[], None, false));
    assert!(body.get("stream").is_none());
    assert!(body.get("store").is_none());
    assert!(body.get("truncation").is_none());
    assert!(body.get("include").is_none());
    assert!(body.get("reasoning").is_none());
}

fn parses_all_continuations_and_projects_effects_case() {
    let response = wire_response(
        r#"{
            "status": "completed",
            "output": [
                {"type":"reasoning","id":"r1","summary":[]},
                {"type":"message","content":[{"type":"output_text","text":"calling"}]},
                {"type":"function_call","call_id":"call-1","name":"echo","arguments":"{\"text\":\"hi\"}"}
            ],
            "usage": {"input_tokens":10,"output_tokens":4,"total_tokens":14}
        }"#,
    );
    let parsed = parse_response(response).unwrap();
    assert_eq!(parsed.output.len(), 3);
    assert!(matches!(parsed.output[0].effect(), OutputEffect::NoEffect));
    assert!(matches!(parsed.output[1].effect(), OutputEffect::Message(text) if text == "calling"));
    assert!(matches!(parsed.output[2].effect(), OutputEffect::ToolCall(call) if call.name == "echo"));
    assert_eq!(parsed.usage.unwrap().total_tokens, 14);
}

fn replays_continuations_without_interpreting_them_case() {
    let raw = r#"{"id":"opaque","type":"reasoning","vendor_field":17}"#;
    let items = [ConversationItem::Continuation(ContinuationItem::from_protocol_text(raw.to_owned()))];
    let body = body(create_request("model", &items, &[], None, true));
    assert_eq!(body["input"][0], serde_json::from_str::<Value>(raw).unwrap());
}

fn treats_explicitly_null_usage_as_unreported_case() {
    let response = wire_response(r#"{"status":"completed","output":[{"type":"message","content":[]}],"usage":null}"#);
    assert_eq!(parse_response(response).unwrap().usage, None);
}

#[test]
fn wire_generation_request_is_stateless_and_streaming() {
    generation_request_is_stateless_and_streaming_case();
}

#[test]
fn wire_token_count_request_omits_generation_controls() {
    token_count_request_omits_generation_controls_case();
}

#[test]
fn wire_parses_all_continuations_and_projects_effects() {
    parses_all_continuations_and_projects_effects_case();
}

#[test]
fn wire_replays_continuations_without_interpreting_them() {
    replays_continuations_without_interpreting_them_case();
}

#[test]
fn wire_treats_explicitly_null_usage_as_unreported() {
    treats_explicitly_null_usage_as_unreported_case();
}

#[test]
fn openai_responses_generation_request_is_stateless_and_streaming() {
    generation_request_is_stateless_and_streaming_case();
}

#[test]
fn openai_responses_token_count_request_omits_generation_controls() {
    token_count_request_omits_generation_controls_case();
}

#[test]
fn openai_responses_parses_all_continuations_and_projects_effects() {
    parses_all_continuations_and_projects_effects_case();
}

#[test]
fn openai_responses_replays_continuations_without_interpreting_them() {
    replays_continuations_without_interpreting_them_case();
}

#[test]
fn openai_responses_treats_explicitly_null_usage_as_unreported() {
    treats_explicitly_null_usage_as_unreported_case();
}

#[test]
fn openai_responses_rejects_empty_api_keys_before_building_a_client() {
    assert!(matches!(
        endpoints("https://example.test/v1", ""),
        Err(OpenAiResponsesBackendError::EmptyApiKey)
    ));
}

#[test]
fn mod_rejects_empty_api_keys_before_building_a_client() {
    assert!(matches!(
        endpoints("https://example.test/v1", ""),
        Err(OpenAiResponsesBackendError::EmptyApiKey)
    ));
}

#[test]
fn endpoints_drop_trailing_slashes_of_the_base() {
    let e = endpoints("https://example.test/v1//", "key").unwrap();
    assert_eq!(e.responses_url, "https://example.test/v1/responses");
    assert_eq!(e.input_tokens_url, "https://example.test/v1/responses/input_tokens");
    assert_eq!(e.authorization, "Bearer key");
    assert!(matches!(endpoints("not a url", "key"), Err(OpenAiResponsesBackendError::InvalidUrl(_))));
}

#[test]
fn request_members_follow_key_order_and_quote_text() {
    let items = [
        ConversationItem::UserText("say \"hi\"\n".to_owned()),
        ConversationItem::FunctionCallOutput { call_id: "c".to_owned(), output: "{}".to_owned() },
    ];
    let text = create_request("m", &items, &[definition()], None, false);
    assert_eq!(
        text,
        [
            r#"{"input":[{"content":[{"text":"say \"hi\"\n","type":"input_text"}],"role":"user","type":"message"},"#,
            r#"{"call_id":"c","output":"{}","type":"function_call_output"}],"model":"m","#,
            r#""tools":[{"description":"Echo text","name":"echo","parameters":{"type":"object"},"type":"function"}]}"#
        ]
        .concat()
    );
}

#[test]
fn malformed_items_and_incomplete_responses_are_reported() {
    let missing = wire_response(r#"{"status":"completed","output":[{"type":"function_call","call_id":"c"}]}"#);
    assert_eq!(parse_response(missing).err(), Some(OpenAiResponsesBackendError::MalformedResponse("name")));
    let failed = wire_response(r#"{"status":"failed","message":"busy"}"#);
    assert_eq!(parse_response(failed).err(), Some(OpenAiResponsesBackendError::Incomplete("busy".to_owned())));
    let no_output = wire_response(r#"{"status":"completed"}"#);
    assert_eq!(
        parse_response(no_output).err(),
        Some(OpenAiResponsesBackendError::MalformedResponse("missing output array"))
    );
    assert_eq!(upstream_message(&ErrorMessage::Absent, &None), "upstream returned an unspecified error");
}

#[test]
fn upstream_messages_prefer_the_error_object() {
    let both = json_value(r#"{"error":{"message":"quota"},"message":"busy"}"#);
    assert_eq!(upstream_message(&error_field(&both), &Some("busy".to_owned())), "quota");
    let plain = json_value(r#"{"message":"busy"}"#);
    assert_eq!(upstream_message(&error_field(&plain), &Some("busy".to_owned())), "busy");
    let odd = json_value(r#"{"error":{"message":3},"message":"busy"}"#);
    assert_eq!(upstream_message(&error_field(&odd), &Some("busy".to_owned())), "upstream returned an unspecified error");
}

fn json_value(text: &str) -> Value {
    serde_json::from_str(text).unwrap()
}
