//! The OpenAI Responses wire values the adapter reads, and their projection
//! into model output.

use vstd::prelude::*;

use super::OpenAiResponsesBackendError as Error;
use crate::inference::{
    ContinuationItem, ConversationItem, InferenceResponse, ModelOutputItem, OutputEffect, TokenUsage,
    ToolCall,
};
use crate::json::{json_quote, json_string};
use crate::model::ReasoningEffort;
use crate::text::{push_str, str_equal};
use crate::tool::ToolDefinition;

verus! {

/// One part of a message's content: its `type` and `text` members, each
/// when it is a JSON string.
#[derive(Debug)]
pub struct WireContent {
    pub part_type: Option<String>,
    pub text: Option<String>,
}

/// One output item: its JSON text, kept as the opaque continuation, and the
/// members the projection reads, each when it has the expected JSON type.
#[derive(Debug)]
pub struct WireItem {
    pub protocol_text: String,
    pub item_type: Option<String>,
    /// The `content` member when it is an array.
    pub content: Option<Vec<WireContent>>,
    pub call_id: Option<String>,
    pub name: Option<String>,
    pub arguments: Option<String>,
}

/// The `usage` member of a response: absent or `null`, or an object with
/// its counters, each when it is an unsigned integer.
#[derive(Debug)]
pub enum WireUsage {
    Unreported,
    Reported { input_tokens: Option<u64>, output_tokens: Option<u64>, total_tokens: Option<u64> },
}

/// A response object, as far as the adapter reads it.
#[derive(Debug)]
pub struct WireResponse {
    pub status: Option<String>,
    /// The `output` member when it is an array.
    pub output: Option<Vec<WireItem>>,
    pub usage: WireUsage,
    /// What stands at `/error/message`.
    pub error_message: ErrorMessage,
    /// The string at `/message`, if any.
    pub message: Option<String>,
}

/// What a JSON object holds at `/error/message`.
#[derive(Debug)]
pub enum ErrorMessage {
    /// Nothing: there is no `error` object, or it has no `message`.
    Absent,
    /// A string.
    Text(String),
    /// A value that is not a string.
    NotText,
}

/// The message an upstream failure reports: the string at
/// `/error/message`; where nothing stands there, the string at `/message`;
/// failing those, a fixed text.
pub open spec fn upstream_text(error_message: ErrorMessage, message: Option<String>) -> Seq<char> {
    match error_message {
        ErrorMessage::Text(m) => m@,
        ErrorMessage::NotText => "upstream returned an unspecified error"@,
        ErrorMessage::Absent => match message {
            Some(m) => m@,
            None => "upstream returned an unspecified error"@,
        },
    }
}

/// The message an upstream failure reports.
pub fn upstream_message(error_message: &ErrorMessage, message: &Option<String>) -> (s: String)
    ensures
        s@ == upstream_text(*error_message, *message),
{
    match error_message {
        ErrorMessage::Text(m) => m.clone(),
        ErrorMessage::NotText => "upstream returned an unspecified error".to_owned(),
        ErrorMessage::Absent => match message {
            Some(m) => m.clone(),
            None => "upstream returned an unspecified error".to_owned(),
        },
    }
}

/// Whether an optional text is exactly `expected`.
pub open spec fn is_text(value: Option<String>, expected: Seq<char>) -> bool {
    value matches Some(v) && v@ == expected
}

fn text_is(value: &Option<String>, expected: &str) -> (r: bool)
    ensures
        r == is_text(*value, expected@),
{
    match value {
        Some(v) => str_equal(v.as_str(), expected),
        None => false,
    }
}

/// The text of a message: its `output_text` parts' texts in order, or
/// `None` when such a part has no text.
pub open spec fn message_text(parts: Seq<WireContent>) -> Option<Seq<char>>
    decreases parts.len(),
{
    if parts.len() == 0 {
        Some(seq![])
    } else {
        match message_text(parts.drop_last()) {
            None => None,
            Some(t) => {
                let p = parts.last();
                if is_text(p.part_type, "output_text"@) {
                    match p.text {
                        Some(x) => Some(t + x@),
                        None => None,
                    }
                } else {
                    Some(t)
                }
            },
        }
    }
}

/// What an item projects to, or the member whose absence makes it malformed.
pub enum ItemProjection {
    NoEffect,
    Message(Seq<char>),
    ToolCall { call_id: Seq<char>, name: Seq<char>, arguments: Seq<char> },
    Malformed(&'static str),
}

/// The projection of an output item: a message's text (no effect when
/// empty), a function call's identity and arguments, or no effect for any
/// other item.
pub open spec fn item_projection(item: WireItem) -> ItemProjection {
    if is_text(item.item_type, "message"@) {
        match item.content {
            None => ItemProjection::Malformed("message content"),
            Some(parts) => match message_text(parts@) {
                None => ItemProjection::Malformed("output_text text"),
                Some(t) => if t.len() == 0 {
                    ItemProjection::NoEffect
                } else {
                    ItemProjection::Message(t)
                },
            },
        }
    } else if is_text(item.item_type, "function_call"@) {
        match (item.call_id, item.name, item.arguments) {
            (None, _, _) => ItemProjection::Malformed("call_id"),
            (Some(_), None, _) => ItemProjection::Malformed("name"),
            (Some(_), Some(_), None) => ItemProjection::Malformed("arguments"),
            (Some(c), Some(n), Some(a)) => ItemProjection::ToolCall { call_id: c@, name: n@, arguments: a@ },
        }
    } else {
        ItemProjection::NoEffect
    }
}

/// Whether `e` is what `p` projects to.
pub open spec fn effect_matches(e: OutputEffect, p: ItemProjection) -> bool {
    match p {
        ItemProjection::NoEffect => e is NoEffect,
        ItemProjection::Message(t) => e matches OutputEffect::Message(m) && m@ == t,
        ItemProjection::ToolCall { call_id, name, arguments } => e matches OutputEffect::ToolCall(c)
            && c.call_id@ == call_id && c.name@ == name && c.arguments@ == arguments,
        ItemProjection::Malformed(_) => false,
    }
}

fn message_effect(parts: &Vec<WireContent>) -> (r: Result<OutputEffect, Error>)
    ensures
        match message_text(parts@) {
            None => r == Err::<OutputEffect, Error>(Error::MalformedResponse("output_text text")),
            Some(t) => r matches Ok(e) && if t.len() == 0 {
                e is NoEffect
            } else {
                e matches OutputEffect::Message(m) && m@ == t
            },
        },
{
    let mut text = String::new();
    let mut i: usize = 0;
    while i < parts.len()
        invariant
            i <= parts@.len(),
            message_text(parts@.take(i as int)) == Some(text@),
        decreases parts.len() - i,
    {
        assert(parts@.take(i + 1).drop_last() =~= parts@.take(i as int));
        let p = &parts[i];
        if text_is(&p.part_type, "output_text") {
            match &p.text {
                Some(x) => push_str(&mut text, x.as_str()),
                None => {
                    proof {
                        lemma_message_text_fails(parts@, i as int + 1);
                    }
                    return Err(Error::MalformedResponse("output_text text"));
                },
            }
        }
        i += 1;
    }
    assert(parts@.take(parts@.len() as int) =~= parts@);
    if text.as_str().unicode_len() == 0 {
        Ok(OutputEffect::NoEffect)
    } else {
        Ok(OutputEffect::Message(text))
    }
}

/// A message whose prefix has a text-less `output_text` part has no text.
proof fn lemma_message_text_fails(parts: Seq<WireContent>, n: int)
    requires
        0 < n <= parts.len(),
        message_text(parts.take(n)) is None,
    ensures
        message_text(parts) is None,
    decreases parts.len() - n,
{
    if n < parts.len() {
        assert(parts.take(n + 1).drop_last() =~= parts.take(n));
        lemma_message_text_fails(parts, n + 1);
    } else {
        assert(parts.take(n) =~= parts);
    }
}

/// Projects one output item, keeping its JSON text as the opaque
/// continuation.
pub fn parse_output_item(item: WireItem) -> (r: Result<ModelOutputItem, Error>)
    ensures
        match item_projection(item) {
            ItemProjection::Malformed(f) => r == Err::<ModelOutputItem, Error>(Error::MalformedResponse(f)),
            p => r matches Ok(o) && o.continuation_spec()@ == item.protocol_text@ && effect_matches(
                o.effect_spec(),
                p,
            ),
        },
{
    let effect = if text_is(&item.item_type, "message") {
        match &item.content {
            None => return Err(Error::MalformedResponse("message content")),
            Some(parts) => message_effect(parts)?,
        }
    } else if text_is(&item.item_type, "function_call") {
        let call_id = match &item.call_id {
            Some(c) => c.clone(),
            None => return Err(Error::MalformedResponse("call_id")),
        };
        let name = match &item.name {
            Some(n) => n.clone(),
            None => return Err(Error::MalformedResponse("name")),
        };
        let arguments = match &item.arguments {
            Some(a) => a.clone(),
            None => return Err(Error::MalformedResponse("arguments")),
        };
        OutputEffect::ToolCall(ToolCall { call_id, name, arguments })
    } else {
        OutputEffect::NoEffect
    };
    Ok(ModelOutputItem::new(ContinuationItem::from_protocol_text(item.protocol_text), effect))
}

/// Whether an item projects without error.
pub fn validate_output_item(item: &WireItem) -> (r: Result<(), Error>)
    ensures
        match item_projection(*item) {
            ItemProjection::Malformed(f) => r == Err::<(), Error>(Error::MalformedResponse(f)),
            _ => r is Ok,
        },
{
    if text_is(&item.item_type, "message") {
        match &item.content {
            None => Err(Error::MalformedResponse("message content")),
            Some(parts) => match message_effect(parts) {
                Ok(_) => Ok(()),
                Err(e) => Err(e),
            },
        }
    } else if text_is(&item.item_type, "function_call") {
        if item.call_id.is_none() {
            Err(Error::MalformedResponse("call_id"))
        } else if item.name.is_none() {
            Err(Error::MalformedResponse("name"))
        } else if item.arguments.is_none() {
            Err(Error::MalformedResponse("arguments"))
        } else {
            Ok(())
        }
    } else {
        Ok(())
    }
}

/// The first malformed item among the first `n`, if any.
pub open spec fn first_malformed(items: Seq<WireItem>, n: int) -> Option<&'static str>
    decreases n,
{
    if n <= 0 {
        None
    } else {
        match first_malformed(items, n - 1) {
            Some(f) => Some(f),
            None => match item_projection(items[n - 1]) {
                ItemProjection::Malformed(f) => Some(f),
                _ => None,
            },
        }
    }
}

/// The usage a response reports, or the counter that is missing.
pub open spec fn usage_projection(u: WireUsage) -> Result<Option<TokenUsage>, &'static str> {
    match u {
        WireUsage::Unreported => Ok(None),
        WireUsage::Reported { input_tokens, output_tokens, total_tokens } => match (
            input_tokens,
            output_tokens,
            total_tokens,
        ) {
            (None, _, _) => Err("input_tokens"),
            (Some(_), None, _) => Err("output_tokens"),
            (Some(_), Some(_), None) => Err("total_tokens"),
            (Some(i), Some(o), Some(t)) => Ok(
                Some(TokenUsage { input_tokens: i, output_tokens: o, total_tokens: t }),
            ),
        },
    }
}

/// Whether `r` is what parsing a response with these members gives: it
/// must be completed and hold an output array; every item is projected in
/// order and a reported usage must carry all three counters.
pub open spec fn response_result(
    status: Option<String>,
    error_message: ErrorMessage,
    message: Option<String>,
    output: Option<Seq<WireItem>>,
    usage: WireUsage,
    r: Result<InferenceResponse, Error>,
) -> bool {
    if !is_text(status, "completed"@) {
        r matches Err(Error::Incomplete(m)) && m@ == upstream_text(error_message, message)
    } else {
        match output {
            None => r == Err::<InferenceResponse, Error>(Error::MalformedResponse("missing output array")),
            Some(items) => match first_malformed(items, items.len() as int) {
                Some(f) => r == Err::<InferenceResponse, Error>(Error::MalformedResponse(f)),
                None => if repeats_call_id(items) {
                    r == Err::<InferenceResponse, Error>(Error::MalformedResponse("duplicate function call id"))
                } else {
                    match usage_projection(usage) {
                    Err(f) => r == Err::<InferenceResponse, Error>(Error::MalformedResponse(f)),
                    Ok(u) => r matches Ok(resp) && resp.usage == u && resp.output@.len() == items.len()
                        && forall|k: int|
                        0 <= k < items.len() ==> #[trigger] resp.output@[k].continuation_spec()@
                            == items[k].protocol_text@ && effect_matches(
                            resp.output@[k].effect_spec(),
                            item_projection(items[k]),
                        ),
                    }
                },
            },
        }
    }
}

/// The call id an item projects to, if it is a function call.
pub open spec fn call_id_of(p: ItemProjection) -> Option<Seq<char>> {
    match p {
        ItemProjection::ToolCall { call_id, .. } => Some(call_id),
        _ => None,
    }
}

/// Whether two function calls of a response share a call id: a result
/// could not then be told apart from the other's.
pub open spec fn repeats_call_id(items: Seq<WireItem>) -> bool {
    exists|i: int, j: int|
        0 <= i < j < items.len() && #[trigger] call_id_of(item_projection(items[i])) is Some
            && call_id_of(item_projection(items[i])) == #[trigger] call_id_of(item_projection(items[j]))
}

/// The output items of a response, as values.
pub open spec fn output_view(output: Option<Vec<WireItem>>) -> Option<Seq<WireItem>> {
    match output {
        Some(v) => Some(v@),
        None => None,
    }
}

/// Parses a terminal response.
#[verifier::loop_isolation(false)]
pub fn parse_response(value: WireResponse) -> (r: Result<InferenceResponse, Error>)
    ensures
        response_result(value.status, value.error_message, value.message, output_view(value.output), value.usage, r),
        value.usage matches WireUsage::Reported { input_tokens: Some(i), output_tokens: Some(o), total_tokens: Some(t) }
            ==> (r matches Ok(resp) ==> resp.usage == Some(TokenUsage { input_tokens: i, output_tokens: o, total_tokens: t })),
{
    if !text_is(&value.status, "completed") {
        return Err(Error::Incomplete(upstream_message(&value.error_message, &value.message)));
    }
    let mut items = match value.output {
        None => return Err(Error::MalformedResponse("missing output array")),
        Some(items) => items,
    };
    let ghost all = items@;
    let mut output: Vec<ModelOutputItem> = Vec::new();
    let mut k: usize = 0;
    let n = items.len();
    while items.len() > 0
        invariant
            is_text(value.status, "completed"@),
            value.output matches Some(v) && v@ == all,
            n == all.len(),
            k + items@.len() == n,
            items@ == all.skip(k as int),
            first_malformed(all, k as int) is None,
            output@.len() == k,
            forall|j: int|
                0 <= j < k ==> #[trigger] output@[j].continuation_spec()@ == all[j].protocol_text@
                    && effect_matches(output@[j].effect_spec(), item_projection(all[j])),
        decreases items.len(),
    {
        let item = items.remove(0);
        assert(item == all[k as int]);
        assert(items@ =~= all.skip(k + 1));
        match parse_output_item(item) {
            Ok(o) => output.push(o),
            Err(e) => {
                proof {
                    lemma_first_malformed_stays(all, k + 1, n as int);
                }
                return Err(e);
            },
        }
        k += 1;
    }
    assert forall|j: int| 0 <= j < all.len() implies #[trigger] effect_matches(
        output@[j].effect_spec(),
        item_projection(all[j]),
    ) by {
        assert(output@[j].continuation_spec()@ == all[j].protocol_text@);
    }
    let mut a: usize = 0;
    while a < output.len()
        invariant
            output@.len() == all.len(),
            forall|j: int|
                0 <= j < all.len() ==> #[trigger] effect_matches(output@[j].effect_spec(), item_projection(all[j])),
            forall|i: int, j: int|
                0 <= i < a && i < j < all.len() ==> !(#[trigger] call_id_of(item_projection(all[i])) is Some
                    && call_id_of(item_projection(all[i])) == #[trigger] call_id_of(item_projection(all[j]))),
        decreases output.len() - a,
    {
        if let OutputEffect::ToolCall(ca) = output[a].effect() {
            let mut b: usize = a + 1;
            while b < output.len()
                invariant
                    a < b <= output@.len(),
                    output@.len() == all.len(),
                    output@[a as int].effect_spec() matches OutputEffect::ToolCall(x) && x == *ca,
                    forall|j: int|
                        0 <= j < all.len() ==> #[trigger] effect_matches(output@[j].effect_spec(), item_projection(all[j])),
                    forall|j: int|
                        a < j < b ==> !(call_id_of(item_projection(all[a as int])) == #[trigger] call_id_of(item_projection(all[j]))),
                decreases output.len() - b,
            {
                assert(effect_matches(output@[b as int].effect_spec(), item_projection(all[b as int])));
                assert(effect_matches(output@[a as int].effect_spec(), item_projection(all[a as int])));
                if let OutputEffect::ToolCall(cb) = output[b].effect() {
                    if str_equal(ca.call_id.as_str(), cb.call_id.as_str()) {
                        assert(call_id_of(item_projection(all[a as int])) is Some && call_id_of(
                            item_projection(all[a as int]),
                        ) == call_id_of(item_projection(all[b as int])));
                        return Err(Error::MalformedResponse("duplicate function call id"));
                    }
                }
                b += 1;
            }
        } else {
            assert(effect_matches(output@[a as int].effect_spec(), item_projection(all[a as int])));
        }
        a += 1;
    }
    let usage = match value.usage {
        WireUsage::Unreported => None,
        WireUsage::Reported { input_tokens, output_tokens, total_tokens } => {
            let i = match input_tokens {
                Some(i) => i,
                None => return Err(Error::MalformedResponse("input_tokens")),
            };
            let o = match output_tokens {
                Some(o) => o,
                None => return Err(Error::MalformedResponse("output_tokens")),
            };
            let t = match total_tokens {
                Some(t) => t,
                None => return Err(Error::MalformedResponse("total_tokens")),
            };
            Some(TokenUsage { input_tokens: i, output_tokens: o, total_tokens: t })
        },
    };
    Ok(InferenceResponse { output, usage })
}

/// Each usage counter comes from the member of its own name: a parsed
/// response whose usage reports `input_tokens`, `output_tokens` and
/// `total_tokens` carries exactly those counts in those fields, and a
/// response without usage carries none.
pub proof fn lemma_usage_counters_by_name(
    status: Option<String>,
    error_message: ErrorMessage,
    message: Option<String>,
    output: Option<Seq<WireItem>>,
    usage: WireUsage,
    r: Result<InferenceResponse, Error>,
)
    requires
        response_result(status, error_message, message, output, usage, r),
    ensures
        usage matches WireUsage::Reported { input_tokens: Some(i), output_tokens: Some(o), total_tokens: Some(t) }
            ==> (r matches Ok(resp) ==> resp.usage == Some(TokenUsage { input_tokens: i, output_tokens: o, total_tokens: t })),
        usage is Unreported ==> (r matches Ok(resp) ==> resp.usage is None),
{
}

/// Once a malformed item is met, it stays the first.
pub proof fn lemma_first_malformed_stays(items: Seq<WireItem>, n: int, m: int)
    requires
        n <= m,
        first_malformed(items, n) is Some,
    ensures
        first_malformed(items, m) == first_malformed(items, n),
    decreases m - n,
{
    if n < m {
        lemma_first_malformed_stays(items, n, m - 1);
    }
}

/// JSON texts separated by commas.
pub open spec fn comma_joined(parts: Seq<Seq<char>>) -> Seq<char>
    decreases parts.len(),
{
    if parts.len() == 0 {
        seq![]
    } else if parts.len() == 1 {
        parts[0]
    } else {
        comma_joined(parts.drop_last()) + ","@ + parts.last()
    }
}

/// A JSON array of the given JSON texts.
pub open spec fn json_array(parts: Seq<Seq<char>>) -> Seq<char> {
    "["@ + comma_joined(parts) + "]"@
}

/// How a conversation item is sent: a user message, a continuation's own
/// JSON unchanged, or a function call's output.
pub open spec fn input_item_json(item: ConversationItem) -> Seq<char> {
    match item {
        ConversationItem::UserText(t) => "{\"content\":[{\"text\":"@ + json_string(t@)
            + ",\"type\":\"input_text\"}],\"role\":\"user\",\"type\":\"message\"}"@,
        ConversationItem::Continuation(c) => c@,
        ConversationItem::FunctionCallOutput { call_id, output } => "{\"call_id\":"@ + json_string(call_id@)
            + ",\"output\":"@ + json_string(output@) + ",\"type\":\"function_call_output\"}"@,
    }
}

/// How a tool is offered: a function with its name, description and
/// parameter schema.
pub open spec fn tool_json(t: ToolDefinition) -> Seq<char> {
    "{\"description\":"@ + json_string(t.description@) + ",\"name\":"@ + json_string(t.name@)
        + ",\"parameters\":"@ + t.parameters@ + ",\"type\":\"function\"}"@
}

/// A request body, members in key order as `serde_json` writes an object.
/// A generation request streams, is not stored, asks for the encrypted
/// reasoning continuation and disables server-side truncation; a token
/// count request has none of these.
pub open spec fn request_json(
    model: Seq<char>,
    input: Seq<ConversationItem>,
    tools: Seq<ToolDefinition>,
    effort: Option<Seq<char>>,
    generation: bool,
) -> Seq<char> {
    "{"@ + (if generation {
        "\"include\":[\"reasoning.encrypted_content\"],"@
    } else {
        seq![]
    }) + "\"input\":"@ + json_array(input.map_values(|i: ConversationItem| input_item_json(i)))
        + ",\"model\":"@ + json_string(model) + match effort {
        Some(e) => ",\"reasoning\":{\"effort\":"@ + json_string(e) + "}"@,
        None => seq![],
    } + (if generation {
        ",\"store\":false,\"stream\":true"@
    } else {
        seq![]
    }) + ",\"tools\":"@ + json_array(tools.map_values(|t: ToolDefinition| tool_json(t))) + (if generation {
        ",\"truncation\":\"disabled\""@
    } else {
        seq![]
    }) + "}"@
}

fn input_item_text(item: &ConversationItem) -> (s: String)
    ensures
        s@ == input_item_json(*item),
{
    match item {
        ConversationItem::UserText(t) => {
            let mut s = "{\"content\":[{\"text\":".to_owned();
            push_str(&mut s, json_quote(t.as_str()).as_str());
            push_str(&mut s, ",\"type\":\"input_text\"}],\"role\":\"user\",\"type\":\"message\"}");
            s
        },
        ConversationItem::Continuation(c) => c.protocol_text().to_owned(),
        ConversationItem::FunctionCallOutput { call_id, output } => {
            let mut s = "{\"call_id\":".to_owned();
            push_str(&mut s, json_quote(call_id.as_str()).as_str());
            push_str(&mut s, ",\"output\":");
            push_str(&mut s, json_quote(output.as_str()).as_str());
            push_str(&mut s, ",\"type\":\"function_call_output\"}");
            s
        },
    }
}

fn tool_text(t: &ToolDefinition) -> (s: String)
    ensures
        s@ == tool_json(*t),
{
    let mut s = "{\"description\":".to_owned();
    push_str(&mut s, json_quote(t.description.as_str()).as_str());
    push_str(&mut s, ",\"name\":");
    push_str(&mut s, json_quote(t.name.as_str()).as_str());
    push_str(&mut s, ",\"parameters\":");
    push_str(&mut s, t.parameters.as_str());
    push_str(&mut s, ",\"type\":\"function\"}");
    s
}

/// Appends `parts` as a JSON array.
fn push_array(out: &mut String, parts: &Vec<String>)
    ensures
        final(out)@ == old(out)@ + json_array(parts@.map_values(|p: String| p@)),
{
    push_str(out, "[");
    let ghost start = out@;
    let mut i: usize = 0;
    while i < parts.len()
        invariant
            i <= parts@.len(),
            out@ == start + comma_joined(parts@.map_values(|p: String| p@).take(i as int)),
        decreases parts.len() - i,
    {
        let ghost views = parts@.map_values(|p: String| p@);
        assert(views.take(i + 1).drop_last() =~= views.take(i as int));
        if i > 0 {
            push_str(out, ",");
        } else {
            assert(views.take(0) =~= Seq::<Seq<char>>::empty());
            assert(views.take(1) =~= seq![views[0]]);
        }
        push_str(out, parts[i].as_str());
        i += 1;
    }
    assert(parts@.map_values(|p: String| p@).take(parts@.len() as int) =~= parts@.map_values(|p: String| p@));
    push_str(out, "]");
}

/// The JSON body of a request.
pub fn create_request(
    model: &str,
    input: &[ConversationItem],
    tools: &[ToolDefinition],
    reasoning_effort: Option<&ReasoningEffort>,
    generation: bool,
) -> (body: String)
    ensures
        body@ == request_json(
            model@,
            input@,
            tools@,
            match reasoning_effort {
                Some(e) => Some(e@),
                None => None,
            },
            generation,
        ),
{
    let mut items: Vec<String> = Vec::new();
    let mut i: usize = 0;
    while i < input.len()
        invariant
            i <= input@.len(),
            items@.len() == i,
            forall|j: int| 0 <= j < i ==> #[trigger] items@[j]@ == input_item_json(input@[j]),
        decreases input.len() - i,
    {
        items.push(input_item_text(&input[i]));
        i += 1;
    }
    assert(items@.map_values(|p: String| p@) =~= input@.map_values(|x: ConversationItem| input_item_json(x)));
    let mut offered: Vec<String> = Vec::new();
    let mut k: usize = 0;
    while k < tools.len()
        invariant
            k <= tools@.len(),
            offered@.len() == k,
            forall|j: int| 0 <= j < k ==> #[trigger] offered@[j]@ == tool_json(tools@[j]),
        decreases tools.len() - k,
    {
        offered.push(tool_text(&tools[k]));
        k += 1;
    }
    assert(offered@.map_values(|p: String| p@) =~= tools@.map_values(|t: ToolDefinition| tool_json(t)));
    let mut body = "{".to_owned();
    if generation {
        push_str(&mut body, "\"include\":[\"reasoning.encrypted_content\"],");
    }
    push_str(&mut body, "\"input\":");
    push_array(&mut body, &items);
    push_str(&mut body, ",\"model\":");
    push_str(&mut body, json_quote(model).as_str());
    if let Some(e) = reasoning_effort {
        push_str(&mut body, ",\"reasoning\":{\"effort\":");
        push_str(&mut body, json_quote(e.as_str()).as_str());
        push_str(&mut body, "}");
    }
    if generation {
        push_str(&mut body, ",\"store\":false,\"stream\":true");
    }
    push_str(&mut body, ",\"tools\":");
    push_array(&mut body, &offered);
    if generation {
        push_str(&mut body, ",\"truncation\":\"disabled\"");
    }
    push_str(&mut body, "}");
    proof {
        reveal_strlit("");
    }
    body
}

} // verus!
