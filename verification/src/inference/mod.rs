//! Inference data exchanged with model backends.

pub mod openai_responses;

use vstd::prelude::*;

pub use openai_responses::OpenAiResponsesBackendError;

verus! {

/// A backend-owned protocol item which the kernel retains and replays but
/// never interprets. It holds the item's JSON text exactly as the backend
/// produced it.
#[derive(Debug)]
pub struct ContinuationItem {
    value: String,
}

impl View for ContinuationItem {
    type V = Seq<char>;

    closed spec fn view(&self) -> Seq<char> {
        self.value@
    }
}

impl ContinuationItem {
    /// Wraps a protocol item's JSON text. Only backend adapters create these.
    pub fn from_protocol_text(value: String) -> (item: Self)
        ensures
            item@ == value@,
    {
        ContinuationItem { value }
    }

    /// The protocol item's JSON text, for replay to the same backend.
    pub fn protocol_text(&self) -> (s: &str)
        ensures
            s@ == self@,
    {
        self.value.as_str()
    }

    pub fn duplicate(&self) -> (r: Self)
        ensures
            r == *self,
    {
        ContinuationItem { value: self.value.clone() }
    }
}

/// One item of committed conversation context.
#[derive(Debug)]
pub enum ConversationItem {
    UserText(String),
    Continuation(ContinuationItem),
    FunctionCallOutput { call_id: String, output: String },
}

impl ConversationItem {
    pub fn duplicate(&self) -> (r: Self)
        ensures
            r == *self,
    {
        match self {
            ConversationItem::UserText(t) => ConversationItem::UserText(t.clone()),
            ConversationItem::Continuation(c) => ConversationItem::Continuation(c.duplicate()),
            ConversationItem::FunctionCallOutput { call_id, output } => {
                ConversationItem::FunctionCallOutput { call_id: call_id.clone(), output: output.clone() }
            },
        }
    }
}

/// Copies a sequence of conversation items.
pub fn copy_items(items: &[ConversationItem]) -> (r: Vec<ConversationItem>)
    ensures
        r@ == items@,
{
    let mut r: Vec<ConversationItem> = Vec::new();
    let mut i: usize = 0;
    while i < items.len()
        invariant
            i <= items.len(),
            r@ == items@.take(i as int),
        decreases items.len() - i,
    {
        r.push(items[i].duplicate());
        assert(items@.take(i + 1) == items@.take(i as int).push(items@[i as int]));
        i += 1;
    }
    assert(items@.take(items.len() as int) == items@);
    r
}

/// A request from the model to run a tool.
#[derive(Debug)]
pub struct ToolCall {
    pub call_id: String,
    pub name: String,
    pub arguments: String,
}

impl ToolCall {
    pub fn duplicate(&self) -> (r: Self)
        ensures
            r == *self,
    {
        ToolCall {
            call_id: self.call_id.clone(),
            name: self.name.clone(),
            arguments: self.arguments.clone(),
        }
    }
}

/// The one behavioral projection of a backend output item.
#[derive(Debug)]
pub enum OutputEffect {
    NoEffect,
    /// One complete model message.
    Message(String),
    ToolCall(ToolCall),
}

impl OutputEffect {
    pub fn duplicate(&self) -> (r: Self)
        ensures
            r == *self,
    {
        match self {
            OutputEffect::NoEffect => OutputEffect::NoEffect,
            OutputEffect::Message(t) => OutputEffect::Message(t.clone()),
            OutputEffect::ToolCall(c) => OutputEffect::ToolCall(c.duplicate()),
        }
    }
}

/// An immutable protocol item coupled with its projection.
#[derive(Debug)]
pub struct ModelOutputItem {
    continuation: ContinuationItem,
    effect: OutputEffect,
}

impl ModelOutputItem {
    pub closed spec fn continuation_spec(&self) -> ContinuationItem {
        self.continuation
    }

    pub closed spec fn effect_spec(&self) -> OutputEffect {
        self.effect
    }

    pub fn new(continuation: ContinuationItem, effect: OutputEffect) -> (item: Self)
        ensures
            item.continuation_spec() == continuation,
            item.effect_spec() == effect,
    {
        ModelOutputItem { continuation, effect }
    }

    pub fn effect(&self) -> (e: &OutputEffect)
        ensures
            *e == self.effect_spec(),
    {
        &self.effect
    }

    pub fn continuation(&self) -> (c: &ContinuationItem)
        ensures
            *c == self.continuation_spec(),
    {
        &self.continuation
    }

    pub fn into_continuation(self) -> (c: ContinuationItem)
        ensures
            c == self.continuation_spec(),
    {
        self.continuation
    }

    pub fn duplicate(&self) -> (r: Self)
        ensures
            r == *self,
    {
        ModelOutputItem { continuation: self.continuation.duplicate(), effect: self.effect.duplicate() }
    }
}

/// Token counts reported for one model call.
#[derive(Clone, Copy, Debug, Default, PartialEq, Eq)]
pub struct TokenUsage {
    pub input_tokens: u64,
    pub output_tokens: u64,
    pub total_tokens: u64,
}

/// A complete model response.
#[derive(Debug)]
pub struct InferenceResponse {
    pub output: Vec<ModelOutputItem>,
    pub usage: Option<TokenUsage>,
}

/// A failed inference, described by its message.
#[derive(Debug)]
pub struct InferenceError {
    message: String,
}

impl View for InferenceError {
    type V = Seq<char>;

    closed spec fn view(&self) -> Seq<char> {
        self.message@
    }
}

impl InferenceError {
    pub fn new(message: String) -> (e: Self)
        ensures
            e@ == message@,
    {
        InferenceError { message }
    }

    pub fn message(&self) -> (s: &str)
        ensures
            s@ == self@,
    {
        self.message.as_str()
    }
}

} // verus!
