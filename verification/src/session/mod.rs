//! Sessions: identifiers, configuration, usage accounting and the
//! repository that owns committed conversation and presentation history.

mod memory;
mod transcript;

use std::sync::Arc;

use vstd::prelude::*;

use crate::inference::{TokenUsage, ToolCall};
use crate::model::ReasoningEffort;

pub use memory::{
    MemorySessionRepository, PendingCall, SessionState, apply_round, brief_of, commit_outputs,
    unique_ids, user_text_committed, with_user_text, tool_calls, pending_calls,
    lemma_commit_outputs_extends, lemma_apply_round_resolves,
    committed_round, fresh_state, index_of, resolved_entry, result_output, session_of, state_wf,
    terminal_execution,
};
pub use transcript::{ToolDisplay, ToolExecution, TranscriptEntry};

verus! {

/// What `uuid::Uuid::parse_str` yields for a text, as the UUID's 128-bit value.
pub uninterp spec fn uuid_parse_spec(s: Seq<char>) -> Option<u128>;

/// `uuid::Uuid::parse_str`, as the UUID's 128-bit value.
#[verifier::external_body]
fn uuid_parse(s: &str) -> (r: Option<u128>)
    ensures
        r == uuid_parse_spec(s@),
{
    uuid::Uuid::parse_str(s).ok().map(|u| u.as_u128())
}

/// The 32 lowercase hexadecimal digits of a 128-bit value, most
/// significant first.
pub open spec fn hex32(v: u128) -> Seq<char> {
    Seq::new(
        32,
        |i: int| crate::text::hex_char(((v as int / vstd::arithmetic::power::pow(16, (31 - i) as nat)) % 16) as nat),
    )
}

/// The hyphenated form of a UUID: its digits in groups of 8, 4, 4, 4 and 12.
pub open spec fn uuid_text_spec(v: u128) -> Seq<char> {
    let h = hex32(v);
    h.subrange(0, 8) + seq!['-'] + h.subrange(8, 12) + seq!['-'] + h.subrange(12, 16) + seq!['-']
        + h.subrange(16, 20) + seq!['-'] + h.subrange(20, 32)
}

/// `Display` for `uuid::Uuid`: the hyphenated lowercase form of the UUID
/// whose big-endian value is `value`. That text parses back to the same UUID.
#[verifier::external_body]
fn uuid_text(value: u128) -> (s: String)
    ensures
        s@ == uuid_text_spec(value),
        uuid_parse_spec(s@) == Some(value),
{
    uuid::Uuid::from_u128(value).to_string()
}

/// The version number of the UUID whose big-endian value is `v`: the high
/// nibble of its seventh byte.
pub open spec fn uuid_version(v: u128) -> u128 {
    (v >> 76u128) & 0xFu128
}

/// The two variant bits of the UUID whose big-endian value is `v`: the top
/// bits of its ninth byte; `0b10` is the RFC 4122 / RFC 9562 variant.
pub open spec fn uuid_variant(v: u128) -> u128 {
    (v >> 62u128) & 0x3u128
}

/// The `k`-th identifier to try when a random one is taken: the random
/// UUID's version, variant and highest bits, with `k` spread over the 64
/// random bits below them (bits 0 to 61, then 64 and 65). Each is again a
/// version 4 UUID of the same variant, and they increase with `k`.
pub open spec fn fallback_id(base: u128, k: u64) -> u128 {
    (base & 0xFFFF_FFFF_FFFF_FFFC_C000_0000_0000_0000u128) | ((k as u128) & 0x3FFF_FFFF_FFFF_FFFFu128) | (((k as u128)
        >> 62u128) << 64u128)
}

/// `fallback_id`, computed.
pub(crate) fn fallback(base: u128, k: u64) -> (c: u128)
    ensures
        c == fallback_id(base, k),
{
    let wide = k as u128;
    (base & 0xFFFF_FFFF_FFFF_FFFC_C000_0000_0000_0000u128) | (wide & 0x3FFF_FFFF_FFFF_FFFFu128) | ((wide >> 62u128) << 64u128)
}

/// Fallback identifiers keep the random UUID's version and variant.
pub proof fn lemma_fallback_keeps_kind(base: u128, k: u64)
    ensures
        uuid_version(fallback_id(base, k)) == uuid_version(base),
        uuid_variant(fallback_id(base, k)) == uuid_variant(base),
{
    let w = k as u128;
    assert((((base & 0xFFFF_FFFF_FFFF_FFFC_C000_0000_0000_0000u128) | (w & 0x3FFF_FFFF_FFFF_FFFFu128) | ((w >> 62u128) << 64u128)) >> 76u128) & 0xFu128
        == (base >> 76u128) & 0xFu128) by (bit_vector)
        requires w <= 0xFFFF_FFFF_FFFF_FFFFu128;
    assert((((base & 0xFFFF_FFFF_FFFF_FFFC_C000_0000_0000_0000u128) | (w & 0x3FFF_FFFF_FFFF_FFFFu128) | ((w >> 62u128) << 64u128)) >> 62u128) & 0x3u128
        == (base >> 62u128) & 0x3u128) by (bit_vector)
        requires w <= 0xFFFF_FFFF_FFFF_FFFFu128;
}

/// Fallback identifiers strictly increase with `k`.
pub proof fn lemma_fallback_increases(base: u128, k: u64)
    requires
        k < u64::MAX,
    ensures
        fallback_id(base, k) < fallback_id(base, (k + 1) as u64),
{
    let w = k as u128;
    let v = (k + 1) as u64 as u128;
    assert(v == w + 1);
    assert(((base & 0xFFFF_FFFF_FFFF_FFFC_C000_0000_0000_0000u128) | (w & 0x3FFF_FFFF_FFFF_FFFFu128) | ((w >> 62u128) << 64u128))
        < ((base & 0xFFFF_FFFF_FFFF_FFFC_C000_0000_0000_0000u128) | (v & 0x3FFF_FFFF_FFFF_FFFFu128) | ((v >> 62u128) << 64u128))) by (bit_vector)
        requires
            w < 0xFFFF_FFFF_FFFF_FFFFu128,
            v == w + 1;
}

/// A random UUID from `uuid::Uuid::new_v4`, as its big-endian value. The
/// random bits are not stated; `new_v4` always sets the version to 4 (random)
/// and the variant to RFC 4122.
#[verifier::external_body]
pub(crate) fn uuid_random() -> (value: u128)
    ensures
        uuid_version(value) == 4,
        uuid_variant(value) == 2,
{
    uuid::Uuid::new_v4().as_u128()
}

/// A session identifier: a UUID.
#[derive(Clone, Copy, Debug, PartialEq, Eq, Hash, PartialOrd, Ord)]
pub struct SessionId(pub u128);

impl SessionId {
    /// The UUID's 128-bit value.
    pub open spec fn value(self) -> u128 {
        self.0
    }

    /// Parses the text of a UUID.
    pub fn parse(value: &str) -> (r: Result<Self, SessionIdError>)
        ensures
            uuid_parse_spec(value@) is Some <==> r is Ok,
            r matches Ok(id) ==> Some(id.value()) == uuid_parse_spec(value@),
            r matches Err(SessionIdError::Invalid(s)) ==> s@ == value@,
    {
        match uuid_parse(value) {
            Some(v) => Ok(SessionId(v)),
            None => Err(SessionIdError::Invalid(value.to_owned())),
        }
    }

    /// A fresh random identifier: a version 4 (random) UUID of the RFC 4122
    /// variant, whose other bits come from chance.
    pub fn random() -> (id: Self)
        ensures
            uuid_version(id.value()) == 4,
            uuid_variant(id.value()) == 2,
    {
        SessionId(uuid_random())
    }

    pub fn from_value(value: u128) -> (id: Self)
        ensures
            id.value() == value,
    {
        SessionId(value)
    }

    /// The hyphenated text, which `parse` accepts and maps back to this id.
    pub fn to_text(&self) -> (s: String)
        ensures
            s@ == uuid_text_spec(self.value()),
            uuid_parse_spec(s@) == Some(self.value()),
    {
        uuid_text(self.0)
    }
}

/// A text that is not a session identifier.
#[derive(Debug, PartialEq, Eq)]
pub enum SessionIdError {
    Invalid(String),
}

impl SessionIdError {
    /// `invalid session ID `…``.
    pub fn message(&self) -> (s: String)
        ensures
            self matches SessionIdError::Invalid(v) && s@ == "invalid session ID `"@ + v@ + "`"@,
    {
        match self {
            SessionIdError::Invalid(v) => {
                let mut s = "invalid session ID `".to_owned();
                crate::text::push_str(&mut s, v.as_str());
                crate::text::push_str(&mut s, "`");
                s
            },
        }
    }
}

/// Per-session model settings.
#[derive(Debug, Default)]
pub struct SessionConfig {
    pub reasoning_effort: Option<ReasoningEffort>,
    pub enabled_tools: Vec<String>,
}

/// Copies a list of names.
pub fn copy_names(names: &[String]) -> (r: Vec<String>)
    ensures
        r@ == names@,
{
    let mut r: Vec<String> = Vec::new();
    let mut i: usize = 0;
    while i < names.len()
        invariant
            i <= names.len(),
            r@ == names@.take(i as int),
        decreases names.len() - i,
    {
        r.push(names[i].clone());
        assert(names@.take(i + 1) == names@.take(i as int).push(names@[i as int]));
        i += 1;
    }
    assert(names@.take(names.len() as int) == names@);
    r
}

/// A session configuration as values.
pub struct ConfigModel {
    pub reasoning_effort: Option<ReasoningEffort>,
    pub enabled_tools: Seq<String>,
}

impl SessionConfig {
    pub open spec fn model(&self) -> ConfigModel {
        ConfigModel { reasoning_effort: self.reasoning_effort, enabled_tools: self.enabled_tools@ }
    }

    pub fn duplicate(&self) -> (r: Self)
        ensures
            r.model() == self.model(),
    {
        let effort = match &self.reasoning_effort {
            Some(e) => Some(e.duplicate()),
            None => None,
        };
        SessionConfig { reasoning_effort: effort, enabled_tools: copy_names(&self.enabled_tools) }
    }
}

/// Token usage accumulated over model calls, with saturating totals.
#[derive(Clone, Copy, Debug, PartialEq, Eq)]
pub struct UsageSummary {
    pub reported_calls: u64,
    pub unreported_calls: u64,
    pub input_tokens: u64,
    pub output_tokens: u64,
    pub total_tokens: u64,
    pub latest: Option<TokenUsage>,
}

pub open spec fn sat_add(a: u64, b: u64) -> u64 {
    if a + b > u64::MAX {
        u64::MAX
    } else {
        (a + b) as u64
    }
}

/// The summary after one more model call that reported `usage`, or none.
pub open spec fn observed(s: UsageSummary, usage: Option<TokenUsage>) -> UsageSummary {
    match usage {
        None => UsageSummary {
            unreported_calls: sat_add(s.unreported_calls, 1),
            latest: None,
            ..s
        },
        Some(u) => UsageSummary {
            reported_calls: sat_add(s.reported_calls, 1),
            input_tokens: sat_add(s.input_tokens, u.input_tokens),
            output_tokens: sat_add(s.output_tokens, u.output_tokens),
            total_tokens: sat_add(s.total_tokens, u.total_tokens),
            latest: Some(u),
            ..s
        },
    }
}

pub open spec fn usage_zero() -> UsageSummary {
    UsageSummary {
        reported_calls: 0,
        unreported_calls: 0,
        input_tokens: 0,
        output_tokens: 0,
        total_tokens: 0,
        latest: None,
    }
}

impl Default for UsageSummary {
    fn default() -> (s: Self)
        ensures
            s == usage_zero(),
    {
        UsageSummary {
            reported_calls: 0,
            unreported_calls: 0,
            input_tokens: 0,
            output_tokens: 0,
            total_tokens: 0,
            latest: None,
        }
    }
}

impl UsageSummary {
    /// Counts one model call: reported usage is added to the totals and
    /// becomes the latest; a call without usage is counted as unreported and
    /// clears the latest.
    pub fn observe(&mut self, usage: Option<TokenUsage>)
        ensures
            *final(self) == observed(*old(self), usage),
    {
        match usage {
            None => {
                self.unreported_calls = self.unreported_calls.saturating_add(1);
                self.latest = None;
            },
            Some(u) => {
                self.reported_calls = self.reported_calls.saturating_add(1);
                self.input_tokens = self.input_tokens.saturating_add(u.input_tokens);
                self.output_tokens = self.output_tokens.saturating_add(u.output_tokens);
                self.total_tokens = self.total_tokens.saturating_add(u.total_tokens);
                self.latest = Some(u);
            },
        }
    }
}

/// The committed context of a session.
#[derive(Debug)]
pub struct SessionSnapshot {
    pub id: SessionId,
    pub items: Vec<crate::inference::ConversationItem>,
    pub config: SessionConfig,
    pub usage: UsageSummary,
}

/// A line of the session list.
#[derive(Debug)]
pub struct SessionSummary {
    pub id: SessionId,
    pub brief: String,
    pub item_count: usize,
    pub config: SessionConfig,
    pub usage: UsageSummary,
}

/// The result of one committed tool invocation: the text committed to model
/// context, and what presentation shows.
#[derive(Debug)]
pub struct ToolResult {
    pub context_output: String,
    pub display: ToolDisplay,
}

/// How one committed tool call ended.
#[derive(Debug)]
pub enum ToolOutcome {
    Completed(ToolResult),
    Failed(ToolResult),
    Skipped(ToolResult),
}

/// The successful commit of a model response: the presentation entries it
/// added and the tool calls it requested, both in output order.
#[derive(Debug)]
pub struct ModelCommit {
    pub entries: Vec<Arc<TranscriptEntry>>,
    pub calls: Vec<ToolCall>,
}

/// Why a repository operation was refused. A refused operation changes nothing.
#[derive(Debug, PartialEq, Eq)]
pub enum SessionRepositoryError {
    NotFound(SessionId),
    AlreadyExists(SessionId),
    InvalidToolRound { id: SessionId, reason: &'static str },
}

/// The text of a repository error.
pub open spec fn repository_error_text(e: SessionRepositoryError) -> Seq<char> {
    match e {
        SessionRepositoryError::NotFound(id) => "session "@ + uuid_text_spec(id.0) + " was not found"@,
        SessionRepositoryError::AlreadyExists(id) => "session "@ + uuid_text_spec(id.0) + " already exists"@,
        SessionRepositoryError::InvalidToolRound { id, reason } => "session "@ + uuid_text_spec(id.0)
            + " tool-round protocol violation: "@ + reason@,
    }
}

impl SessionRepositoryError {
    pub fn message(&self) -> (s: String)
        ensures
            s@ == repository_error_text(*self),
    {
        let mut s = "session ".to_owned();
        match self {
            SessionRepositoryError::NotFound(id) => {
                crate::text::push_str(&mut s, id.to_text().as_str());
                crate::text::push_str(&mut s, " was not found");
            },
            SessionRepositoryError::AlreadyExists(id) => {
                crate::text::push_str(&mut s, id.to_text().as_str());
                crate::text::push_str(&mut s, " already exists");
            },
            SessionRepositoryError::InvalidToolRound { id, reason } => {
                crate::text::push_str(&mut s, id.to_text().as_str());
                crate::text::push_str(&mut s, " tool-round protocol violation: ");
                crate::text::push_str(&mut s, reason);
            },
        }
        s
    }
}

} // verus!
