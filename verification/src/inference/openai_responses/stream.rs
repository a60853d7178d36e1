//! Assembly of one streamed response: provisional output items, activity
//! that only previews output, and the terminal response, which stays
//! authoritative.

use vstd::prelude::*;

use super::OpenAiResponsesBackendError as Error;
use super::wire::{
    ErrorMessage, ItemProjection, WireItem, WireResponse, first_malformed, is_text, item_projection,
    lemma_first_malformed_stays, output_view, parse_response, response_result, upstream_message,
    upstream_text, validate_output_item,
};
use crate::agent_loop::utf8_len_seq;
use crate::inference::InferenceResponse;
use crate::text::{chars_of, str_equal};

verus! {

/// The most output items a response may hold.
pub const MAX_ITEMS: usize = 1024;

/// The most bytes of item JSON kept from provisional items, and the most a
/// terminal output may hold.
pub const MAX_ITEM_BYTES: usize = 8388608;

/// The most indexed activity events a response may carry.
pub const MAX_PARTS: usize = 4096;

/// One server-sent event's JSON, as far as the stream reads it: its `type`,
/// `output_index` and `delta` members when they have the expected types, its
/// `item` and `response` members when present, and the failure message it
/// carries at `/error/message` or `/message`.
#[derive(Debug)]
pub struct WireEvent {
    pub event_type: Option<String>,
    pub output_index: Option<u64>,
    pub delta: Option<String>,
    pub item: Option<WireItem>,
    pub response: Option<WireResponse>,
    pub error_message: ErrorMessage,
    pub message: Option<String>,
}

/// What an event's `type` asks of the stream.
pub enum EventKind {
    TextDelta,
    ActivityDelta,
    ItemAdded,
    ItemDone,
    Completed,
    Failed,
    Error,
    Ignored,
}

pub open spec fn event_kind(t: Option<String>) -> EventKind {
    if is_text(t, "response.output_text.delta"@) {
        EventKind::TextDelta
    } else if is_text(t, "response.function_call_arguments.delta"@) || is_text(
        t,
        "response.reasoning_summary_text.delta"@,
    ) || is_text(t, "response.reasoning_text.delta"@) || is_text(t, "response.reasoning_content.delta"@) {
        EventKind::ActivityDelta
    } else if is_text(t, "response.output_item.added"@) {
        EventKind::ItemAdded
    } else if is_text(t, "response.output_item.done"@) {
        EventKind::ItemDone
    } else if is_text(t, "response.completed"@) {
        EventKind::Completed
    } else if is_text(t, "response.failed"@) || is_text(t, "response.incomplete"@) {
        EventKind::Failed
    } else if is_text(t, "error"@) {
        EventKind::Error
    } else {
        EventKind::Ignored
    }
}

fn kind_of(t: &Option<String>) -> (k: EventKind)
    ensures
        k == event_kind(*t),
{
    let s = match t {
        Some(s) => s.as_str(),
        None => return EventKind::Ignored,
    };
    if str_equal(s, "response.output_text.delta") {
        EventKind::TextDelta
    } else if str_equal(s, "response.function_call_arguments.delta") || str_equal(
        s,
        "response.reasoning_summary_text.delta",
    ) || str_equal(s, "response.reasoning_text.delta") || str_equal(s, "response.reasoning_content.delta") {
        EventKind::ActivityDelta
    } else if str_equal(s, "response.output_item.added") {
        EventKind::ItemAdded
    } else if str_equal(s, "response.output_item.done") {
        EventKind::ItemDone
    } else if str_equal(s, "response.completed") {
        EventKind::Completed
    } else if str_equal(s, "response.failed") || str_equal(s, "response.incomplete") {
        EventKind::Failed
    } else if str_equal(s, "error") {
        EventKind::Error
    } else {
        EventKind::Ignored
    }
}

/// A count that saturates at `usize::MAX`.
pub open spec fn capped(n: nat) -> nat {
    if n > usize::MAX {
        usize::MAX as nat
    } else {
        n
    }
}

/// The UTF-8 length of a text, saturating at `usize::MAX`.
fn byte_len(s: &str) -> (n: usize)
    ensures
        n == capped(utf8_len_seq(s@)),
{
    let cs = chars_of(s);
    let mut n: usize = 0;
    let mut i: usize = 0;
    while i < cs.len()
        invariant
            i <= cs@.len(),
            n == capped(utf8_len_seq(cs@.take(i as int))),
        decreases cs.len() - i,
    {
        let c = cs[i];
        let u = c as u32;
        let l: usize = if u < 0x80 { 1 } else if u < 0x800 { 2 } else if u < 0x10000 { 3 } else { 4 };
        assert(cs@.take(i + 1).drop_last() =~= cs@.take(i as int));
        n = n.saturating_add(l);
        i += 1;
    }
    assert(cs@.take(cs@.len() as int) =~= cs@);
    n
}

/// The combined UTF-8 length of the first `n` items' JSON texts.
pub open spec fn items_bytes(items: Seq<WireItem>, n: int) -> nat
    decreases n,
{
    if n <= 0 {
        0
    } else {
        items_bytes(items, n - 1) + utf8_len_seq(items[n - 1].protocol_text@)
    }
}

/// The stream's state as values.
pub struct StreamModel {
    /// Finished provisional items, ordered by output index.
    pub items: Seq<(u64, WireItem)>,
    /// Output indexes that activity or items have started.
    pub started: Set<u64>,
    pub retained: nat,
    pub terminal: Option<WireResponse>,
    /// Whether some activity carried no output index.
    pub unindexed: bool,
    pub parts: nat,
}

/// Whether a finished item holds output index `i`.
pub open spec fn holds_index(items: Seq<(u64, WireItem)>, i: u64) -> bool {
    exists|k: int| 0 <= k < items.len() && #[trigger] items[k].0 == i
}

/// How an error of the stream reads, as values.
pub enum StreamProblem {
    Malformed(&'static str),
    Stream(&'static str),
    Terminal(Seq<char>),
    Incomplete(Seq<char>),
    Integrity(&'static str),
    Limit(&'static str),
    Other,
}

pub open spec fn stream_problem(e: Error) -> StreamProblem {
    match e {
        Error::MalformedResponse(f) => StreamProblem::Malformed(f),
        Error::MalformedStream(f) => StreamProblem::Stream(f),
        Error::StreamTerminal(m) => StreamProblem::Terminal(m@),
        Error::Incomplete(m) => StreamProblem::Incomplete(m@),
        Error::OutputIntegrity { index: None, detail } => StreamProblem::Integrity(detail),
        Error::ResourceLimit(f) => StreamProblem::Limit(f),
        _ => StreamProblem::Other,
    }
}

/// Starting output index `i`: refused beyond the item limit.
pub open spec fn start_index(m: StreamModel, i: u64) -> Result<StreamModel, StreamProblem> {
    if i > (MAX_ITEMS - 1) as u64 {
        Err(StreamProblem::Limit("output index exceeds limit"))
    } else {
        Ok(StreamModel { started: m.started.insert(i), ..m })
    }
}

/// Activity on an item: an unindexed one only marks that output cannot be
/// reconstructed; an indexed one counts toward the part limit and starts
/// its index.
pub open spec fn activity(m: StreamModel, index: Option<u64>) -> Result<StreamModel, StreamProblem> {
    match index {
        None => Ok(StreamModel { unindexed: true, ..m }),
        Some(i) => if m.parts + 1 > MAX_PARTS {
            Err(StreamProblem::Limit("too many output parts"))
        } else {
            start_index(StreamModel { parts: m.parts + 1, ..m }, i)
        },
    }
}

/// Keeping a finished provisional item: refused when its index was
/// finished before, when the item limit is reached, or when the kept JSON
/// would exceed the size limit.
pub open spec fn keep_item(m: StreamModel, i: u64, item: WireItem) -> Result<StreamModel, StreamProblem> {
    if holds_index(m.items, i) {
        Err(StreamProblem::Stream("duplicate output item"))
    } else if m.items.len() >= MAX_ITEMS {
        Err(StreamProblem::Limit("too many output items"))
    } else if capped(m.retained + utf8_len_seq(item.protocol_text@)) > MAX_ITEM_BYTES {
        Err(StreamProblem::Limit("output items exceeded size limit"))
    } else {
        Ok(StreamModel {
            items: insert_ordered(m.items, i, item),
            retained: capped(m.retained + utf8_len_seq(item.protocol_text@)),
            ..m
        })
    }
}

/// Whether `p` is where index `i` belongs among `items`: after every
/// smaller index and before every greater one.
pub open spec fn place(items: Seq<(u64, WireItem)>, i: u64, p: int) -> bool {
    &&& 0 <= p <= items.len()
    &&& forall|k: int| 0 <= k < p ==> #[trigger] items[k].0 < i
    &&& forall|k: int| p <= k < items.len() ==> #[trigger] items[k].0 > i
}

/// `items` with `(i, item)` inserted at its place in index order.
pub open spec fn insert_ordered(items: Seq<(u64, WireItem)>, i: u64, item: WireItem) -> Seq<(u64, WireItem)> {
    items.insert(choose|p: int| place(items, i, p), (i, item))
}

/// Items strictly ordered by output index.
pub open spec fn indexes_ordered(items: Seq<(u64, WireItem)>) -> bool {
    forall|a: int, b: int| 0 <= a < b < items.len() ==> #[trigger] items[a].0 < #[trigger] items[b].0
}

/// An index has one place.
proof fn lemma_place_unique(items: Seq<(u64, WireItem)>, i: u64, p: int, q: int)
    requires
        place(items, i, p),
        place(items, i, q),
    ensures
        p == q,
{
    if p < q {
        assert(items[p].0 > i);
        assert(items[p].0 < i);
    } else if q < p {
        assert(items[q].0 > i);
        assert(items[q].0 < i);
    }
}

/// Checks a terminal response against what the stream observed. An empty
/// output is reconstructed from finished items, which needs every started
/// index finished and no unindexed activity; a non-empty output stands on
/// its own and must fit the limits and project.
pub open spec fn terminal_problem(m: StreamModel, r: WireResponse) -> Option<StreamProblem> {
    if !is_text(r.status, "completed"@) {
        Some(StreamProblem::Incomplete(upstream_text(r.error_message, r.message)))
    } else {
        match r.output {
            None => Some(StreamProblem::Malformed("missing output array")),
            Some(out) => if out@.len() == 0 {
                if m.unindexed {
                    Some(StreamProblem::Integrity("unindexed activity cannot reconstruct output"))
                } else if exists|i: u64| #[trigger] m.started.contains(i) && !holds_index(m.items, i) {
                    Some(StreamProblem::Integrity("started output item was not finalized"))
                } else {
                    None
                }
            } else if out@.len() > MAX_ITEMS {
                Some(StreamProblem::Limit("too many terminal output items"))
            } else if capped(items_bytes(out@, out@.len() as int)) > MAX_ITEM_BYTES {
                Some(StreamProblem::Limit("terminal output exceeded size limit"))
            } else {
                match first_malformed(out@, out@.len() as int) {
                    Some(f) => Some(StreamProblem::Malformed(f)),
                    None => None,
                }
            },
        }
    }
}


/// An optional text as values.
pub open spec fn text_view(t: Option<String>) -> Option<Seq<char>> {
    match t {
        Some(s) => Some(s@),
        None => None,
    }
}

/// What one server-sent event's data does to the stream: its result, with
/// the next state, or the problem that ends the stream. The `[DONE]`
/// sentinel is framing only, not a success signal.
pub open spec fn push_spec(m: StreamModel, data: Seq<char>, parsed: Option<WireEvent>) -> Result<
    (Option<Seq<char>>, StreamModel),
    StreamProblem,
> {
    if data == "[DONE]"@ {
        Ok((None, m))
    } else {
        match parsed {
            None => Err(StreamProblem::Stream("invalid SSE JSON")),
            Some(ev) => if m.terminal is Some {
                Err(StreamProblem::Stream("event received after response terminal"))
            } else {
                match event_kind(ev.event_type) {
                    EventKind::TextDelta => match activity(m, ev.output_index) {
                        Ok(n) => Ok((text_view(ev.delta), n)),
                        Err(p) => Err(p),
                    },
                    EventKind::ActivityDelta => match activity(m, ev.output_index) {
                        Ok(n) => Ok((None, n)),
                        Err(p) => Err(p),
                    },
                    EventKind::ItemAdded => match ev.output_index {
                        None => Err(StreamProblem::Malformed("output_index")),
                        Some(i) => match ev.item {
                            None => Err(StreamProblem::Malformed("output item")),
                            Some(_) => match start_index(m, i) {
                                Ok(n) => Ok((None, n)),
                                Err(p) => Err(p),
                            },
                        },
                    },
                    EventKind::ItemDone => match ev.output_index {
                        None => Err(StreamProblem::Malformed("output_index")),
                        Some(i) => match ev.item {
                            None => Err(StreamProblem::Malformed("output item")),
                            Some(item) => match start_index(m, i) {
                                Err(p) => Err(p),
                                Ok(n) => match item_projection(item) {
                                    ItemProjection::Malformed(f) => Err(StreamProblem::Malformed(f)),
                                    _ => match keep_item(n, i, item) {
                                        Ok(k) => Ok((None, k)),
                                        Err(p) => Err(p),
                                    },
                                },
                            },
                        },
                    },
                    EventKind::Completed => match ev.response {
                        None => Err(StreamProblem::Malformed("completed response")),
                        Some(r) => match terminal_problem(m, r) {
                            Some(p) => Err(p),
                            None => Ok((None, StreamModel { terminal: Some(r), ..m })),
                        },
                    },
                    EventKind::Failed => Err(
                        StreamProblem::Terminal(
                            match ev.response {
                                Some(r) => upstream_text(r.error_message, r.message),
                                None => upstream_text(ev.error_message, ev.message),
                            },
                        ),
                    ),
                    EventKind::Error => Err(StreamProblem::Terminal(upstream_text(ev.error_message, ev.message))),
                    EventKind::Ignored => Ok((None, m)),
                }
            },
        }
    }
}

/// Whether an event is a delta of tool-call arguments or of reasoning:
/// activity on an output item, never answer text.
pub open spec fn is_activity_delta(t: Option<String>) -> bool {
    ||| is_text(t, "response.function_call_arguments.delta"@)
    ||| is_text(t, "response.reasoning_summary_text.delta"@)
    ||| is_text(t, "response.reasoning_text.delta"@)
    ||| is_text(t, "response.reasoning_content.delta"@)
}

/// Only answer text is previewed: a push hands back text only for an event
/// whose type is exactly `response.output_text.delta`, and never for a
/// tool-call argument delta or a reasoning delta.
pub proof fn lemma_only_answer_text_previews(m: StreamModel, data: Seq<char>, parsed: Option<WireEvent>)
    ensures
        push_spec(m, data, parsed) matches Ok((Some(_), _)) ==> (parsed matches Some(ev) && is_text(
            ev.event_type,
            "response.output_text.delta"@,
        )),
        (parsed matches Some(ev) && is_activity_delta(ev.event_type)) ==> !(push_spec(m, data, parsed) matches Ok(
            (Some(_), _),
        )),
{
    reveal_strlit("response.output_text.delta");
    reveal_strlit("response.function_call_arguments.delta");
    reveal_strlit("response.reasoning_summary_text.delta");
    reveal_strlit("response.reasoning_text.delta");
    reveal_strlit("response.reasoning_content.delta");
    assert("response.output_text.delta"@.len() == 26);
    assert("response.function_call_arguments.delta"@.len() == 38);
    assert("response.reasoning_summary_text.delta"@.len() == 37);
    assert("response.reasoning_text.delta"@.len() == 29);
    assert("response.reasoning_content.delta"@.len() == 32);
    if let Some(ev) = parsed {
        if is_activity_delta(ev.event_type) {
            assert(!is_text(ev.event_type, "response.output_text.delta"@));
            assert(event_kind(ev.event_type) == EventKind::ActivityDelta);
        }
    }
}

/// The items' output indexes are exactly `0..n`.
pub open spec fn contiguous(items: Seq<(u64, WireItem)>) -> bool {
    forall|k: int| 0 <= k < items.len() ==> #[trigger] items[k].0 == k
}

/// The items' JSON values, in index order.
pub open spec fn item_values(items: Seq<(u64, WireItem)>) -> Seq<WireItem> {
    items.map_values(|p: (u64, WireItem)| p.1)
}

/// The assembler of one streamed response.
pub struct ResponseStream {
    items: Vec<(u64, WireItem)>,
    started: Vec<u64>,
    retained_bytes: usize,
    terminal: Option<WireResponse>,
    unindexed_activity: bool,
    part_count: usize,
}

impl ResponseStream {
    pub closed spec fn model(&self) -> StreamModel {
        StreamModel {
            items: self.items@,
            started: self.started@.to_set(),
            retained: self.retained_bytes as nat,
            terminal: self.terminal,
            unindexed: self.unindexed_activity,
            parts: self.part_count as nat,
        }
    }

    pub closed spec fn wf(&self) -> bool {
        &&& indexes_ordered(self.items@)
        &&& self.part_count <= MAX_PARTS
    }

    pub fn new() -> (s: Self)
        ensures
            s.wf(),
            s.model().items.len() == 0,
            s.model().started == Set::<u64>::empty(),
            s.model().retained == 0,
            s.model().terminal is None,
            !s.model().unindexed,
            s.model().parts == 0,
    {
        let s = ResponseStream {
            items: Vec::new(),
            started: Vec::new(),
            retained_bytes: 0,
            terminal: None,
            unindexed_activity: false,
            part_count: 0,
        };
        assert(s.started@.to_set() =~= Set::<u64>::empty());
        s
    }

    fn start(&mut self, i: u64)
        requires
            old(self).wf(),
        ensures
            final(self).wf(),
            final(self).model() == (StreamModel { started: old(self).model().started.insert(i), ..old(self).model() }),
    {
        let mut k: usize = 0;
        while k < self.started.len()
            invariant
                *self == *old(self),
                old(self).wf(),
                k <= self.started@.len(),
                forall|j: int| 0 <= j < k ==> self.started@[j] != i,
            decreases self.started.len() - k,
        {
            if self.started[k] == i {
                assert(self.started@.to_set().contains(i));
                assert(self.started@.to_set().insert(i) =~= self.started@.to_set());
                return;
            }
            k += 1;
        }
        let ghost before = self.started@;
        self.started.push(i);
        assert(self.started@.to_set() =~= before.to_set().insert(i)) by {
            assert forall|x: u64| self.started@.to_set().contains(x) <==> before.to_set().insert(i).contains(x) by {
                if self.started@.to_set().contains(x) {
                    let j = choose|j: int| 0 <= j < self.started@.len() && self.started@[j] == x;
                    if j < before.len() {
                        assert(before[j] == x);
                    }
                }
                if before.to_set().contains(x) {
                    let j = choose|j: int| 0 <= j < before.len() && before[j] == x;
                    assert(self.started@[j] == x);
                }
                if x == i {
                    assert(self.started@[before.len() as int] == i);
                }
            }
        }
    }

    fn record_activity(&mut self, index: Option<u64>) -> (r: Result<(), Error>)
        requires
            old(self).wf(),
        ensures
            final(self).wf(),
            match activity(old(self).model(), index) {
                Ok(n) => r is Ok && final(self).model() == n,
                Err(p) => r matches Err(e) && stream_problem(e) == p && final(self).model() == old(self).model(),
            },
    {
        match index {
            None => {
                self.unindexed_activity = true;
                Ok(())
            },
            Some(i) => {
                if self.part_count >= MAX_PARTS {
                    return Err(Error::ResourceLimit("too many output parts"));
                }
                if i > (MAX_ITEMS - 1) as u64 {
                    return Err(Error::ResourceLimit("output index exceeds limit"));
                }
                self.part_count = self.part_count + 1;
                self.start(i);
                Ok(())
            },
        }
    }

    /// Whether a finished item holds output index `i`, and where `i` belongs.
    fn locate(&self, i: u64) -> (r: (bool, usize))
        requires
            self.wf(),
        ensures
            r.0 == holds_index(self.items@, i),
            !r.0 ==> place(self.items@, i, r.1 as int),
    {
        let mut p: usize = 0;
        while p < self.items.len() && self.items[p].0 < i
            invariant
                p <= self.items@.len(),
                forall|k: int| 0 <= k < p ==> #[trigger] self.items@[k].0 < i,
            decreases self.items.len() - p,
        {
            p += 1;
        }
        if p < self.items.len() && self.items[p].0 == i {
            assert(self.items@[p as int].0 == i);
            return (true, p);
        }
        assert forall|k: int| p <= k < self.items@.len() implies #[trigger] self.items@[k].0 > i by {
            if k > p {
                assert(self.items@[p as int].0 < self.items@[k].0);
            }
        }
        assert(!holds_index(self.items@, i)) by {
            if holds_index(self.items@, i) {
                let k = choose|k: int| 0 <= k < self.items@.len() && #[trigger] self.items@[k].0 == i;
                if k < p {
                    assert(self.items@[k].0 < i);
                } else {
                    assert(self.items@[k].0 > i);
                }
            }
        }
        (false, p)
    }

    /// Finishes a provisional item at output index `i`.
    fn finish_item(&mut self, i: u64, item: WireItem) -> (r: Result<(), Error>)
        requires
            old(self).wf(),
        ensures
            final(self).wf(),
            match start_index(old(self).model(), i) {
                Err(p) => r matches Err(e) && stream_problem(e) == p && final(self).model() == old(self).model(),
                Ok(n) => match item_projection(item) {
                    ItemProjection::Malformed(f) => r matches Err(e) && stream_problem(e)
                        == StreamProblem::Malformed(f) && final(self).model() == old(self).model(),
                    _ => match keep_item(n, i, item) {
                        Ok(k) => r is Ok && final(self).model() == k,
                        Err(p) => r matches Err(e) && stream_problem(e) == p && final(self).model()
                            == old(self).model(),
                    },
                },
            },
    {
        if i > (MAX_ITEMS - 1) as u64 {
            return Err(Error::ResourceLimit("output index exceeds limit"));
        }
        match validate_output_item(&item) {
            Ok(()) => {},
            Err(e) => {
                return Err(e);
            },
        }
        let (held, p) = self.locate(i);
        if held {
            return Err(Error::MalformedStream("duplicate output item"));
        }
        if self.items.len() >= MAX_ITEMS {
            return Err(Error::ResourceLimit("too many output items"));
        }
        let bytes = self.retained_bytes.saturating_add(byte_len(item.protocol_text.as_str()));
        if bytes > MAX_ITEM_BYTES {
            return Err(Error::ResourceLimit("output items exceeded size limit"));
        }
        let ghost before = self.items@;
        let ghost it = item;
        proof {
            let q = choose|q: int| place(before, i, q);
            lemma_place_unique(before, i, p as int, q);
        }
        self.items.insert(p, (i, item));
        self.retained_bytes = bytes;
        self.start(i);
        proof {
            assert(self.items@ == insert_ordered(before, i, it));
            assert forall|a: int, b: int| 0 <= a < b < self.items@.len() implies #[trigger] self.items@[a].0 < #[trigger] self.items@[b].0 by {
                if b < p {
                    assert(before[a].0 < before[b].0);
                } else if b == p {
                    assert(before[a].0 < i);
                } else if a < p {
                    assert(before[a].0 < i && i < before[b - 1].0);
                } else if a == p {
                    assert(before[b - 1].0 > i);
                } else {
                    assert(before[a - 1].0 < before[b - 1].0);
                }
            }
        }
        Ok(())
    }

    /// Checks a terminal response against what the stream observed.
    #[verifier::loop_isolation(false)]
    fn check_terminal(&self, r: &WireResponse) -> (res: Result<(), Error>)
        requires
            self.wf(),
        ensures
            match terminal_problem(self.model(), *r) {
                Some(p) => res matches Err(e) && stream_problem(e) == p,
                None => res is Ok,
            },
    {
        if !text_is_completed(&r.status) {
            return Err(Error::Incomplete(upstream_message(&r.error_message, &r.message)));
        }
        let out = match &r.output {
            None => return Err(Error::MalformedResponse("missing output array")),
            Some(out) => out,
        };
        if out.len() == 0 {
            if self.unindexed_activity {
                return Err(
                    Error::OutputIntegrity { index: None, detail: "unindexed activity cannot reconstruct output" },
                );
            }
            let mut k: usize = 0;
            while k < self.started.len()
                invariant
                    self.wf(),
                    k <= self.started@.len(),
                    forall|j: int| 0 <= j < k ==> holds_index(self.items@, #[trigger] self.started@[j]),
                decreases self.started.len() - k,
            {
                let (held, _) = self.locate(self.started[k]);
                if !held {
                    assert(self.model().started.contains(self.started@[k as int]));
                    return Err(
                        Error::OutputIntegrity { index: None, detail: "started output item was not finalized" },
                    );
                }
                k += 1;
            }
            assert forall|i: u64| #[trigger] self.model().started.contains(i) implies holds_index(self.model().items, i) by {
                let j = choose|j: int| 0 <= j < self.started@.len() && self.started@[j] == i;
                assert(holds_index(self.items@, self.started@[j]));
            }
            return Ok(());
        }
        if out.len() > MAX_ITEMS {
            return Err(Error::ResourceLimit("too many terminal output items"));
        }
        let mut total: usize = 0;
        let mut k: usize = 0;
        while k < out.len()
            invariant
                k <= out@.len(),
                total == capped(items_bytes(out@, k as int)),
            decreases out.len() - k,
        {
            total = total.saturating_add(byte_len(out[k].protocol_text.as_str()));
            k += 1;
        }
        if total > MAX_ITEM_BYTES {
            return Err(Error::ResourceLimit("terminal output exceeded size limit"));
        }
        let mut k: usize = 0;
        while k < out.len()
            invariant
                k <= out@.len(),
                first_malformed(out@, k as int) is None,
            decreases out.len() - k,
        {
            match validate_output_item(&out[k]) {
                Ok(()) => {},
                Err(e) => {
                    proof {
                        lemma_first_malformed_stays(out@, k + 1, out@.len() as int);
                    }
                    return Err(e);
                },
            }
            k += 1;
        }
        Ok(())
    }

    /// Takes one server-sent event's data and its parsed JSON (`None` when
    /// it is not JSON). Returns the text it previews, if any. A refused
    /// event leaves the stream as it was.
    pub fn push(&mut self, data: &str, parsed: Option<WireEvent>) -> (r: Result<Option<String>, Error>)
        requires
            old(self).wf(),
        ensures
            final(self).wf(),
            r matches Ok(Some(_)) ==> (parsed matches Some(ev) && is_text(ev.event_type, "response.output_text.delta"@)),
            match push_spec(old(self).model(), data@, parsed) {
                Ok((d, n)) => (r matches Ok(x) && text_view(x) == d) && final(self).model() == n,
                Err(p) => (r matches Err(e) && stream_problem(e) == p) && final(self).model() == old(self).model(),
            },
    {
        proof {
            lemma_only_answer_text_previews(old(self).model(), data@, parsed);
        }
        if str_equal(data, "[DONE]") {
            return Ok(None);
        }
        let ev = match parsed {
            None => return Err(Error::MalformedStream("invalid SSE JSON")),
            Some(ev) => ev,
        };
        if self.terminal.is_some() {
            return Err(Error::MalformedStream("event received after response terminal"));
        }
        match kind_of(&ev.event_type) {
            EventKind::TextDelta => {
                self.record_activity(ev.output_index)?;
                Ok(ev.delta)
            },
            EventKind::ActivityDelta => {
                self.record_activity(ev.output_index)?;
                Ok(None)
            },
            EventKind::ItemAdded => {
                let i = match ev.output_index {
                    None => return Err(Error::MalformedResponse("output_index")),
                    Some(i) => i,
                };
                if ev.item.is_none() {
                    return Err(Error::MalformedResponse("output item"));
                }
                if i > (MAX_ITEMS - 1) as u64 {
                    return Err(Error::ResourceLimit("output index exceeds limit"));
                }
                self.start(i);
                Ok(None)
            },
            EventKind::ItemDone => {
                let i = match ev.output_index {
                    None => return Err(Error::MalformedResponse("output_index")),
                    Some(i) => i,
                };
                let item = match ev.item {
                    None => return Err(Error::MalformedResponse("output item")),
                    Some(item) => item,
                };
                self.finish_item(i, item)?;
                Ok(None)
            },
            EventKind::Completed => {
                let response = match ev.response {
                    None => return Err(Error::MalformedResponse("completed response")),
                    Some(r) => r,
                };
                self.check_terminal(&response)?;
                self.terminal = Some(response);
                Ok(None)
            },
            EventKind::Failed => {
                let message = match &ev.response {
                    Some(r) => upstream_message(&r.error_message, &r.message),
                    None => upstream_message(&ev.error_message, &ev.message),
                };
                Err(Error::StreamTerminal(message))
            },
            EventKind::Error => Err(Error::StreamTerminal(upstream_message(&ev.error_message, &ev.message))),
            EventKind::Ignored => Ok(None),
        }
    }

    /// Ends the stream: its terminal response is parsed, with an empty
    /// output reconstructed from the finished items, whose indexes must then
    /// be exactly `0..n`.
    #[verifier::loop_isolation(false)]
    pub fn finish(self) -> (r: Result<InferenceResponse, Error>)
        requires
            self.wf(),
        ensures
            match self.model().terminal {
                None => r matches Err(e) && stream_problem(e) == StreamProblem::Stream(
                    "stream ended without response.completed",
                ),
                Some(t) => if t.output matches Some(out) && out@.len() == 0 && self.model().items.len() > 0 {
                    if !contiguous(self.model().items) {
                        r matches Err(e) && stream_problem(e) == StreamProblem::Integrity(
                            "output indexes were not contiguous",
                        )
                    } else {
                        response_result(t.status, t.error_message, t.message, Some(item_values(self.model().items)), t.usage, r)
                    }
                } else {
                    response_result(t.status, t.error_message, t.message, output_view(t.output), t.usage, r)
                },
            },
    {
        let ghost m = self.model();
        let mut response = match self.terminal {
            None => return Err(Error::MalformedStream("stream ended without response.completed")),
            Some(t) => t,
        };
        let reconstruct = match &response.output {
            Some(out) => out.len() == 0 && self.items.len() > 0,
            None => false,
        };
        if reconstruct {
            let mut items = self.items;
            let mut values: Vec<WireItem> = Vec::new();
            let mut k: usize = 0;
            let n = items.len();
            while items.len() > 0
                invariant
                    n == m.items.len(),
                    k + items@.len() == n,
                    items@ == m.items.skip(k as int),
                    values@ == item_values(m.items).take(k as int),
                    forall|j: int| 0 <= j < k ==> #[trigger] m.items[j].0 == j,
                decreases items.len(),
            {
                let (index, item) = items.remove(0);
                assert((index, item) == m.items[k as int]);
                assert(items@ =~= m.items.skip(k + 1));
                if index != k as u64 {
                    assert(!contiguous(m.items));
                    return Err(Error::OutputIntegrity { index: None, detail: "output indexes were not contiguous" });
                }
                values.push(item);
                assert(values@ =~= item_values(m.items).take(k + 1));
                k += 1;
            }
            assert(values@ =~= item_values(m.items));
            response.output = Some(values);
        }
        parse_response(response)
    }
}

fn text_is_completed(t: &Option<String>) -> (r: bool)
    ensures
        r == is_text(*t, "completed"@),
{
    match t {
        Some(s) => str_equal(s.as_str(), "completed"),
        None => false,
    }
}

} // verus!
