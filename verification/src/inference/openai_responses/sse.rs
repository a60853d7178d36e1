//! Server-sent events framing: bytes in, the data of each event out.

use vstd::prelude::*;
use vstd::utf8::{decode_utf8, valid_utf8};

use super::OpenAiResponsesBackendError as Error;
use crate::text::{chars_of, push_char, string_from_chars};

verus! {

/// Bytes allowed in one frame, ignored lines and comments included.
pub const MAX_FRAME_BYTES: usize = 1024 * 1024;

/// The decoder's state, as values.
pub struct SseState {
    /// Bytes of the current line.
    pub line: Seq<u8>,
    /// The data of the current event so far.
    pub data: Seq<char>,
    /// Whether the current event has a data field.
    pub has_data: bool,
    /// Whether the previous byte was a CR, so that a following LF is skipped.
    pub skip_lf: bool,
    /// Bytes counted in the current frame.
    pub frame_bytes: nat,
}

pub open spec fn sse_initial() -> SseState {
    SseState { line: seq![], data: seq![], has_data: false, skip_lf: false, frame_bytes: 0 }
}

/// What one byte does to the decoder.
pub enum SseStep {
    Continue(SseState),
    Event(SseState, Seq<char>),
    Fail(SseState, &'static str),
}

/// Index of the first `:` in a line.
pub open spec fn first_colon(s: Seq<char>) -> Option<int>
    decreases s.len(),
{
    if s.len() == 0 {
        None
    } else if s[0] == ':' {
        Some(0)
    } else {
        match first_colon(s.drop_first()) {
            Some(i) => Some(i + 1),
            None => None,
        }
    }
}

/// The field name of a line: everything before the first `:`.
pub open spec fn field_of(s: Seq<char>) -> Seq<char> {
    match first_colon(s) {
        Some(i) => s.take(i),
        None => s,
    }
}

/// The field value of a line: everything after the first `:`, without one
/// leading space.
pub open spec fn value_of(s: Seq<char>) -> Seq<char> {
    let v = match first_colon(s) {
        Some(i) => s.skip(i + 1),
        None => seq![],
    };
    if v.len() > 0 && v[0] == ' ' {
        v.skip(1)
    } else {
        v
    }
}

/// A complete non-empty line: a `data` field extends the event's data,
/// joined to earlier data lines by a newline; other fields and comments are
/// ignored.
pub open spec fn sse_field(st: SseState, line: Seq<char>) -> SseState {
    if field_of(line) == seq!['d', 'a', 't', 'a'] {
        SseState {
            data: (if st.has_data {
                st.data.push('\n')
            } else {
                st.data
            }) + value_of(line),
            has_data: true,
            line: seq![],
            ..st
        }
    } else {
        SseState { line: seq![], ..st }
    }
}

/// One byte. CR, LF and CR LF end a line; an empty line ends the frame and
/// dispatches its event when it has data. Every byte of a frame but the LF of
/// a CR LF pair counts toward the frame limit.
pub open spec fn sse_step(st: SseState, b: u8) -> SseStep {
    if st.skip_lf && b == 0x0A {
        SseStep::Continue(SseState { skip_lf: false, ..st })
    } else {
        let frame_bytes = st.frame_bytes + 1;
        if frame_bytes > MAX_FRAME_BYTES {
            SseStep::Fail(
                SseState { skip_lf: false, frame_bytes: (MAX_FRAME_BYTES + 1) as nat, ..st },
                "SSE frame exceeded the size limit",
            )
        } else if b != 0x0D && b != 0x0A {
            SseStep::Continue(
                SseState { line: st.line.push(b), skip_lf: false, frame_bytes, ..st },
            )
        } else {
            let st = SseState { skip_lf: b == 0x0D, frame_bytes, ..st };
            if !valid_utf8(st.line) {
                SseStep::Fail(st, "stream was not UTF-8")
            } else {
                let line = decode_utf8(st.line);
                if line.len() == 0 {
                    let st = SseState { frame_bytes: 0, ..st };
                    if st.has_data {
                        SseStep::Event(SseState { has_data: false, data: seq![], ..st }, st.data)
                    } else {
                        SseStep::Continue(st)
                    }
                } else {
                    SseStep::Continue(sse_field(st, line))
                }
            }
        }
    }
}

/// How a scan of bytes ends.
pub enum SseOutcome {
    /// Every byte was consumed without completing an event.
    Pending,
    /// The last consumed byte completed an event with this data.
    Event(Seq<char>),
    /// The last consumed byte made the stream malformed.
    Fail(&'static str),
}

/// Bytes consumed up to and including the first event or failure.
pub struct SseScan {
    pub state: SseState,
    pub consumed: nat,
    pub outcome: SseOutcome,
}

pub open spec fn sse_scan(st: SseState, bytes: Seq<u8>) -> SseScan
    decreases bytes.len(),
{
    if bytes.len() == 0 {
        SseScan { state: st, consumed: 0, outcome: SseOutcome::Pending }
    } else {
        match sse_step(st, bytes[0]) {
            SseStep::Continue(s) => {
                let r = sse_scan(s, bytes.drop_first());
                SseScan { state: r.state, consumed: r.consumed + 1, outcome: r.outcome }
            },
            SseStep::Event(s, d) => SseScan { state: s, consumed: 1, outcome: SseOutcome::Event(d) },
            SseStep::Fail(s, m) => SseScan { state: s, consumed: 1, outcome: SseOutcome::Fail(m) },
        }
    }
}

/// Everything that feeding bytes one at a time produces: the final state,
/// the events in order, and the failure that stopped decoding, if any. After
/// a failure further bytes change nothing.
pub struct SseFeed {
    pub state: SseState,
    pub events: Seq<Seq<char>>,
    pub failure: Option<&'static str>,
}

pub open spec fn sse_feed(st: SseState, bytes: Seq<u8>) -> SseFeed
    decreases bytes.len(),
{
    if bytes.len() == 0 {
        SseFeed { state: st, events: seq![], failure: None }
    } else {
        let f = sse_feed(st, bytes.drop_last());
        if f.failure is Some {
            f
        } else {
            match sse_step(f.state, bytes.last()) {
                SseStep::Continue(s) => SseFeed { state: s, events: f.events, failure: None },
                SseStep::Event(s, d) => SseFeed { state: s, events: f.events.push(d), failure: None },
                SseStep::Fail(s, m) => SseFeed { state: s, events: f.events, failure: Some(m) },
            }
        }
    }
}

/// Continues a feed with more bytes.
pub open spec fn sse_resume(f: SseFeed, bytes: Seq<u8>) -> SseFeed {
    if f.failure is Some {
        f
    } else {
        let g = sse_feed(f.state, bytes);
        SseFeed { state: g.state, events: f.events + g.events, failure: g.failure }
    }
}

/// Transport boundaries do not matter: feeding `a` and then `b` decodes
/// exactly what feeding `a + b` decodes.
pub proof fn lemma_feed_split(st: SseState, a: Seq<u8>, b: Seq<u8>)
    ensures
        sse_feed(st, a + b) == sse_resume(sse_feed(st, a), b),
    decreases b.len(),
{
    if b.len() == 0 {
        assert(a + b =~= a);
        assert(sse_feed(st, a).events + seq![] =~= sse_feed(st, a).events);
    } else {
        lemma_feed_split(st, a, b.drop_last());
        assert((a + b).drop_last() =~= a + b.drop_last());
        assert((a + b).last() == b.last());
        let f = sse_feed(st, a);
        if f.failure is None {
            let g = sse_feed(f.state, b.drop_last());
            if g.failure is None {
                match sse_step(g.state, b.last()) {
                    SseStep::Event(s, d) => {
                        assert(f.events + g.events.push(d) =~= (f.events + g.events).push(d));
                    },
                    _ => {},
                }
            }
        }
    }
}

/// One call of `Decoder::next` decodes exactly what feeding the bytes it
/// consumed decodes: nothing more than the one event or failure it reports.
pub proof fn lemma_scan_is_feed_prefix(st: SseState, bytes: Seq<u8>)
    ensures
        ({
            let scan = sse_scan(st, bytes);
            let f = sse_feed(st, bytes.take(scan.consumed as int));
            &&& scan.consumed <= bytes.len()
            &&& f.state == scan.state
            &&& match scan.outcome {
                SseOutcome::Pending => scan.consumed == bytes.len() && f.events.len() == 0
                    && f.failure is None,
                SseOutcome::Event(d) => f.events == seq![d] && f.failure is None,
                SseOutcome::Fail(m) => f.events.len() == 0 && f.failure == Some(m),
            }
        }),
    decreases bytes.len(),
{
    if bytes.len() > 0 {
        let x = bytes[0];
        let rest = bytes.drop_first();
        let one = seq![x];
        assert(one.drop_last() =~= Seq::<u8>::empty());
        assert(one.last() == x);
        let e = sse_feed(st, Seq::<u8>::empty());
        assert(e.events.len() == 0 && e.failure is None && e.state == st);
        assert(sse_feed(st, one.drop_last()) == e);
        match sse_step(st, x) {
            SseStep::Continue(s) => {
                lemma_scan_is_feed_prefix(s, rest);
                let k = sse_scan(s, rest).consumed;
                assert(bytes.take(k + 1 as int) =~= one + rest.take(k as int));
                lemma_feed_split(st, one, rest.take(k as int));
                assert(sse_feed(st, one).events =~= Seq::<Seq<char>>::empty());
                let g = sse_feed(s, rest.take(k as int));
                assert(Seq::<Seq<char>>::empty() + g.events =~= g.events);
            },
            SseStep::Event(s, d) => {
                assert(bytes.take(1) =~= one);
                assert(Seq::<Seq<char>>::empty().push(d) =~= seq![d]);
            },
            SseStep::Fail(s, m) => {
                assert(bytes.take(1) =~= one);
            },
        }
    } else {
        assert(bytes.take(0) =~= bytes);
    }
}

/// Transport chunks joined into one byte sequence.
pub open spec fn joined_chunks(chunks: Seq<Seq<u8>>) -> Seq<u8>
    decreases chunks.len(),
{
    if chunks.len() == 0 {
        seq![]
    } else {
        joined_chunks(chunks.drop_last()) + chunks.last()
    }
}

/// Feeding chunks one after another, each continuing the decoding the
/// earlier ones left.
pub open spec fn sse_feed_chunks(st: SseState, chunks: Seq<Seq<u8>>) -> SseFeed
    decreases chunks.len(),
{
    if chunks.len() == 0 {
        SseFeed { state: st, events: seq![], failure: None }
    } else {
        sse_resume(sse_feed_chunks(st, chunks.drop_last()), chunks.last())
    }
}

/// Decoding does not depend on how the transport splits the bytes: any
/// partition into chunks, fed in order, yields the same state, the same
/// events in the same order and the same failure as the bytes fed at once.
pub proof fn lemma_chunking_is_invisible(st: SseState, chunks: Seq<Seq<u8>>)
    ensures
        sse_feed_chunks(st, chunks) == sse_feed(st, joined_chunks(chunks)),
    decreases chunks.len(),
{
    if chunks.len() == 0 {
        assert(sse_feed(st, Seq::<u8>::empty()) == (SseFeed { state: st, events: seq![], failure: None }));
    } else {
        lemma_chunking_is_invisible(st, chunks.drop_last());
        lemma_feed_split(st, joined_chunks(chunks.drop_last()), chunks.last());
    }
}

/// Only a line end dispatches an event: the byte that completes an event is
/// a CR or an LF, the end of the blank line that closes the frame.
pub proof fn lemma_event_ends_a_line(st: SseState, b: u8)
    ensures
        sse_step(st, b) is Event ==> b == 0x0D || b == 0x0A,
{
}

/// A scan that reports an event stops at the line end that dispatched it:
/// no byte after it is consumed.
pub proof fn lemma_scan_stops_at_dispatch(st: SseState, bytes: Seq<u8>)
    ensures
        sse_scan(st, bytes).outcome is Event ==> ({
            let k = sse_scan(st, bytes).consumed;
            1 <= k <= bytes.len() && (bytes[k - 1] == 0x0D || bytes[k - 1] == 0x0A)
        }),
    decreases bytes.len(),
{
    if bytes.len() > 0 {
        lemma_event_ends_a_line(st, bytes[0]);
        match sse_step(st, bytes[0]) {
            SseStep::Continue(s) => {
                lemma_scan_stops_at_dispatch(s, bytes.drop_first());
                lemma_scan_is_feed_prefix(s, bytes.drop_first());
            },
            _ => {},
        }
    }
}

/// Incremental decoder of server-sent events.
pub struct Decoder {
    line: Vec<u8>,
    data: String,
    has_data: bool,
    skip_lf: bool,
    frame_bytes: usize,
}

impl Decoder {
    /// The decoder's state.
    pub closed spec fn state(&self) -> SseState {
        SseState {
            line: self.line@,
            data: self.data@,
            has_data: self.has_data,
            skip_lf: self.skip_lf,
            frame_bytes: self.frame_bytes as nat,
        }
    }

    /// A frame never holds more counted bytes than the limit.
    /// The frame count stays at most one past the limit, where a frame
    /// that grew too large leaves it.
    pub closed spec fn wf(&self) -> bool {
        self.frame_bytes <= MAX_FRAME_BYTES + 1
    }

    pub fn new() -> (d: Self)
        ensures
            d.state() == sse_initial(),
            d.wf(),
    {
        Decoder { line: Vec::new(), data: String::new(), has_data: false, skip_lf: false, frame_bytes: 0 }
    }

    /// Bytes of the unfinished line.
    pub fn pending_line_len(&self) -> (n: usize)
        ensures
            n == self.state().line.len(),
    {
        self.line.len()
    }

    /// Consumes `input` only through the next event, which it returns, so that
    /// the caller can apply backpressure before decoding further; `Ok(None)`
    /// when all of `input` was consumed without completing an event.
    pub fn next(&mut self, input: &mut &[u8]) -> (r: Result<Option<String>, Error>)
        requires
            old(self).wf(),
        ensures
            ({
                let scan = sse_scan(old(self).state(), old(input)@);
                &&& final(self).state() == scan.state
                &&& final(self).wf()
                &&& final(input)@ == old(input)@.skip(scan.consumed as int)
                &&& match scan.outcome {
                    SseOutcome::Pending => r == Ok::<Option<String>, Error>(None),
                    SseOutcome::Event(d) => r matches Ok(Some(s)) && s@ == d,
                    SseOutcome::Fail(m) => r == Err::<Option<String>, Error>(Error::MalformedStream(m)),
                }
            }),
    {
        let bytes: &[u8] = *input;
        let ghost st0 = old(self).state();
        let mut line: Vec<u8> = Vec::new();
        std::mem::swap(&mut line, &mut self.line);
        let mut data = String::new();
        std::mem::swap(&mut data, &mut self.data);
        let mut d = Decoder {
            line,
            data,
            has_data: self.has_data,
            skip_lf: self.skip_lf,
            frame_bytes: self.frame_bytes,
        };
        assert(d.state() == st0);
        let mut i: usize = 0;
        let mut failure: Option<&'static str> = None;
        let mut event: Option<String> = None;
        assert(bytes@.skip(0) =~= bytes@);
        while i < bytes.len() && failure.is_none() && event.is_none()
            invariant
                i <= bytes.len(),
                bytes@ == old(input)@,
                d.wf(),
                !(failure.is_some() && event.is_some()),
                failure.is_none() && event.is_none() ==> sse_scan(st0, bytes@) == ({
                    let r = sse_scan(d.state(), bytes@.skip(i as int));
                    SseScan { state: r.state, consumed: r.consumed + i as nat, outcome: r.outcome }
                }),
                failure matches Some(m) ==> sse_scan(st0, bytes@) == (SseScan {
                    state: d.state(),
                    consumed: i as nat,
                    outcome: SseOutcome::Fail(m),
                }),
                event matches Some(e) ==> sse_scan(st0, bytes@) == (SseScan {
                    state: d.state(),
                    consumed: i as nat,
                    outcome: SseOutcome::Event(e@),
                }),
            decreases bytes.len() - i,
        {
            let b = bytes[i];
            let ghost st = d.state();
            let ghost rest = bytes@.skip(i as int);
            assert(rest[0] == b);
            assert(rest.drop_first() =~= bytes@.skip(i + 1));
            let ghost step = sse_step(st, b);
            i += 1;
            if d.skip_lf && b == 0x0A {
                d.skip_lf = false;
                assert(step == SseStep::Continue(d.state()));
                continue;
            }
            d.skip_lf = false;
            d.frame_bytes = d.frame_bytes + 1;
            if d.frame_bytes > MAX_FRAME_BYTES {
                d.frame_bytes = MAX_FRAME_BYTES + 1;
                assert(step == SseStep::Fail(d.state(), "SSE frame exceeded the size limit"));
                failure = Some("SSE frame exceeded the size limit");
                continue;
            }
            if b != 0x0D && b != 0x0A {
                d.line.push(b);
                assert(step == SseStep::Continue(d.state()));
                continue;
            }
            d.skip_lf = b == 0x0D;
            let decoded = crate::utf8::decode(d.line.as_slice());
            let text = match decoded {
                None => {
                    assert(step == SseStep::Fail(d.state(), "stream was not UTF-8"));
                    failure = Some("stream was not UTF-8");
                    continue;
                },
                Some(text) => text,
            };
            let chars = chars_of(text.as_str());
            if chars.len() == 0 {
                d.frame_bytes = 0;
                if d.has_data {
                    let ghost data = d.data@;
                    d.has_data = false;
                    let mut data_out = String::new();
                    std::mem::swap(&mut data_out, &mut d.data);
                    assert(d.data@ == Seq::<char>::empty());
                    assert(step == SseStep::Event(d.state(), data));
                    event = Some(data_out);
                    continue;
                }
                d.line.clear();
                assert(d.line@ =~= st.line);
                assert(step == SseStep::Continue(d.state()));
            } else {
                d.field(&chars);
                assert(step == SseStep::Continue(d.state()));
            }
        }
        *input = bytes.split_at(i).1;
        *self = d;
        match failure {
            Some(m) => Err(Error::MalformedStream(m)),
            None => Ok(event),
        }
    }

    /// Ends the stream: refused when it stopped inside a line or inside an
    /// event that was not yet dispatched.
    pub fn finish(self) -> (r: Result<(), Error>)
        ensures
            r is Ok <==> (self.state().line.len() == 0 && !self.state().has_data),
            r is Err ==> r == Err::<(), Error>(
                Error::MalformedStream("stream ended before an SSE event boundary"),
            ),
    {
        if self.line.len() != 0 || self.has_data {
            return Err(Error::MalformedStream("stream ended before an SSE event boundary"));
        }
        Ok(())
    }

    /// Applies one complete non-empty line.
    fn field(&mut self, line: &Vec<char>)
        requires
            line@.len() > 0,
        ensures
            final(self).state() == sse_field(old(self).state(), line@),
            final(self).frame_bytes == old(self).frame_bytes,
    {
        let n = line.len();
        let mut colon: usize = 0;
        while colon < n && line[colon] != ':'
            invariant
                colon <= n == line@.len(),
                forall|j: int| 0 <= j < colon ==> line@[j] != ':',
            decreases n - colon,
        {
            colon += 1;
        }
        proof {
            lemma_first_colon(line@, colon as int);
        }
        let is_data = colon == 4 && line[0] == 'd' && line[1] == 'a' && line[2] == 't' && line[3] == 'a';
        assert(is_data == (field_of(line@) == seq!['d', 'a', 't', 'a'])) by {
            if colon < n {
                assert(field_of(line@) == line@.take(colon as int));
            } else {
                assert(field_of(line@) == line@);
            }
            if field_of(line@) == seq!['d', 'a', 't', 'a'] {
                assert(field_of(line@).len() == 4);
            }
            if is_data {
                assert(field_of(line@) =~= seq!['d', 'a', 't', 'a']);
            }
        }
        if is_data {
            if self.has_data {
                push_char(&mut self.data, '\n');
            }
            self.has_data = true;
            let mut start: usize = if colon < n { colon + 1 } else { n };
            if start < n && line[start] == ' ' {
                start = start + 1;
            }
            let ghost base = self.data@;
            let ghost keep_line = self.line@;
            let mut j: usize = start;
            while j < n
                invariant
                    start <= j <= n == line@.len(),
                    self.line@ == keep_line,
                    self.has_data,
                    self.skip_lf == old(self).skip_lf,
                    self.frame_bytes == old(self).frame_bytes,
                    self.data@ == base + line@.subrange(start as int, j as int),
                decreases n - j,
            {
                push_char(&mut self.data, line[j]);
                assert(line@.subrange(start as int, j + 1) == line@.subrange(start as int, j as int).push(line@[j as int]));
                j += 1;
            }
            assert(line@.subrange(start as int, n as int) =~= value_of(line@));
        }
        self.line.clear();
    }
}

proof fn lemma_first_colon(s: Seq<char>, k: int)
    requires
        0 <= k <= s.len(),
        forall|j: int| 0 <= j < k ==> s[j] != ':',
        k < s.len() ==> s[k] == ':',
    ensures
        k < s.len() ==> first_colon(s) == Some(k),
        k == s.len() ==> first_colon(s) is None,
    decreases s.len(),
{
    if s.len() > 0 && k > 0 {
        lemma_first_colon(s.drop_first(), k - 1);
    }
}

} // verus!
