//! The in-memory session repository.

use std::sync::Arc;

use vstd::prelude::*;

use super::{
    ConfigModel, ModelCommit, SessionConfig, SessionId, SessionRepositoryError, SessionSnapshot,
    SessionSummary, ToolOutcome, UsageSummary, fallback, fallback_id, lemma_fallback_increases,
    lemma_fallback_keeps_kind, observed, usage_zero, uuid_random, uuid_variant, uuid_version,
};
use super::transcript::{ToolExecution, TranscriptEntry};
use crate::inference::{
    ConversationItem, ContinuationItem, ModelOutputItem, OutputEffect, TokenUsage, ToolCall,
    copy_items,
};
use crate::text::{chars_of, push_char};

verus! {

/// A committed tool call awaiting its result, and the index of its
/// transcript entry.
#[derive(Debug)]
pub struct PendingCall {
    pub call: ToolCall,
    pub entry: usize,
}

/// One session as values.
pub struct SessionState {
    /// Model-facing context, in commit order.
    pub items: Seq<ConversationItem>,
    /// Presentation history, in commit order.
    pub transcript: Seq<TranscriptEntry>,
    pub config: ConfigModel,
    pub usage: UsageSummary,
    /// The unresolved tool round: empty when the session is ready.
    pub pending: Seq<PendingCall>,
}

/// Every pending call points at its own pending transcript entry, in order.
pub open spec fn state_wf(st: SessionState) -> bool {
    &&& forall|k: int|
        0 <= k < st.pending.len() ==> {
            let p = #[trigger] st.pending[k];
            &&& p.entry < st.transcript.len()
            &&& st.transcript[p.entry as int] == (TranscriptEntry::ToolInvocation {
                name: p.call.name,
                arguments: p.call.arguments,
                execution: ToolExecution::Pending,
            })
        }
    &&& forall|j: int, k: int|
        0 <= j < k < st.pending.len() ==> #[trigger] st.pending[j].entry < #[trigger] st.pending[k].entry
}

/// The state of a fresh session.
pub open spec fn fresh_state(config: ConfigModel) -> SessionState {
    SessionState { items: seq![], transcript: seq![], config, usage: usage_zero(), pending: seq![] }
}

/// No identifier occurs twice.
pub open spec fn unique_ids(recs: Seq<(u128, SessionState)>) -> bool {
    forall|i: int, j: int| 0 <= i < j < recs.len() ==> #[trigger] recs[i].0 != #[trigger] recs[j].0
}

/// Where `id` stands in a sequence of sessions.
pub open spec fn index_of(recs: Seq<(u128, SessionState)>, id: u128) -> int {
    choose|i: int| 0 <= i < recs.len() && recs[i].0 == id
}

/// The session with identifier `id`, if there is one.
pub open spec fn session_of(recs: Seq<(u128, SessionState)>, id: u128) -> Option<SessionState> {
    if exists|i: int| 0 <= i < recs.len() && recs[i].0 == id {
        Some(recs[index_of(recs, id)].1)
    } else {
        None
    }
}

/// A session after one user message joined its context and history.
pub open spec fn with_user_text(st: SessionState, t: String) -> SessionState {
    SessionState {
        items: st.items.push(ConversationItem::UserText(t)),
        transcript: st.transcript.push(TranscriptEntry::UserMessage { text: t }),
        ..st
    }
}

/// `after` is `before` with the user message `text` committed to session `id`.
pub open spec fn user_text_committed(
    before: Seq<(u128, SessionState)>,
    id: u128,
    text: Seq<char>,
    after: Seq<(u128, SessionState)>,
) -> bool {
    exists|t: String|
        t@ == text && after == before.update(
            index_of(before, id),
            (id, with_user_text(before[index_of(before, id)].1, t)),
        )
}

/// Commits model outputs: every output's protocol item joins the context;
/// each message and each tool call joins the transcript; each tool call
/// becomes pending.
pub open spec fn commit_outputs(st: SessionState, outs: Seq<ModelOutputItem>) -> SessionState
    decreases outs.len(),
{
    if outs.len() == 0 {
        st
    } else {
        let s = commit_outputs(st, outs.drop_last());
        let o = outs.last();
        let s = SessionState {
            items: s.items.push(ConversationItem::Continuation(o.continuation_spec())),
            ..s
        };
        match o.effect_spec() {
            OutputEffect::NoEffect => s,
            OutputEffect::Message(t) => SessionState {
                transcript: s.transcript.push(TranscriptEntry::ModelMessage { text: t }),
                ..s
            },
            OutputEffect::ToolCall(c) => SessionState {
                transcript: s.transcript.push(
                    TranscriptEntry::ToolInvocation {
                        name: c.name,
                        arguments: c.arguments,
                        execution: ToolExecution::Pending,
                    },
                ),
                pending: s.pending.push(PendingCall { call: c, entry: s.transcript.len() as usize }),
                ..s
            },
        }
    }
}

/// The text an outcome commits to model context.
pub open spec fn result_output(o: ToolOutcome) -> String {
    match o {
        ToolOutcome::Completed(r) => r.context_output,
        ToolOutcome::Failed(r) => r.context_output,
        ToolOutcome::Skipped(r) => r.context_output,
    }
}

/// The terminal transcript state of an outcome.
pub open spec fn terminal_execution(o: ToolOutcome) -> ToolExecution {
    match o {
        ToolOutcome::Completed(r) => ToolExecution::Completed(r.display),
        ToolOutcome::Failed(r) => ToolExecution::Failed(r.display),
        ToolOutcome::Skipped(r) => ToolExecution::Skipped(r.display),
    }
}

/// The terminal entry of the `k`th pending call.
pub open spec fn resolved_entry(p: PendingCall, o: ToolOutcome) -> TranscriptEntry {
    TranscriptEntry::ToolInvocation {
        name: p.call.name,
        arguments: p.call.arguments,
        execution: terminal_execution(o),
    }
}

/// Applies the first `n` results of a round, in call order: each result's
/// output joins the context under its call's id, and its call's transcript
/// entry becomes terminal.
pub open spec fn apply_round(st: SessionState, results: Seq<ToolOutcome>, n: int) -> SessionState
    decreases n,
{
    if n <= 0 {
        st
    } else {
        let s = apply_round(st, results, n - 1);
        let p = st.pending[n - 1];
        let r = results[n - 1];
        SessionState {
            items: s.items.push(
                ConversationItem::FunctionCallOutput {
                    call_id: p.call.call_id,
                    output: result_output(r),
                },
            ),
            transcript: s.transcript.update(p.entry as int, resolved_entry(p, r)),
            ..s
        }
    }
}

/// A whole round committed: every result applied and nothing left pending.
pub open spec fn committed_round(st: SessionState, results: Seq<ToolOutcome>) -> SessionState {
    SessionState { pending: seq![], ..apply_round(st, results, results.len() as int) }
}

/// What the session list shows of a session: its first user text, at most
/// 80 characters of it, or `empty session`.
pub open spec fn brief_of(items: Seq<ConversationItem>) -> Seq<char>
    decreases items.len(),
{
    if items.len() == 0 {
        seq!['e', 'm', 'p', 't', 'y', ' ', 's', 'e', 's', 's', 'i', 'o', 'n']
    } else {
        match items[0] {
            ConversationItem::UserText(t) => if t@.len() > 80 {
                t@.take(80)
            } else {
                t@
            },
            _ => brief_of(items.drop_first()),
        }
    }
}

/// The tool calls among model outputs, in output order.
pub open spec fn tool_calls(outs: Seq<ModelOutputItem>) -> Seq<ToolCall>
    decreases outs.len(),
{
    if outs.len() == 0 {
        seq![]
    } else {
        tool_calls(outs.drop_last()) + match outs.last().effect_spec() {
            OutputEffect::ToolCall(c) => seq![c],
            _ => seq![],
        }
    }
}

/// The calls of pending tool calls.
pub open spec fn pending_calls(pending: Seq<PendingCall>) -> Seq<ToolCall> {
    pending.map_values(|p: PendingCall| p.call)
}

/// Committing model outputs appends one context item per output, keeps the
/// history before it, and makes exactly the outputs' tool calls pending, in
/// output order.
pub proof fn lemma_commit_outputs_extends(st: SessionState, outs: Seq<ModelOutputItem>)
    ensures
        commit_outputs(st, outs).items.len() == st.items.len() + outs.len(),
        commit_outputs(st, outs).items.take(st.items.len() as int) == st.items,
        commit_outputs(st, outs).transcript.len() >= st.transcript.len(),
        commit_outputs(st, outs).transcript.take(st.transcript.len() as int) == st.transcript,
        pending_calls(commit_outputs(st, outs).pending) == pending_calls(st.pending) + tool_calls(outs),
        commit_outputs(st, outs).config == st.config,
        commit_outputs(st, outs).usage == st.usage,
    decreases outs.len(),
{
    if outs.len() > 0 {
        lemma_commit_outputs_extends(st, outs.drop_last());
        let prev = commit_outputs(st, outs.drop_last());
        let cur = commit_outputs(st, outs);
        assert(cur.items.take(st.items.len() as int) =~= prev.items.take(st.items.len() as int));
        assert(cur.transcript.take(st.transcript.len() as int) =~= prev.transcript.take(st.transcript.len() as int));
        assert(pending_calls(cur.pending) =~= pending_calls(prev.pending) + match outs.last().effect_spec() {
            OutputEffect::ToolCall(c) => seq![c],
            _ => Seq::<ToolCall>::empty(),
        });
        assert(pending_calls(cur.pending) =~= pending_calls(st.pending) + tool_calls(outs));
    } else {
        assert(st.items.take(st.items.len() as int) =~= st.items);
        assert(st.transcript.take(st.transcript.len() as int) =~= st.transcript);
        assert(pending_calls(st.pending) + tool_calls(outs) =~= pending_calls(st.pending));
    }
}

/// Applying results keeps the history's length, makes each applied call's
/// entry terminal with its own result, leaves every other entry as it was,
/// and appends each result's output to the context under its call's id.
pub proof fn lemma_apply_round_resolves(st: SessionState, results: Seq<ToolOutcome>, n: int, e: int)
    requires
        state_wf(st),
        0 <= n <= st.pending.len(),
        n <= results.len(),
        0 <= e < st.transcript.len(),
    ensures
        apply_round(st, results, n).transcript.len() == st.transcript.len(),
        apply_round(st, results, n).items.len() == st.items.len() + n,
        apply_round(st, results, n).items.take(st.items.len() as int) == st.items,
        forall|k: int|
            0 <= k < n ==> #[trigger] apply_round(st, results, n).items[st.items.len() + k]
                == (ConversationItem::FunctionCallOutput {
                call_id: st.pending[k].call.call_id,
                output: result_output(results[k]),
            }),
        (forall|k: int| 0 <= k < n ==> #[trigger] st.pending[k].entry != e) ==> apply_round(st, results, n).transcript[e]
            == st.transcript[e],
        forall|k: int|
            0 <= k < n && st.pending[k].entry == e ==> apply_round(st, results, n).transcript[e]
                == resolved_entry(#[trigger] st.pending[k], results[k]),
    decreases n,
{
    if n > 0 {
        lemma_apply_round_resolves(st, results, n - 1, e);
        let prev = apply_round(st, results, n - 1);
        let cur = apply_round(st, results, n);
        assert(cur.items.take(st.items.len() as int) =~= prev.items.take(st.items.len() as int));
        assert forall|k: int| 0 <= k < n && st.pending[k].entry == e implies cur.transcript[e] == resolved_entry(
            #[trigger] st.pending[k],
            results[k],
        ) by {
            if k < n - 1 {
                assert(st.pending[k].entry < st.pending[n - 1].entry);
            }
        }
    } else {
        assert(st.items.take(st.items.len() as int) =~= st.items);
    }
}

struct SessionRecord {
    id: u128,
    items: Vec<ConversationItem>,
    transcript: Vec<Arc<TranscriptEntry>>,
    config: SessionConfig,
    usage: UsageSummary,
    pending: Vec<PendingCall>,
}

impl SessionRecord {
    spec fn state(&self) -> SessionState {
        SessionState {
            items: self.items@,
            transcript: self.transcript@.map_values(|a: Arc<TranscriptEntry>| *a),
            config: self.config.model(),
            usage: self.usage,
            pending: self.pending@,
        }
    }
}

spec fn records_wf(s: Seq<SessionRecord>) -> bool {
    &&& forall|i: int, j: int| 0 <= i < j < s.len() ==> #[trigger] s[i].id < #[trigger] s[j].id
    &&& forall|i: int| 0 <= i < s.len() ==> state_wf(#[trigger] s[i].state())
}

proof fn lemma_update_wf(s: Seq<SessionRecord>, i: int, rec: SessionRecord)
    requires
        records_wf(s),
        0 <= i < s.len(),
        rec.id == s[i].id,
        state_wf(rec.state()),
    ensures
        records_wf(s.update(i, rec)),
{
    let t = s.update(i, rec);
    assert forall|a: int, b: int| 0 <= a < b < t.len() implies #[trigger] t[a].id < #[trigger] t[b].id by {
        assert(s[a].id < s[b].id);
    }
    assert forall|a: int| 0 <= a < t.len() implies state_wf(#[trigger] t[a].state()) by {
        if a != i {
            assert(t[a] == s[a]);
        }
    }
}

/// Makes another handle to the same immutable entry (`Arc::clone`).
#[verifier::external_body]
fn share(entry: &Arc<TranscriptEntry>) -> (r: Arc<TranscriptEntry>)
    ensures
        r == *entry,
{
    Arc::clone(entry)
}

/// Sessions held in memory, ordered by identifier. Every commit validates
/// before it publishes, so a refused operation leaves every session as it was.
pub struct MemorySessionRepository {
    sessions: Vec<SessionRecord>,
}

impl MemorySessionRepository {
    /// The sessions, in identifier order.
    pub closed spec fn records(&self) -> Seq<(u128, SessionState)> {
        self.sessions@.map_values(|r: SessionRecord| (r.id, r.state()))
    }

    /// Identifiers strictly increase and every session is well formed.
    pub closed spec fn wf(&self) -> bool {
        records_wf(self.sessions@)
    }

    /// No identifier occurs twice.
    pub proof fn lemma_unique_ids(&self)
        requires
            self.wf(),
        ensures
            unique_ids(self.records()),
    {
        assert forall|i: int, j: int| 0 <= i < j < self.records().len() implies #[trigger] self.records()[i].0
            != #[trigger] self.records()[j].0 by {
            assert(self.sessions@[i].id < self.sessions@[j].id);
        }
    }

    pub fn new() -> (r: Self)
        ensures
            r.wf(),
            r.records() == Seq::<(u128, SessionState)>::empty(),
    {
        let r = MemorySessionRepository { sessions: Vec::new() };
        assert(r.records() =~= Seq::<(u128, SessionState)>::empty());
        r
    }

    fn find(&self, id: u128) -> (r: Option<usize>)
        requires
            self.wf(),
        ensures
            match r {
                Some(i) => i < self.sessions@.len() && self.sessions@[i as int].id == id
                    && index_of(self.records(), id) == i
                    && session_of(self.records(), id) == Some(self.sessions@[i as int].state()),
                None => session_of(self.records(), id) is None,
            },
    {
        let mut i: usize = 0;
        while i < self.sessions.len()
            invariant
                i <= self.sessions@.len(),
                records_wf(self.sessions@),
                forall|j: int| 0 <= j < i ==> self.sessions@[j].id != id,
            decreases self.sessions.len() - i,
        {
            if self.sessions[i].id == id {
                let ghost recs = self.records();
                assert(recs[i as int].0 == id);
                assert(index_of(recs, id) == i) by {
                    let k = index_of(recs, id);
                    assert(0 <= k < recs.len() && recs[k].0 == id);
                    assert(recs[k].0 == self.sessions@[k].id);
                    if k < i {
                        assert(self.sessions@[k].id == id);
                    } else if k > i {
                        assert(self.sessions@[i as int].id < self.sessions@[k].id);
                    }
                }
                return Some(i);
            }
            i += 1;
        }
        assert forall|j: int| 0 <= j < self.records().len() implies self.records()[j].0 != id by {
            assert(self.records()[j].0 == self.sessions@[j].id);
        }
        None
    }

    /// Whether new input, network work or a successful run may proceed: the
    /// session exists and has no unresolved tool round.
    pub fn ensure_ready(&self, id: SessionId) -> (r: Result<(), SessionRepositoryError>)
        requires
            self.wf(),
        ensures
            match session_of(self.records(), id.0) {
                None => r == Err::<(), SessionRepositoryError>(SessionRepositoryError::NotFound(id)),
                Some(st) => if st.pending.len() > 0 {
                    r == Err::<(), SessionRepositoryError>(SessionRepositoryError::InvalidToolRound {
                        id,
                        reason: "unresolved tool round",
                    })
                } else {
                    r is Ok
                },
            },
    {
        match self.find(id.0) {
            None => Err(SessionRepositoryError::NotFound(id)),
            Some(i) => {
                if self.sessions[i].pending.len() > 0 {
                    Err(SessionRepositoryError::InvalidToolRound { id, reason: "unresolved tool round" })
                } else {
                    Ok(())
                }
            },
        }
    }

    /// The committed context, configuration and usage of a session.
    pub fn snapshot(&self, id: SessionId) -> (r: Result<SessionSnapshot, SessionRepositoryError>)
        requires
            self.wf(),
        ensures
            match session_of(self.records(), id.0) {
                None => r == Err::<SessionSnapshot, SessionRepositoryError>(
                    SessionRepositoryError::NotFound(id),
                ),
                Some(st) => r matches Ok(snap) && snap.id == id && snap.items@ == st.items
                    && snap.config.model() == st.config && snap.usage == st.usage,
            },
    {
        match self.find(id.0) {
            None => Err(SessionRepositoryError::NotFound(id)),
            Some(i) => {
                let rec = &self.sessions[i];
                Ok(SessionSnapshot {
                    id,
                    items: copy_items(rec.items.as_slice()),
                    config: rec.config.duplicate(),
                    usage: rec.usage,
                })
            },
        }
    }

    /// The presentation history of a session. The entries are shared,
    /// immutable snapshots: later commits do not change them.
    pub fn transcript(&self, id: SessionId) -> (r: Result<Vec<Arc<TranscriptEntry>>, SessionRepositoryError>)
        requires
            self.wf(),
        ensures
            match session_of(self.records(), id.0) {
                None => r == Err::<Vec<Arc<TranscriptEntry>>, SessionRepositoryError>(
                    SessionRepositoryError::NotFound(id),
                ),
                Some(st) => r matches Ok(v) && v@.map_values(|a: Arc<TranscriptEntry>| *a)
                    == st.transcript,
            },
    {
        match self.find(id.0) {
            None => Err(SessionRepositoryError::NotFound(id)),
            Some(i) => {
                let t = &self.sessions[i].transcript;
                let mut v: Vec<Arc<TranscriptEntry>> = Vec::new();
                let mut k: usize = 0;
                while k < t.len()
                    invariant
                        k <= t@.len(),
                        v@.len() == k,
                        forall|j: int| 0 <= j < k ==> v@[j] == t@[j],
                    decreases t.len() - k,
                {
                    v.push(share(&t[k]));
                    k += 1;
                }
                assert(v@.map_values(|a: Arc<TranscriptEntry>| *a) =~= t@.map_values(
                    |a: Arc<TranscriptEntry>| *a,
                ));
                Ok(v)
            },
        }
    }

    /// Summaries of all sessions, in identifier order.
    pub fn list(&self) -> (r: Vec<SessionSummary>)
        requires
            self.wf(),
        ensures
            r@.len() == self.records().len(),
            forall|k: int|
                0 <= k < r@.len() ==> {
                    let s = #[trigger] r@[k];
                    let (id, st) = self.records()[k];
                    &&& s.id.0 == id
                    &&& s.brief@ == brief_of(st.items)
                    &&& s.item_count == st.items.len()
                    &&& s.config.model() == st.config
                    &&& s.usage == st.usage
                },
    {
        let mut r: Vec<SessionSummary> = Vec::new();
        let mut k: usize = 0;
        while k < self.sessions.len()
            invariant
                k <= self.sessions@.len(),
                r@.len() == k,
                forall|j: int|
                    0 <= j < k ==> {
                        let s = #[trigger] r@[j];
                        let (id, st) = self.records()[j];
                        &&& s.id.0 == id
                        &&& s.brief@ == brief_of(st.items)
                        &&& s.item_count == st.items.len()
                        &&& s.config.model() == st.config
                        &&& s.usage == st.usage
                    },
            decreases self.sessions.len() - k,
        {
            let rec = &self.sessions[k];
            r.push(SessionSummary {
                id: SessionId(rec.id),
                brief: brief(&rec.items),
                item_count: rec.items.len(),
                config: rec.config.duplicate(),
                usage: rec.usage,
            });
            k += 1;
        }
        r
    }

    /// Puts back the record taken from `i`, possibly changed.
    fn put(&mut self, i: usize, rec: SessionRecord, Ghost(orig): Ghost<Seq<SessionRecord>>)
        requires
            records_wf(orig),
            i < orig.len(),
            old(self).sessions@ == orig.remove(i as int),
            rec.id == orig[i as int].id,
            state_wf(rec.state()),
        ensures
            records_wf(final(self).sessions@),
            final(self).sessions@ == orig.update(i as int, rec),
            final(self).records() == orig.map_values(|r: SessionRecord| (r.id, r.state())).update(
                i as int,
                (rec.id, rec.state()),
            ),
    {
        let ghost r = rec;
        self.sessions.insert(i, rec);
        assert(self.sessions@ =~= orig.update(i as int, r));
        proof {
            lemma_update_wf(orig, i as int, r);
        }
        assert(self.records() =~= orig.map_values(|x: SessionRecord| (x.id, x.state())).update(
            i as int,
            (r.id, r.state()),
        ));
    }

    /// Accepts one user message into context and presentation history
    /// together; refused while a tool round is unresolved.
    pub fn commit_user(&mut self, id: SessionId, text: &str) -> (r: Result<(), SessionRepositoryError>)
        requires
            old(self).wf(),
        ensures
            final(self).wf(),
            match session_of(old(self).records(), id.0) {
                None => r == Err::<(), SessionRepositoryError>(SessionRepositoryError::NotFound(id))
                    && final(self).records() == old(self).records(),
                Some(st) => if st.pending.len() > 0 {
                    r == Err::<(), SessionRepositoryError>(SessionRepositoryError::InvalidToolRound {
                        id,
                        reason: "unresolved tool round",
                    }) && final(self).records() == old(self).records()
                } else {
                    r is Ok && user_text_committed(old(self).records(), id.0, text@, final(self).records())
                },
            },
    {
        let i = match self.find(id.0) {
            None => return Err(SessionRepositoryError::NotFound(id)),
            Some(i) => i,
        };
        if self.sessions[i].pending.len() > 0 {
            return Err(SessionRepositoryError::InvalidToolRound { id, reason: "unresolved tool round" });
        }
        let ghost st = self.sessions@[i as int].state();
        let ghost orig = self.sessions@;
        let ghost tv = text@;
        let mut rec = self.sessions.remove(i);
        let text = text.to_owned();
        let ghost t = text;
        rec.items.push(ConversationItem::UserText(text.clone()));
        rec.transcript.push(Arc::new(TranscriptEntry::UserMessage { text }));
        assert(rec.state().transcript =~= st.transcript.push(TranscriptEntry::UserMessage { text: t }));
        assert(rec.state() == (SessionState {
            items: st.items.push(ConversationItem::UserText(t)),
            transcript: st.transcript.push(TranscriptEntry::UserMessage { text: t }),
            ..st
        }));
        self.put(i, rec, Ghost(orig));
        assert(index_of(old(self).records(), id.0) == i);
        assert(old(self).records()[i as int].1 == st);
        assert(t@ == tv && self.records() == old(self).records().update(
            index_of(old(self).records(), id.0),
            (id.0, with_user_text(old(self).records()[index_of(old(self).records(), id.0)].1, t)),
        ));
        Ok(())
    }

    /// Commits a model response in one mutation: every output's protocol item
    /// joins the context, messages and tool calls join the presentation
    /// history, tool calls become the pending round, and the usage is counted.
    /// The returned entries and calls keep output order. Refused while a tool
    /// round is unresolved.
    pub fn commit_inference(
        &mut self,
        id: SessionId,
        output: &[ModelOutputItem],
        usage: Option<TokenUsage>,
    ) -> (r: Result<ModelCommit, SessionRepositoryError>)
        requires
            old(self).wf(),
        ensures
            final(self).wf(),
            match session_of(old(self).records(), id.0) {
                None => r == Err::<ModelCommit, SessionRepositoryError>(
                    SessionRepositoryError::NotFound(id),
                ) && final(self).records() == old(self).records(),
                Some(st) => if st.pending.len() > 0 {
                    r == Err::<ModelCommit, SessionRepositoryError>(
                        SessionRepositoryError::InvalidToolRound { id, reason: "unresolved tool round" },
                    ) && final(self).records() == old(self).records()
                } else {
                    let after = commit_outputs(st, output@);
                    &&& r matches Ok(c) && c.entries@.map_values(|a: Arc<TranscriptEntry>| *a)
                        == after.transcript.skip(st.transcript.len() as int)
                        && c.calls@ == after.pending.map_values(|p: PendingCall| p.call)
                    &&& final(self).records() == old(self).records().update(
                        index_of(old(self).records(), id.0),
                        (id.0, SessionState { usage: observed(st.usage, usage), ..after }),
                    )
                },
            },
    {
        let i = match self.find(id.0) {
            None => return Err(SessionRepositoryError::NotFound(id)),
            Some(i) => i,
        };
        if self.sessions[i].pending.len() > 0 {
            return Err(SessionRepositoryError::InvalidToolRound { id, reason: "unresolved tool round" });
        }
        let ghost st = self.sessions@[i as int].state();
        let ghost orig = self.sessions@;
        let mut rec = self.sessions.remove(i);
        let mut entries: Vec<Arc<TranscriptEntry>> = Vec::new();
        let mut calls: Vec<ToolCall> = Vec::new();
        let mut k: usize = 0;
        assert(output@.take(0) =~= Seq::<ModelOutputItem>::empty());
        while k < output.len()
            invariant
                k <= output@.len(),
                st.pending.len() == 0,
                state_wf(rec.state()),
                i < orig.len(),
                rec.id == orig[i as int].id,
                rec.config.model() == st.config,
                rec.usage == st.usage,
                ({
                    let cur = commit_outputs(st, output@.take(k as int));
                    &&& rec.state() == cur
                    &&& cur.transcript.len() >= st.transcript.len()
                    &&& cur.transcript.take(st.transcript.len() as int) == st.transcript
                    &&& entries@.map_values(|a: Arc<TranscriptEntry>| *a) == cur.transcript.skip(
                        st.transcript.len() as int,
                    )
                    &&& calls@ == cur.pending.map_values(|p: PendingCall| p.call)
                }),
            decreases output.len() - k,
        {
            let ghost before = rec.state();
            let ghost old_entries = entries@;
            let o = &output[k];
            rec.items.push(ConversationItem::Continuation(o.continuation().duplicate()));
            match o.effect() {
                OutputEffect::NoEffect => {},
                OutputEffect::Message(t) => {
                    let e = Arc::new(TranscriptEntry::ModelMessage { text: t.clone() });
                    rec.transcript.push(share(&e));
                    entries.push(e);
                },
                OutputEffect::ToolCall(c) => {
                    let entry = rec.transcript.len();
                    let e = Arc::new(
                        TranscriptEntry::ToolInvocation {
                            name: c.name.clone(),
                            arguments: c.arguments.clone(),
                            execution: ToolExecution::Pending,
                        },
                    );
                    rec.transcript.push(share(&e));
                    entries.push(e);
                    rec.pending.push(PendingCall { call: c.duplicate(), entry });
                    calls.push(c.duplicate());
                },
            }
            proof {
                let ts = output@.take(k + 1);
                assert(ts.drop_last() =~= output@.take(k as int));
                assert(ts.last() == output@[k as int]);
                let cur = commit_outputs(st, ts);
                assert(rec.state().items =~= cur.items);
                assert(rec.state().transcript =~= cur.transcript);
                assert(rec.state().pending =~= cur.pending);
                assert(cur.transcript.take(st.transcript.len() as int) =~= st.transcript);
                let n = st.transcript.len() as int;
                assert(old_entries.map_values(|a: Arc<TranscriptEntry>| *a) == before.transcript.skip(n));
                assert(before.transcript.len() >= n);
                assert(old_entries.map_values(|a: Arc<TranscriptEntry>| *a).len() == old_entries.len());
                assert(old_entries.len() == before.transcript.len() - n);
                assert(cur.transcript.len() >= before.transcript.len());
                assert(forall|j: int| 0 <= j < before.transcript.len() ==> cur.transcript[j] == before.transcript[j]);
                assert forall|j: int| 0 <= j < entries@.len() implies *entries@[j] == cur.transcript[n + j] by {
                    if j < old_entries.len() {
                        assert(entries@[j] == old_entries[j]);
                        assert(*old_entries[j] == old_entries.map_values(|a: Arc<TranscriptEntry>| *a)[j]);
                        assert(before.transcript.skip(n)[j] == before.transcript[n + j]);
                    }
                }
                assert(entries@.map_values(|a: Arc<TranscriptEntry>| *a) =~= cur.transcript.skip(n));
                assert(calls@ =~= cur.pending.map_values(|p: PendingCall| p.call));
                assert forall|a: int, b: int|
                    0 <= a < b < rec.state().pending.len() implies #[trigger] rec.state().pending[a].entry
                    < #[trigger] rec.state().pending[b].entry by {
                    if b == rec.state().pending.len() - 1 && b >= before.pending.len() {
                        assert(before.pending[a].entry < before.transcript.len());
                    } else {
                        assert(before.pending[a].entry < before.pending[b].entry);
                    }
                }
                assert forall|q: int| 0 <= q < rec.state().pending.len() implies {
                    let p = #[trigger] rec.state().pending[q];
                    &&& p.entry < rec.state().transcript.len()
                    &&& rec.state().transcript[p.entry as int] == (TranscriptEntry::ToolInvocation {
                        name: p.call.name,
                        arguments: p.call.arguments,
                        execution: ToolExecution::Pending,
                    })
                } by {
                    if q < before.pending.len() {
                        assert(rec.state().pending[q] == before.pending[q]);
                        assert(before.pending[q].entry < before.transcript.len());
                    }
                }
            }
            k += 1;
        }
        assert(output@.take(output.len() as int) =~= output@);
        rec.usage.observe(usage);
        let ghost fin = rec;
        self.put(i, rec, Ghost(orig));
        Ok(ModelCommit { entries, calls })
    }

    /// Completes the pending tool round. Results correspond, in order, to the
    /// calls of the round; each one's output joins the context under its
    /// call's id and its call's presentation entry becomes terminal. A
    /// session without a pending round, or a batch of another size, is
    /// refused. The returned terminal entries are in call order.
    pub fn commit_tool_round(
        &mut self,
        id: SessionId,
        results: Vec<ToolOutcome>,
    ) -> (r: Result<Vec<Arc<TranscriptEntry>>, SessionRepositoryError>)
        requires
            old(self).wf(),
        ensures
            final(self).wf(),
            match session_of(old(self).records(), id.0) {
                None => r == Err::<Vec<Arc<TranscriptEntry>>, SessionRepositoryError>(
                    SessionRepositoryError::NotFound(id),
                ) && final(self).records() == old(self).records(),
                Some(st) => if st.pending.len() == 0 {
                    r == Err::<Vec<Arc<TranscriptEntry>>, SessionRepositoryError>(
                        SessionRepositoryError::InvalidToolRound { id, reason: "no pending tool round" },
                    ) && final(self).records() == old(self).records()
                } else if results@.len() != st.pending.len() {
                    r == Err::<Vec<Arc<TranscriptEntry>>, SessionRepositoryError>(
                        SessionRepositoryError::InvalidToolRound {
                            id,
                            reason: "result count does not match pending calls",
                        },
                    ) && final(self).records() == old(self).records()
                } else {
                    &&& r matches Ok(v) && v@.map_values(|a: Arc<TranscriptEntry>| *a) == Seq::new(
                        st.pending.len(),
                        |k: int| resolved_entry(st.pending[k], results@[k]),
                    )
                    &&& final(self).records() == old(self).records().update(
                        index_of(old(self).records(), id.0),
                        (id.0, committed_round(st, results@)),
                    )
                },
            },
    {
        let i = match self.find(id.0) {
            None => return Err(SessionRepositoryError::NotFound(id)),
            Some(i) => i,
        };
        if self.sessions[i].pending.len() == 0 {
            return Err(SessionRepositoryError::InvalidToolRound { id, reason: "no pending tool round" });
        }
        if results.len() != self.sessions[i].pending.len() {
            return Err(
                SessionRepositoryError::InvalidToolRound {
                    id,
                    reason: "result count does not match pending calls",
                },
            );
        }
        let ghost st = self.sessions@[i as int].state();
        let ghost orig = self.sessions@;
        let mut rec = self.sessions.remove(i);
        let mut done: Vec<Arc<TranscriptEntry>> = Vec::new();
        let mut k: usize = 0;
        while k < results.len()
            invariant
                k <= results@.len(),
                results@.len() == st.pending.len(),
                state_wf(st),
                i < orig.len(),
                rec.id == orig[i as int].id,
                rec.config.model() == st.config,
                rec.usage == st.usage,
                rec.pending@ == st.pending,
                ({
                    let cur = apply_round(st, results@, k as int);
                    &&& rec.items@ == cur.items
                    &&& rec.transcript@.map_values(|a: Arc<TranscriptEntry>| *a) == cur.transcript
                    &&& cur.transcript.len() == st.transcript.len()
                    &&& cur.config == st.config
                    &&& cur.usage == st.usage
                    &&& forall|q: int|
                        k <= q < st.pending.len() ==> cur.transcript[#[trigger] st.pending[q].entry as int]
                            == st.transcript[st.pending[q].entry as int]
                    &&& done@.map_values(|a: Arc<TranscriptEntry>| *a) == Seq::new(
                        k as nat,
                        |j: int| resolved_entry(st.pending[j], results@[j]),
                    )
                }),
            decreases results.len() - k,
        {
            let ghost prev = apply_round(st, results@, k as int);
            let ghost old_done = done@;
            let ghost old_tr = rec.transcript@;
            let p = &rec.pending[k];
            let o = &results[k];
            let entry = p.entry;
            rec.items.push(
                ConversationItem::FunctionCallOutput {
                    call_id: p.call.call_id.clone(),
                    output: outcome_output(o),
                },
            );
            let e = Arc::new(
                TranscriptEntry::ToolInvocation {
                    name: p.call.name.clone(),
                    arguments: p.call.arguments.clone(),
                    execution: outcome_execution(o),
                },
            );
            assert(entry < old_tr.len()) by {
                assert(st.pending[k as int].entry < st.transcript.len());
                assert(old_tr.map_values(|a: Arc<TranscriptEntry>| *a).len() == old_tr.len());
            }
            rec.transcript.set(entry, share(&e));
            done.push(e);
            proof {
                let cur = apply_round(st, results@, k + 1);
                assert(old_done.map_values(|a: Arc<TranscriptEntry>| *a).len() == old_done.len());
                assert(old_done.len() == k);
                assert(rec.items@ =~= cur.items);
                assert(rec.transcript@.map_values(|a: Arc<TranscriptEntry>| *a) =~= cur.transcript);
                assert forall|q: int| k + 1 <= q < st.pending.len() implies cur.transcript[
                    #[trigger] st.pending[q].entry as int] == st.transcript[st.pending[q].entry as int] by {
                    assert(st.pending[k as int].entry < st.pending[q].entry);
                }
                assert forall|j: int| 0 <= j < done@.len() implies *done@[j] == resolved_entry(
                    st.pending[j],
                    results@[j],
                ) by {
                    if j < k {
                        assert(done@[j] == old_done[j]);
                        assert(*old_done[j] == old_done.map_values(|a: Arc<TranscriptEntry>| *a)[j]);
                    }
                }
                assert(done@.map_values(|a: Arc<TranscriptEntry>| *a) =~= Seq::new(
                    (k + 1) as nat,
                    |j: int| resolved_entry(st.pending[j], results@[j]),
                ));
            }
            k += 1;
        }
        rec.pending = Vec::new();
        assert(rec.state() == committed_round(st, results@)) by {
            assert(rec.state().pending =~= Seq::<PendingCall>::empty());
        }
        self.put(i, rec, Ghost(orig));
        Ok(done)
    }

    /// Replaces a session's configuration.
    pub fn set_config(&mut self, id: SessionId, config: SessionConfig) -> (r: Result<(), SessionRepositoryError>)
        requires
            old(self).wf(),
        ensures
            final(self).wf(),
            match session_of(old(self).records(), id.0) {
                None => r == Err::<(), SessionRepositoryError>(SessionRepositoryError::NotFound(id))
                    && final(self).records() == old(self).records(),
                Some(st) => r is Ok && final(self).records() == old(self).records().update(
                    index_of(old(self).records(), id.0),
                    (id.0, SessionState { config: config.model(), ..st }),
                ),
            },
    {
        let i = match self.find(id.0) {
            None => return Err(SessionRepositoryError::NotFound(id)),
            Some(i) => i,
        };
        let ghost orig = self.sessions@;
        let mut rec = self.sessions.remove(i);
        rec.config = config;
        self.put(i, rec, Ghost(orig));
        Ok(())
    }

    /// Forgets a session's context, history, usage and any unresolved tool
    /// round; its configuration stays.
    pub fn clear(&mut self, id: SessionId) -> (r: Result<(), SessionRepositoryError>)
        requires
            old(self).wf(),
        ensures
            final(self).wf(),
            match session_of(old(self).records(), id.0) {
                None => r == Err::<(), SessionRepositoryError>(SessionRepositoryError::NotFound(id))
                    && final(self).records() == old(self).records(),
                Some(st) => r is Ok && final(self).records() == old(self).records().update(
                    index_of(old(self).records(), id.0),
                    (id.0, fresh_state(st.config)),
                ),
            },
    {
        let i = match self.find(id.0) {
            None => return Err(SessionRepositoryError::NotFound(id)),
            Some(i) => i,
        };
        let ghost orig = self.sessions@;
        let mut rec = self.sessions.remove(i);
        rec.items = Vec::new();
        rec.transcript = Vec::new();
        rec.usage = UsageSummary::default();
        rec.pending = Vec::new();
        assert(rec.state().items =~= Seq::<ConversationItem>::empty());
        assert(rec.state().transcript =~= Seq::<TranscriptEntry>::empty());
        assert(rec.state().pending =~= Seq::<PendingCall>::empty());
        assert(rec.state() == fresh_state(orig[i as int].state().config));
        self.put(i, rec, Ghost(orig));
        Ok(())
    }

    /// Removes a session.
    pub fn delete(&mut self, id: SessionId) -> (r: Result<(), SessionRepositoryError>)
        requires
            old(self).wf(),
        ensures
            final(self).wf(),
            match session_of(old(self).records(), id.0) {
                None => r == Err::<(), SessionRepositoryError>(SessionRepositoryError::NotFound(id))
                    && final(self).records() == old(self).records(),
                Some(st) => r is Ok && final(self).records() == old(self).records().remove(
                    index_of(old(self).records(), id.0),
                ),
            },
    {
        let i = match self.find(id.0) {
            None => return Err(SessionRepositoryError::NotFound(id)),
            Some(i) => i,
        };
        let ghost orig = self.sessions@;
        let _ = self.sessions.remove(i);
        assert(self.records() =~= old(self).records().remove(i as int));
        assert forall|a: int, b: int|
            0 <= a < b < self.sessions@.len() implies #[trigger] self.sessions@[a].id
            < #[trigger] self.sessions@[b].id by {
            let a2 = if a < i { a } else { a + 1 };
            let b2 = if b < i { b } else { b + 1 };
            assert(orig[a2].id < orig[b2].id);
        }
        assert forall|a: int| 0 <= a < self.sessions@.len() implies state_wf(
            #[trigger] self.sessions@[a].state(),
        ) by {
            let a2 = if a < i { a } else { a + 1 };
            assert(self.sessions@[a] == orig[a2]);
        }
        Ok(())
    }

    /// The first fallback identifier of `base` that no session has. The
    /// identifiers increase and each taken one uses up a session, so one of
    /// the first `n + 1` is free.
    fn fallback_free(&self, base: u128) -> (c: u128)
        requires
            self.wf(),
        ensures
            session_of(self.records(), c) is None,
            uuid_version(c) == uuid_version(base),
            uuid_variant(c) == uuid_variant(base),
    {
        let n = self.sessions.len();
        let mut i: usize = 0;
        let mut k: u64 = 0;
        let mut c = fallback(base, k);
        while i < n && self.sessions[i].id <= c
            invariant
                n == self.sessions@.len(),
                records_wf(self.sessions@),
                i <= n,
                k as nat <= i as nat,
                c == fallback_id(base, k),
                forall|j: int| 0 <= j < i ==> #[trigger] self.sessions@[j].id < c,
            decreases n - i,
        {
            if self.sessions[i].id == c {
                proof {
                    lemma_fallback_increases(base, k);
                }
                k = k + 1;
                c = fallback(base, k);
            }
            i += 1;
        }
        proof {
            lemma_fallback_keeps_kind(base, k);
        }
        assert forall|j: int| 0 <= j < self.records().len() implies self.records()[j].0 != c by {
            assert(self.records()[j].0 == self.sessions@[j].id);
            if j > i {
                assert(self.sessions@[i as int].id < self.sessions@[j].id);
            }
        }
        c
    }

    /// Creates a session with the given configuration under a fresh version 4
    /// UUID: a random one, or, should that be taken, the first free one of
    /// the identifiers that keep its version, variant and highest bits and
    /// count up through the others. It always succeeds.
    pub fn create(&mut self, config: SessionConfig) -> (r: Result<SessionId, SessionRepositoryError>)
        requires
            old(self).wf(),
        ensures
            final(self).wf(),
            r is Ok,
            match r {
                Ok(id) => session_of(old(self).records(), id.0) is None && uuid_version(id.0) == 4
                    && uuid_variant(id.0) == 2 && exists|k: int|
                    0 <= k <= old(self).records().len() && final(self).records()
                        == old(self).records().insert(k, (id.0, fresh_state(config.model()))),
                Err(_) => false,
            },
    {
        let base = uuid_random();
        let candidate = if self.find(base).is_none() {
            base
        } else {
            self.fallback_free(base)
        };
        let mut pos: usize = 0;
        while pos < self.sessions.len() && self.sessions[pos].id < candidate
            invariant
                pos <= self.sessions@.len(),
                records_wf(self.sessions@),
                forall|j: int| 0 <= j < pos ==> #[trigger] self.sessions@[j].id < candidate,
            decreases self.sessions.len() - pos,
        {
            pos += 1;
        }
        let rec = SessionRecord {
            id: candidate,
            items: Vec::new(),
            transcript: Vec::new(),
            config,
            usage: UsageSummary::default(),
            pending: Vec::new(),
        };
        let ghost orig = self.sessions@;
        let ghost new_rec = rec;
        assert(rec.state().items =~= Seq::<ConversationItem>::empty());
        assert(rec.state().transcript =~= Seq::<TranscriptEntry>::empty());
        assert(rec.state().pending =~= Seq::<PendingCall>::empty());
        assert(rec.state() == fresh_state(rec.config.model()));
        assert forall|j: int| pos <= j < orig.len() implies #[trigger] orig[j].id > candidate by {
            assert(orig[pos as int].id >= candidate);
            if orig[pos as int].id == candidate {
                assert(self.records()[pos as int].0 == candidate);
            }
            if j > pos {
                assert(orig[pos as int].id < orig[j].id);
            }
        }
        self.sessions.insert(pos, rec);
        assert(self.sessions@ == orig.insert(pos as int, new_rec));
        assert forall|a: int, b: int|
            0 <= a < b < self.sessions@.len() implies #[trigger] self.sessions@[a].id
            < #[trigger] self.sessions@[b].id by {
            if a < pos && b < pos {
                assert(orig[a].id < orig[b].id);
            } else if a < pos && b == pos {
            } else if a < pos {
                assert(orig[a].id < orig[b - 1].id);
            } else if a == pos {
            } else {
                assert(orig[a - 1].id < orig[b - 1].id);
            }
        }
        assert forall|a: int| 0 <= a < self.sessions@.len() implies state_wf(
            #[trigger] self.sessions@[a].state(),
        ) by {
            if a < pos {
                assert(self.sessions@[a] == orig[a]);
            } else if a > pos {
                assert(self.sessions@[a] == orig[a - 1]);
            }
        }
        assert(self.records() =~= old(self).records().insert(
            pos as int,
            (candidate, fresh_state(new_rec.config.model())),
        ));
        Ok(SessionId(candidate))
    }
}

/// The text an outcome commits to model context.
fn outcome_output(o: &ToolOutcome) -> (s: String)
    ensures
        s == result_output(*o),
{
    match o {
        ToolOutcome::Completed(r) => r.context_output.clone(),
        ToolOutcome::Failed(r) => r.context_output.clone(),
        ToolOutcome::Skipped(r) => r.context_output.clone(),
    }
}

/// The terminal presentation state of an outcome.
fn outcome_execution(o: &ToolOutcome) -> (e: ToolExecution)
    ensures
        e == terminal_execution(*o),
{
    match o {
        ToolOutcome::Completed(r) => ToolExecution::Completed(r.display.duplicate()),
        ToolOutcome::Failed(r) => ToolExecution::Failed(r.display.duplicate()),
        ToolOutcome::Skipped(r) => ToolExecution::Skipped(r.display.duplicate()),
    }
}

/// The first user text, at most 80 characters of it, or `empty session`.
fn brief(items: &Vec<ConversationItem>) -> (s: String)
    ensures
        s@ == brief_of(items@),
{
    let mut i: usize = 0;
    assert(items@.skip(0) =~= items@);
    while i < items.len()
        invariant
            i <= items@.len(),
            brief_of(items@) == brief_of(items@.skip(i as int)),
        decreases items.len() - i,
    {
        assert(items@.skip(i as int)[0] == items@[i as int]);
        assert(items@.skip(i as int).drop_first() =~= items@.skip(i + 1));
        match &items[i] {
            ConversationItem::UserText(t) => {
                let v = chars_of(t.as_str());
                let mut s = String::new();
                let n: usize = if v.len() > 80 { 80 } else { v.len() };
                let mut j: usize = 0;
                while j < n
                    invariant
                        j <= n <= v@.len(),
                        s@ == v@.take(j as int),
                    decreases n - j,
                {
                    push_char(&mut s, v[j]);
                    assert(v@.take(j + 1) == v@.take(j as int).push(v@[j as int]));
                    j += 1;
                }
                if v.len() <= 80 {
                    assert(v@.take(v.len() as int) == v@);
                }
                return s;
            },
            _ => {},
        }
        i += 1;
    }
    let s = "empty session".to_owned();
    proof {
        reveal_strlit("empty session");
        assert(items@.skip(i as int).len() == 0);
        assert(s@ =~= brief_of(items@.skip(i as int)));
    }
    s
}

} // verus!
