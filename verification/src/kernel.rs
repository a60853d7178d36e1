//! The kernel's transitions: it alone owns the active session, the session
//! repository and the tool registry, and every request is one transition.

use std::sync::Arc;

use vstd::prelude::*;

use crate::agent_loop::{LoopError, loop_error_text};
use crate::inference::InferenceError;
use crate::model::{IdentifierError, ModelSelection, ReasoningEffort};
use crate::session::{
    ConfigModel, MemorySessionRepository, SessionConfig, SessionId, SessionIdError, SessionRepositoryError,
    SessionState, TranscriptEntry, UsageSummary, copy_names, fresh_state, repository_error_text,
    session_of, unique_ids,
};
use crate::text::{push_str, str_equal};
use crate::tool::{
    RegistryProblem, ToolRegistry, ToolRegistryError, ToolStatus, has_name, listed, problem_of,
};

verus! {

/// What a kernel starts with.
pub struct KernelOptions {
    pub model: ModelSelection,
    pub default_reasoning_effort: Option<ReasoningEffort>,
    pub default_enabled_tools: Vec<String>,
}

/// The model a session talks to, for display.
#[derive(Debug, PartialEq, Eq)]
pub struct ModelInfo {
    pub provider: String,
    pub model: String,
    pub reasoning_effort: Option<String>,
}

/// The committed context's size in input tokens, when the backend can tell.
#[derive(Debug, PartialEq, Eq)]
pub enum InputTokenCount {
    Available(u64),
    Unavailable(String),
}

/// A session's context size and usage.
#[derive(Debug)]
pub struct ContextInfo {
    pub session_id: SessionId,
    pub committed_input_tokens: InputTokenCount,
    pub usage: UsageSummary,
}

/// A presentation snapshot taken at activation or clear. Its entries are
/// shared immutable payloads; later commits may make the view stale, and it
/// grants no authority over the session.
#[derive(Debug)]
pub struct SessionView {
    pub id: SessionId,
    pub entries: Vec<Arc<TranscriptEntry>>,
}

/// Why a kernel request failed.
#[derive(Debug)]
pub enum KernelError {
    Stopped,
    TaskJoin(String),
    AgentLoop(LoopError),
    Identifier(IdentifierError),
    Inference(InferenceError),
    ActiveSession,
    SessionId(SessionIdError),
    Session(SessionRepositoryError),
    Tool(ToolRegistryError),
}

/// `names` without any occurrence of `name`, in order.
pub open spec fn without(names: Seq<String>, name: Seq<char>) -> Seq<String>
    decreases names.len(),
{
    if names.len() == 0 {
        seq![]
    } else {
        without(names.drop_last(), name) + if names.last()@ == name {
            seq![]
        } else {
            seq![names.last()]
        }
    }
}

/// Whether the enabled-tool list `after` is `before` with `name` enabled or
/// disabled: every other name stays in order, and `name` is at the end once
/// exactly when it is enabled.
pub open spec fn toggled(before: Seq<String>, name: Seq<char>, enabled: bool, after: Seq<String>) -> bool {
    if enabled {
        after.len() == without(before, name).len() + 1 && after.drop_last() == without(before, name)
            && after.last()@ == name
    } else {
        after == without(before, name)
    }
}

/// The transition owner: the active session, the repository and the registry.
pub struct KernelState {
    store: MemorySessionRepository,
    tools: ToolRegistry,
    model: ModelSelection,
    default_reasoning_effort: Option<ReasoningEffort>,
    default_enabled_tools: Vec<String>,
    active: SessionId,
}

impl KernelState {
    pub closed spec fn sessions(&self) -> Seq<(u128, SessionState)> {
        self.store.records()
    }

    pub closed spec fn active_id(&self) -> SessionId {
        self.active
    }

    pub closed spec fn tool_entries(&self) -> Seq<crate::tool::ToolEntry> {
        self.tools.entries()
    }

    pub closed spec fn defaults(&self) -> ConfigModel {
        ConfigModel {
            reasoning_effort: self.default_reasoning_effort,
            enabled_tools: self.default_enabled_tools@,
        }
    }

    pub closed spec fn model_spec(&self) -> ModelSelection {
        self.model
    }

    /// The repository and registry are well formed, and the active session exists.
    pub closed spec fn wf(&self) -> bool {
        &&& self.store.wf()
        &&& self.tools.wf()
        &&& session_of(self.store.records(), self.active.0) is Some
    }

    fn default_config(&self) -> (c: SessionConfig)
        ensures
            c.model() == self.defaults(),
    {
        let effort = match &self.default_reasoning_effort {
            Some(e) => Some(e.duplicate()),
            None => None,
        };
        SessionConfig { reasoning_effort: effort, enabled_tools: copy_names(&self.default_enabled_tools) }
    }

    /// Starts with a fresh session configured from the defaults, active.
    pub fn start(
        store: MemorySessionRepository,
        tools: ToolRegistry,
        options: KernelOptions,
    ) -> (r: Result<Self, KernelError>)
        requires
            store.wf(),
            tools.wf(),
        ensures
            r is Ok,
            r matches Ok(k) ==> k.wf() && session_of(k.sessions(), k.active_id().0) == Some(
                fresh_state(k.defaults()),
            ) && session_of(store.records(), k.active_id().0) is None && k.tool_entries()
                == tools.entries() && k.model_spec() == options.model,
    {
        let mut state = KernelState {
            store,
            tools,
            model: options.model,
            default_reasoning_effort: options.default_reasoning_effort,
            default_enabled_tools: options.default_enabled_tools,
            active: SessionId(0),
        };
        let config = state.default_config();
        match state.store.create(config) {
            Ok(id) => {
                proof {
                    lemma_created_is_found(store.records(), state.store.records(), id.0, fresh_state(state.defaults()));
                }
                state.active = id;
                Ok(state)
            },
            Err(e) => Err(KernelError::Session(e)),
        }
    }

    pub fn active_session(&self) -> (id: SessionId)
        ensures
            id == self.active_id(),
    {
        self.active
    }

    pub fn store(&self) -> (s: &MemorySessionRepository)
        ensures
            s.records() == self.sessions(),
            self.wf() ==> s.wf(),
    {
        &self.store
    }

    /// The repository, for a run of the agent loop on the active session.
    pub fn store_mut(&mut self) -> (s: &mut MemorySessionRepository)
        ensures
            s.records() == old(self).sessions(),
            old(self).wf() ==> s.wf(),
            old(self).wf() && final(s).wf() && session_of(final(s).records(), old(self).active_id().0) is Some
                ==> final(self).wf(),
            final(self).sessions() == final(s).records(),
            final(self).active_id() == old(self).active_id(),
            final(self).tool_entries() == old(self).tool_entries(),
    {
        &mut self.store
    }

    pub fn tools(&self) -> (t: &ToolRegistry)
        ensures
            t.entries() == self.tool_entries(),
            self.wf() ==> t.wf(),
    {
        &self.tools
    }

    pub fn model(&self) -> (m: &ModelSelection)
        ensures
            *m == self.model_spec(),
    {
        &self.model
    }

    /// Creates a session from the defaults and makes it active.
    pub fn new_session(&mut self) -> (r: Result<SessionView, KernelError>)
        requires
            old(self).wf(),
        ensures
            final(self).wf(),
            r is Ok,
            r matches Ok(v) ==> v.entries@.len() == 0 && v.id == final(self).active_id() && session_of(
                old(self).sessions(),
                v.id.0,
            ) is None && session_of(final(self).sessions(), v.id.0) == Some(fresh_state(old(self).defaults())),
            final(self).tool_entries() == old(self).tool_entries(),
            final(self).defaults() == old(self).defaults(),
    {
        let config = self.default_config();
        let ghost before = self.store.records();
        match self.store.create(config) {
            Ok(id) => {
                proof {
                    lemma_created_is_found(before, self.store.records(), id.0, fresh_state(self.defaults()));
                    lemma_found_stays(before, self.store.records(), self.active.0, id.0);
                }
                self.active = id;
                Ok(SessionView { id, entries: Vec::new() })
            },
            Err(e) => Err(KernelError::Session(e)),
        }
    }

    /// Makes an existing session active, with its presentation history.
    pub fn switch_session(&mut self, id: SessionId) -> (r: Result<SessionView, KernelError>)
        requires
            old(self).wf(),
        ensures
            final(self).wf(),
            final(self).sessions() == old(self).sessions(),
            final(self).tool_entries() == old(self).tool_entries(),
            match session_of(old(self).sessions(), id.0) {
                None => r matches Err(KernelError::Session(e)) && e == SessionRepositoryError::NotFound(id)
                    && final(self).active_id() == old(self).active_id(),
                Some(st) => r matches Ok(v) && v.id == id && v.entries@.map_values(
                    |a: Arc<TranscriptEntry>| *a,
                ) == st.transcript && final(self).active_id() == id,
            },
    {
        match self.store.transcript(id) {
            Ok(entries) => {
                self.active = id;
                Ok(SessionView { id, entries })
            },
            Err(e) => Err(KernelError::Session(e)),
        }
    }

    /// Deletes a session other than the active one.
    pub fn delete_session(&mut self, id: SessionId) -> (r: Result<(), KernelError>)
        requires
            old(self).wf(),
        ensures
            final(self).wf(),
            final(self).active_id() == old(self).active_id(),
            final(self).tool_entries() == old(self).tool_entries(),
            id == old(self).active_id() ==> (r matches Err(KernelError::ActiveSession) && final(self).sessions()
                == old(self).sessions()),
            id != old(self).active_id() ==> match session_of(old(self).sessions(), id.0) {
                None => r matches Err(KernelError::Session(e)) && e == SessionRepositoryError::NotFound(id)
                    && final(self).sessions() == old(self).sessions(),
                Some(_) => r is Ok && final(self).sessions() == old(self).sessions().remove(
                    crate::session::index_of(old(self).sessions(), id.0),
                ),
            },
    {
        if id.0 == self.active.0 {
            return Err(KernelError::ActiveSession);
        }
        let ghost before = self.store.records();
        match self.store.delete(id) {
            Ok(()) => {
                proof {
                    lemma_found_after_remove(before, self.active.0, id.0);
                }
                Ok(())
            },
            Err(e) => Err(KernelError::Session(e)),
        }
    }

    /// Forgets the active session's context, history and usage; its
    /// configuration stays.
    pub fn clear_session(&mut self) -> (r: Result<SessionView, KernelError>)
        requires
            old(self).wf(),
        ensures
            final(self).wf(),
            final(self).active_id() == old(self).active_id(),
            final(self).tool_entries() == old(self).tool_entries(),
            r matches Ok(v) && v.id == old(self).active_id() && v.entries@.len() == 0,
            final(self).sessions() == old(self).sessions().update(
                crate::session::index_of(old(self).sessions(), old(self).active_id().0),
                (
                    old(self).active_id().0,
                    fresh_state(session_of(old(self).sessions(), old(self).active_id().0)->0.config),
                ),
            ),
    {
        let ghost before = self.store.records();
        match self.store.clear(self.active) {
            Ok(()) => {
                proof {
                    old(self).store.lemma_unique_ids();
                    lemma_found_after_update(before, self.active.0, fresh_state(session_of(before, self.active.0)->0.config));
                }
                Ok(SessionView { id: self.active, entries: Vec::new() })
            },
            Err(e) => Err(KernelError::Session(e)),
        }
    }

    /// The provider, model and the active session's reasoning effort.
    pub fn model_info(&self) -> (r: Result<ModelInfo, KernelError>)
        requires
            self.wf(),
        ensures
            r matches Ok(info) && info.provider@ == self.model_spec().provider@ && info.model@
                == self.model_spec().model@ && match session_of(self.sessions(), self.active_id().0)->0.config.reasoning_effort {
                None => info.reasoning_effort is None,
                Some(e) => info.reasoning_effort matches Some(t) && t@ == e@,
            },
    {
        let snapshot = match self.store.snapshot(self.active) {
            Ok(s) => s,
            Err(e) => return Err(KernelError::Session(e)),
        };
        let effort = match &snapshot.config.reasoning_effort {
            Some(e) => Some(e.as_str().to_owned()),
            None => None,
        };
        Ok(ModelInfo {
            provider: self.model.provider.as_str().to_owned(),
            model: self.model.model.as_str().to_owned(),
            reasoning_effort: effort,
        })
    }

    /// Sets the active session's reasoning effort. It is opaque and not
    /// validated beyond being non-blank.
    pub fn set_reasoning_effort(&mut self, effort: Option<ReasoningEffort>) -> (r: Result<(), KernelError>)
        requires
            old(self).wf(),
        ensures
            final(self).wf(),
            r is Ok,
            final(self).active_id() == old(self).active_id(),
            final(self).tool_entries() == old(self).tool_entries(),
            final(self).sessions() == old(self).sessions().update(
                crate::session::index_of(old(self).sessions(), old(self).active_id().0),
                (
                    old(self).active_id().0,
                    ({
                        let st = session_of(old(self).sessions(), old(self).active_id().0)->0;
                        SessionState { config: ConfigModel { reasoning_effort: effort, ..st.config }, ..st }
                    }),
                ),
            ),
    {
        let snapshot = match self.store.snapshot(self.active) {
            Ok(s) => s,
            Err(e) => return Err(KernelError::Session(e)),
        };
        let mut config = snapshot.config;
        config.reasoning_effort = effort;
        let ghost before = self.store.records();
        match self.store.set_config(self.active, config) {
            Ok(()) => {
                proof {
                    old(self).store.lemma_unique_ids();
                    let st = session_of(before, self.active.0)->0;
                    lemma_found_after_update(before, self.active.0, SessionState { config: ConfigModel { reasoning_effort: effort, ..st.config }, ..st });
                }
                Ok(())
            },
            Err(e) => Err(KernelError::Session(e)),
        }
    }

    /// Every registered tool, shown as enabled when the active session
    /// enables it.
    pub fn list_tools(&self) -> (r: Result<Vec<ToolStatus>, KernelError>)
        requires
            self.wf(),
        ensures
            r matches Ok(v) && v@.len() == self.tool_entries().len() && forall|i: int|
                0 <= i < v@.len() ==> #[trigger] v@[i].name@ == self.tool_entries()[i].definition.name@
                    && v@[i].enabled == listed(
                    session_of(self.sessions(), self.active_id().0)->0.config.enabled_tools,
                    self.tool_entries()[i].definition.name@,
                ),
    {
        let snapshot = self.store.snapshot(self.active);
        match snapshot {
            Ok(s) => {
                let v = self.tools.list_for(&s.config.enabled_tools);
                Ok(v)
            },
            Err(e) => Err(KernelError::Session(e)),
        }
    }

    /// Enables or disables a registered tool for the active session. The
    /// enabled list keeps every other name in order and holds this one at
    /// most once, at the end when enabled. An unknown tool is refused.
    pub fn set_tool_enabled(&mut self, name: &str, enabled: bool) -> (r: Result<(), KernelError>)
        requires
            old(self).wf(),
        ensures
            final(self).wf(),
            final(self).active_id() == old(self).active_id(),
            final(self).tool_entries() == old(self).tool_entries(),
            !has_name(old(self).tool_entries(), name@) ==> (r matches Err(KernelError::Tool(e)) && problem_of(e)
                == RegistryProblem::Unknown(name@) && final(self).sessions() == old(self).sessions()),
            has_name(old(self).tool_entries(), name@) ==> r is Ok && ({
                let st = session_of(old(self).sessions(), old(self).active_id().0)->0;
                let after = session_of(final(self).sessions(), old(self).active_id().0)->0;
                &&& toggled(st.config.enabled_tools, name@, enabled, after.config.enabled_tools)
                &&& after == SessionState { config: ConfigModel { enabled_tools: after.config.enabled_tools, ..st.config }, ..st }
                &&& final(self).sessions() == old(self).sessions().update(
                    crate::session::index_of(old(self).sessions(), old(self).active_id().0),
                    (old(self).active_id().0, after),
                )
            }),
    {
        let snapshot = match self.store.snapshot(self.active) {
            Ok(s) => s,
            Err(e) => return Err(KernelError::Session(e)),
        };
        let mut config = snapshot.config;
        let statuses = self.tools.list();
        let mut known = false;
        let mut i: usize = 0;
        while i < statuses.len()
            invariant
                i <= statuses@.len(),
                statuses@.len() == self.tools.entries().len(),
                forall|j: int| #![trigger statuses@[j]] 0 <= j < statuses@.len() ==> statuses@[j].name@ == self.tools.entries()[j].definition.name@,
                known == exists|j: int| 0 <= j < i && #[trigger] statuses@[j].name@ == name@,
            decreases statuses.len() - i,
        {
            if str_equal(statuses[i].name.as_str(), name) {
                known = true;
            }
            i += 1;
        }
        if !known {
            assert(!has_name(self.tools.entries(), name@)) by {
                if has_name(self.tools.entries(), name@) {
                    let j = choose|j: int| 0 <= j < self.tools.entries().len() && #[trigger] self.tools.entries()[j].definition.name@ == name@;
                    assert(statuses@[j].name@ == name@);
                }
            }
            return Err(KernelError::Tool(ToolRegistryError::Unknown(name.to_owned())));
        }
        assert(has_name(self.tools.entries(), name@)) by {
            let j = choose|j: int| 0 <= j < i && #[trigger] statuses@[j].name@ == name@;
            assert(self.tools.entries()[j].definition.name@ == name@);
        }
        let ghost old_names = config.enabled_tools@;
        let names = remove_name(config.enabled_tools, name);
        let mut names = names;
        if enabled {
            names.push(name.to_owned());
        }
        config.enabled_tools = names;
        let ghost before = self.store.records();
        let ghost cfg = config.model();
        match self.store.set_config(self.active, config) {
            Ok(()) => {
                proof {
                    old(self).store.lemma_unique_ids();
                    let st = session_of(before, self.active.0)->0;
                    lemma_found_after_update(before, self.active.0, SessionState { config: cfg, ..st });
                    if enabled {
                        assert(cfg.enabled_tools.drop_last() =~= without(old_names, name@));
                    }
                }
                Ok(())
            },
            Err(e) => Err(KernelError::Session(e)),
        }
    }
}

/// Removes every occurrence of `name`, keeping the rest in order.
fn remove_name(names: Vec<String>, name: &str) -> (r: Vec<String>)
    ensures
        r@ == without(names@, name@),
{
    let mut r: Vec<String> = Vec::new();
    let mut i: usize = 0;
    while i < names.len()
        invariant
            i <= names@.len(),
            r@ == without(names@.take(i as int), name@),
        decreases names.len() - i,
    {
        assert(names@.take(i + 1).drop_last() =~= names@.take(i as int));
        if !str_equal(names[i].as_str(), name) {
            r.push(names[i].clone());
        }
        assert(r@ =~= without(names@.take(i + 1), name@));
        i += 1;
    }
    assert(names@.take(names@.len() as int) =~= names@);
    r
}

/// A session inserted into the sequence is found under its identifier.
proof fn lemma_created_is_found(before: Seq<(u128, SessionState)>, after: Seq<(u128, SessionState)>, id: u128, st: SessionState)
    requires
        exists|k: int| 0 <= k <= before.len() && after == before.insert(k, (id, st)),
        session_of(before, id) is None,
    ensures
        session_of(after, id) == Some(st),
{
    let k = choose|k: int| 0 <= k <= before.len() && after == before.insert(k, (id, st));
    assert(after[k].0 == id);
    let i = crate::session::index_of(after, id);
    if i != k {
        if i < k {
            assert(before[i].0 == id);
        } else {
            assert(before[i - 1].0 == id);
        }
    }
}

/// Inserting another session keeps an existing one findable.
proof fn lemma_found_stays(before: Seq<(u128, SessionState)>, after: Seq<(u128, SessionState)>, id: u128, other: u128)
    requires
        session_of(before, id) is Some,
        exists|k: int, st: SessionState| 0 <= k <= before.len() && after == before.insert(k, (other, st)),
    ensures
        session_of(after, id) is Some,
{
    let (k, st) = choose|k: int, st: SessionState| 0 <= k <= before.len() && after == before.insert(k, (other, st));
    let i = crate::session::index_of(before, id);
    if i < k {
        assert(after[i].0 == id);
    } else {
        assert(after[i + 1].0 == id);
    }
}

/// Removing another session keeps an existing one findable.
proof fn lemma_found_after_remove(before: Seq<(u128, SessionState)>, id: u128, other: u128)
    requires
        session_of(before, id) is Some,
        id != other,
    ensures
        session_of(before, other) is Some ==> session_of(
            before.remove(crate::session::index_of(before, other)),
            id,
        ) is Some,
{
    if session_of(before, other) is Some {
        let j = crate::session::index_of(before, other);
        let i = crate::session::index_of(before, id);
        let after = before.remove(j);
        if i < j {
            assert(after[i].0 == id);
        } else {
            assert(i != j);
            assert(after[i - 1].0 == id);
        }
    }
}

/// Replacing the state of a session keeps every session findable, and the
/// replaced one has its new state.
proof fn lemma_found_after_update(before: Seq<(u128, SessionState)>, id: u128, st: SessionState)
    requires
        session_of(before, id) is Some,
        unique_ids(before),
    ensures
        session_of(before.update(crate::session::index_of(before, id), (id, st)), id) == Some(st),
{
    let i = crate::session::index_of(before, id);
    let after = before.update(i, (id, st));
    assert(after[i].0 == id);
    let k = crate::session::index_of(after, id);
    assert(0 <= k < after.len() && after[k].0 == id);
    if k != i {
        assert(before[k].0 == id);
        if k < i {
            assert(before[k].0 != before[i].0);
        } else {
            assert(before[i].0 != before[k].0);
        }
    }
}

impl KernelError {
    pub fn message(&self) -> (s: String)
        ensures
            self is Stopped ==> s@ == "kernel task has stopped"@,
            self matches KernelError::TaskJoin(m) ==> s@ == "kernel task failed: "@ + m@,
            self matches KernelError::AgentLoop(e) ==> s@ == loop_error_text(*e),
            self matches KernelError::Inference(e) ==> s@ == e@,
            self is ActiveSession ==> s@ == "the active session cannot be deleted"@,
            self matches KernelError::Session(e) ==> s@ == repository_error_text(*e),
    {
        match self {
            KernelError::Stopped => "kernel task has stopped".to_owned(),
            KernelError::TaskJoin(m) => {
                let mut s = "kernel task failed: ".to_owned();
                push_str(&mut s, m.as_str());
                s
            },
            KernelError::AgentLoop(e) => e.message(),
            KernelError::Identifier(e) => e.message(),
            KernelError::Inference(e) => e.message().to_owned(),
            KernelError::ActiveSession => "the active session cannot be deleted".to_owned(),
            KernelError::SessionId(e) => e.message(),
            KernelError::Session(e) => e.message(),
            KernelError::Tool(e) => e.message(),
        }
    }
}

/// Removing a name removes exactly that name.
proof fn lemma_without_lists(names: Seq<String>, name: Seq<char>, x: Seq<char>)
    ensures
        listed(without(names, name), x) == (x != name && listed(names, x)),
    decreases names.len(),
{
    if names.len() > 0 {
        lemma_without_lists(names.drop_last(), name, x);
        let w = without(names.drop_last(), name);
        let l = names.last();
        if listed(names, x) && x != name {
            let k = choose|k: int| 0 <= k < names.len() && #[trigger] names[k]@ == x;
            if k < names.len() - 1 {
                assert(names.drop_last()[k]@ == x);
            }
        }
        if listed(names.drop_last(), x) {
            let k = choose|k: int| 0 <= k < names.drop_last().len() && #[trigger] names.drop_last()[k]@ == x;
            assert(names[k]@ == x);
        }
        if l@ == name {
            assert(without(names, name) == w + Seq::<String>::empty());
            assert(w + Seq::<String>::empty() =~= w);
        } else {
            let v = w + seq![l];
            assert(without(names, name) == v);
            if listed(w, x) {
                let k = choose|k: int| 0 <= k < w.len() && #[trigger] w[k]@ == x;
                assert(v[k]@ == x);
            }
            if listed(v, x) {
                let k = choose|k: int| 0 <= k < v.len() && #[trigger] v[k]@ == x;
                if k < w.len() {
                    assert(w[k]@ == x);
                } else {
                    assert(l@ == x);
                    assert(names[names.len() - 1]@ == x);
                }
            }
            if l@ == x {
                assert(v[w.len() as int]@ == x);
            }
        }
    }
}

/// Enabling or disabling a tool for a session makes that tool's state the
/// requested one and leaves every other tool's state as it was.
pub proof fn lemma_toggle_is_exact(before: Seq<String>, name: Seq<char>, enabled: bool, after: Seq<String>, x: Seq<char>)
    requires
        toggled(before, name, enabled, after),
    ensures
        listed(after, name) == enabled,
        x != name ==> listed(after, x) == listed(before, x),
{
    lemma_without_lists(before, name, name);
    lemma_without_lists(before, name, x);
    if enabled {
        let w = without(before, name);
        assert(after =~= w.push(after.last()));
        assert(after[after.len() - 1]@ == name);
        if listed(w, x) {
            let k = choose|k: int| 0 <= k < w.len() && #[trigger] w[k]@ == x;
            assert(after[k]@ == x);
        }
        if listed(after, x) && x != name {
            let k = choose|k: int| 0 <= k < after.len() && #[trigger] after[k]@ == x;
            assert(k < w.len());
            assert(w[k]@ == x);
        }
    }
}

} // verus!
