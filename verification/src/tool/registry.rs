//! The tool registry: definitions ordered by name, each with its
//! enablement, and the turn-scoped snapshots that route invocations.

use vstd::prelude::*;

use super::{ToolInvocation, error_json, invocation_error};
use crate::text::{is_blank, lemma_text_less_total, lemma_text_less_transitive, push_str, str_equal, str_is_blank, str_less, text_less};

verus! {

/// A tool's registration contract: its name, description and the JSON
/// Schema text of the arguments it accepts. The tool stays the authority
/// for complete validation of its arguments.
#[derive(Debug)]
pub struct ToolDefinition {
    pub name: String,
    pub description: String,
    pub parameters: String,
}

impl ToolDefinition {
    pub fn duplicate(&self) -> (r: Self)
        ensures
            r == *self,
    {
        ToolDefinition {
            name: self.name.clone(),
            description: self.description.clone(),
            parameters: self.parameters.clone(),
        }
    }
}

/// A member of a parameter schema object.
#[derive(Debug)]
pub enum TypeField {
    Absent,
    Text(String),
    /// Present, but not a JSON string.
    Other,
}

/// What a parameter schema text is, as far as registration checks it.
#[derive(Debug)]
pub enum SchemaShape {
    /// Not JSON text of an object.
    NotAnObject,
    Object(TypeField),
}

/// What `serde_json` parses a parameter schema text into, as far as
/// registration checks it: whether it is an object, and what its member
/// `key` holds.
pub uninterp spec fn schema_shape_of(parameters: Seq<char>, key: Seq<char>) -> SchemaShape;

/// The member of a parameter schema that registration checks.
pub open spec fn schema_key() -> Seq<char> {
    "type"@
}

/// Parses a parameter schema with `serde_json::from_str` and reports
/// whether it is an object and what its member `key` holds.
#[verifier::external_body]
fn schema_shape(parameters: &str, key: &str) -> (s: SchemaShape)
    ensures
        s == schema_shape_of(parameters@, key@),
{
    match serde_json::from_str::<serde_json::Value>(parameters) {
        Ok(serde_json::Value::Object(map)) => SchemaShape::Object(
            match map.get(key) {
                None => TypeField::Absent,
                Some(serde_json::Value::String(t)) => TypeField::Text(t.clone()),
                Some(_) => TypeField::Other,
            },
        ),
        _ => SchemaShape::NotAnObject,
    }
}

/// Why a registration, a lookup or a snapshot was refused.
#[derive(Debug, PartialEq, Eq)]
pub enum ToolRegistryError {
    Duplicate(String),
    Unknown(String),
    InvalidDefinition(String),
}

/// A registry error as values.
pub enum RegistryProblem {
    Duplicate(Seq<char>),
    Unknown(Seq<char>),
    InvalidDefinition(Seq<char>),
}

pub open spec fn problem_of(e: ToolRegistryError) -> RegistryProblem {
    match e {
        ToolRegistryError::Duplicate(n) => RegistryProblem::Duplicate(n@),
        ToolRegistryError::Unknown(n) => RegistryProblem::Unknown(n@),
        ToolRegistryError::InvalidDefinition(m) => RegistryProblem::InvalidDefinition(m@),
    }
}

impl ToolRegistryError {
    pub fn message(&self) -> (s: String)
        ensures
            match problem_of(*self) {
                RegistryProblem::Duplicate(n) => s@ == "duplicate tool `"@ + n + "`"@,
                RegistryProblem::Unknown(n) => s@ == "unknown tool `"@ + n + "`"@,
                RegistryProblem::InvalidDefinition(m) => s@ == "invalid tool definition: "@ + m,
            },
    {
        match self {
            ToolRegistryError::Duplicate(n) => {
                let mut s = "duplicate tool `".to_owned();
                push_str(&mut s, n.as_str());
                push_str(&mut s, "`");
                s
            },
            ToolRegistryError::Unknown(n) => {
                let mut s = "unknown tool `".to_owned();
                push_str(&mut s, n.as_str());
                push_str(&mut s, "`");
                s
            },
            ToolRegistryError::InvalidDefinition(m) => {
                let mut s = "invalid tool definition: ".to_owned();
                push_str(&mut s, m.as_str());
                s
            },
        }
    }
}

/// What is wrong with a definition, if anything: a blank name, parameters
/// that are not a JSON object schema, or a schema whose `type` is not
/// `object`. A schema without `type` is accepted.
pub open spec fn definition_problem(name: Seq<char>, shape: SchemaShape) -> Option<Seq<char>> {
    if is_blank(name) {
        Some("tool name must not be empty"@)
    } else {
        match shape {
            SchemaShape::NotAnObject => Some("tool `"@ + name + "` parameters must be a JSON object schema"@),
            SchemaShape::Object(TypeField::Absent) => None,
            SchemaShape::Object(TypeField::Text(t)) => if t@ == "object"@ {
                None
            } else {
                Some("tool `"@ + name + "` parameters schema must describe an object"@)
            },
            SchemaShape::Object(TypeField::Other) => Some(
                "tool `"@ + name + "` parameters schema must describe an object"@,
            ),
        }
    }
}

/// Checks a definition's name and the shape of its parameter schema.
pub fn check_definition(name: &str, shape: &SchemaShape) -> (r: Result<(), ToolRegistryError>)
    ensures
        match definition_problem(name@, *shape) {
            None => r is Ok,
            Some(m) => r matches Err(e) && problem_of(e) == RegistryProblem::InvalidDefinition(m),
        },
{
    if str_is_blank(name) {
        return Err(ToolRegistryError::InvalidDefinition("tool name must not be empty".to_owned()));
    }
    let describe = match shape {
        SchemaShape::NotAnObject => {
            let mut m = "tool `".to_owned();
            push_str(&mut m, name);
            push_str(&mut m, "` parameters must be a JSON object schema");
            return Err(ToolRegistryError::InvalidDefinition(m));
        },
        SchemaShape::Object(TypeField::Absent) => false,
        SchemaShape::Object(TypeField::Text(t)) => !str_equal(t.as_str(), "object"),
        SchemaShape::Object(TypeField::Other) => true,
    };
    if describe {
        let mut m = "tool `".to_owned();
        push_str(&mut m, name);
        push_str(&mut m, "` parameters schema must describe an object");
        return Err(ToolRegistryError::InvalidDefinition(m));
    }
    Ok(())
}

/// Checks a definition: its name, and its parameters as parsed JSON.
pub fn validate_definition(definition: &ToolDefinition) -> (r: Result<(), ToolRegistryError>)
    ensures
        match definition_problem(definition.name@, schema_shape_of(definition.parameters@, schema_key())) {
            None => r is Ok,
            Some(m) => r matches Err(e) && problem_of(e) == RegistryProblem::InvalidDefinition(m),
        },
{
    let shape = schema_shape(definition.parameters.as_str(), "type");
    check_definition(definition.name.as_str(), &shape)
}

/// A registered tool: its definition, whether it is enabled, and its slot,
/// the position of the tool among those registered, which routes calls.
#[derive(Debug)]
pub struct ToolEntry {
    pub definition: ToolDefinition,
    pub enabled: bool,
    pub slot: usize,
}

/// Entries strictly ordered by name, so no name occurs twice.
pub open spec fn names_ordered(s: Seq<ToolEntry>) -> bool {
    forall|i: int, j: int|
        0 <= i < j < s.len() ==> text_less(#[trigger] s[i].definition.name@, #[trigger] s[j].definition.name@)
}

/// Whether some entry routes to slot `k`.
pub open spec fn has_slot(s: Seq<ToolEntry>, k: int) -> bool {
    exists|i: int| 0 <= i < s.len() && #[trigger] s[i].slot == k
}

/// Whether some entry has the name `name`.
pub open spec fn has_name(s: Seq<ToolEntry>, name: Seq<char>) -> bool {
    exists|i: int| 0 <= i < s.len() && #[trigger] s[i].definition.name@ == name
}

/// The definitions of the enabled entries, in order.
pub open spec fn enabled_definitions(s: Seq<ToolEntry>) -> Seq<ToolDefinition>
    decreases s.len(),
{
    if s.len() == 0 {
        seq![]
    } else {
        enabled_definitions(s.drop_last()) + if s.last().enabled {
            seq![s.last().definition]
        } else {
            seq![]
        }
    }
}

/// A tool as listed: name, description and whether it is enabled.
#[derive(Debug, PartialEq, Eq)]
pub struct ToolStatus {
    pub name: String,
    pub description: String,
    pub enabled: bool,
}

/// Whether `name` is among `names`.
pub open spec fn listed(names: Seq<String>, name: Seq<char>) -> bool {
    exists|k: int| 0 <= k < names.len() && #[trigger] names[k]@ == name
}

fn contains_name(names: &[String], name: &str) -> (r: bool)
    ensures
        r == listed(names@, name@),
{
    let mut k: usize = 0;
    while k < names.len()
        invariant
            k <= names@.len(),
            forall|j: int| 0 <= j < k ==> names@[j]@ != name@,
        decreases names.len() - k,
    {
        if str_equal(names[k].as_str(), name) {
            return true;
        }
        k += 1;
    }
    false
}

/// The first problem met while registering the first `n` definitions in
/// order: an invalid definition, or a name registered before.
pub open spec fn first_problem(defs: Seq<ToolDefinition>, n: int) -> Option<RegistryProblem>
    decreases n,
{
    if n <= 0 {
        None
    } else {
        match first_problem(defs, n - 1) {
            Some(p) => Some(p),
            None => {
                let d = defs[n - 1];
                match definition_problem(d.name@, schema_shape_of(d.parameters@, schema_key())) {
                    Some(m) => Some(RegistryProblem::InvalidDefinition(m)),
                    None => if exists|j: int| 0 <= j < n - 1 && #[trigger] defs[j].name@ == d.name@ {
                        Some(RegistryProblem::Duplicate(d.name@))
                    } else {
                        None
                    },
                }
            },
        }
    }
}

/// Once a problem is met, it stays the first problem.
pub proof fn lemma_first_problem_stays(defs: Seq<ToolDefinition>, n: int, m: int)
    requires
        n <= m,
        first_problem(defs, n) is Some,
    ensures
        first_problem(defs, m) == first_problem(defs, n),
    decreases m - n,
{
    if n < m {
        lemma_first_problem_stays(defs, n, m - 1);
    }
}

/// Whether some definition is named `name`.
pub open spec fn defines(defs: Seq<ToolDefinition>, name: Seq<char>) -> bool {
    exists|j: int| 0 <= j < defs.len() && #[trigger] defs[j].name@ == name
}

/// The first of the first `n` names that no definition has.
pub open spec fn first_unknown(defs: Seq<ToolDefinition>, names: Seq<String>, n: int) -> Option<Seq<char>>
    decreases n,
{
    if n <= 0 {
        None
    } else {
        match first_unknown(defs, names, n - 1) {
            Some(u) => Some(u),
            None => if defines(defs, names[n - 1]@) {
                None
            } else {
                Some(names[n - 1]@)
            },
        }
    }
}

/// Once an unknown name is met, it stays the first.
pub proof fn lemma_first_unknown_stays(defs: Seq<ToolDefinition>, names: Seq<String>, n: int, m: int)
    requires
        n <= m,
        first_unknown(defs, names, n) is Some,
    ensures
        first_unknown(defs, names, m) == first_unknown(defs, names, n),
    decreases m - n,
{
    if n < m {
        lemma_first_unknown_stays(defs, names, n, m - 1);
    }
}

/// Once an unregistered name is met, it stays the first.
pub proof fn lemma_first_unlisted_stays(entries: Seq<ToolEntry>, names: Seq<String>, n: int, m: int)
    requires
        n <= m,
        first_unlisted(entries, names, n) is Some,
    ensures
        first_unlisted(entries, names, m) == first_unlisted(entries, names, n),
    decreases m - n,
{
    if n < m {
        lemma_first_unlisted_stays(entries, names, n, m - 1);
    }
}

/// Tools ordered by name, each enabled or not.
pub struct ToolRegistry {
    tools: Vec<ToolEntry>,
}

impl ToolRegistry {
    pub closed spec fn entries(&self) -> Seq<ToolEntry> {
        self.tools@
    }

    pub closed spec fn wf(&self) -> bool {
        names_ordered(self.tools@)
    }

    /// Where the tool named `name` is, if registered.
    fn position(&self, name: &str) -> (r: Option<usize>)
        requires
            self.wf(),
        ensures
            match r {
                Some(i) => i < self.entries().len() && self.entries()[i as int].definition.name@ == name@,
                None => !has_name(self.entries(), name@),
            },
    {
        let mut i: usize = 0;
        while i < self.tools.len()
            invariant
                i <= self.tools@.len(),
                forall|j: int| 0 <= j < i ==> self.tools@[j].definition.name@ != name@,
            decreases self.tools.len() - i,
        {
            if str_equal(self.tools[i].definition.name.as_str(), name) {
                return Some(i);
            }
            i += 1;
        }
        None
    }

    /// Adds an entry at its place in name order, or refuses a name that is
    /// already registered.
    fn insert(&mut self, entry: ToolEntry) -> (r: Result<(), ToolRegistryError>)
        requires
            old(self).wf(),
        ensures
            final(self).wf(),
            has_name(old(self).entries(), entry.definition.name@) ==> (r matches Err(e) && problem_of(e)
                == RegistryProblem::Duplicate(entry.definition.name@) && final(self).entries()
                == old(self).entries()),
            !has_name(old(self).entries(), entry.definition.name@) ==> r is Ok && exists|p: int|
                0 <= p <= old(self).entries().len() && final(self).entries() == old(self).entries().insert(
                    p,
                    entry,
                ),
    {
        let mut p: usize = 0;
        while p < self.tools.len() && str_less(self.tools[p].definition.name.as_str(), entry.definition.name.as_str())
            invariant
                p <= self.tools@.len(),
                names_ordered(self.tools@),
                forall|j: int| 0 <= j < p ==> text_less(#[trigger] self.tools@[j].definition.name@, entry.definition.name@),
            decreases self.tools.len() - p,
        {
            p += 1;
        }
        let ghost name = entry.definition.name@;
        if p < self.tools.len() && str_equal(self.tools[p].definition.name.as_str(), entry.definition.name.as_str()) {
            return Err(ToolRegistryError::Duplicate(entry.definition.name.clone()));
        }
        proof {
            assert forall|j: int| p <= j < self.tools@.len() implies text_less(name, #[trigger] self.tools@[j].definition.name@) by {
                let q = self.tools@[p as int].definition.name@;
                lemma_text_less_total(q, name);
                if j > p {
                    lemma_text_less_transitive(name, q, self.tools@[j].definition.name@);
                }
            }
            assert(!has_name(self.tools@, name)) by {
                if has_name(self.tools@, name) {
                    let k = choose|k: int| 0 <= k < self.tools@.len() && #[trigger] self.tools@[k].definition.name@ == name;
                    lemma_text_less_total(name, name);
                    if k < p {
                        assert(text_less(self.tools@[k].definition.name@, name));
                    } else {
                        assert(text_less(name, self.tools@[k].definition.name@));
                    }
                }
            }
        }
        let ghost before = self.tools@;
        let ghost e = entry;
        self.tools.insert(p, entry);
        proof {
            assert(self.tools@ == before.insert(p as int, e));
            assert forall|a: int, b: int| 0 <= a < b < self.tools@.len() implies text_less(
                #[trigger] self.tools@[a].definition.name@,
                #[trigger] self.tools@[b].definition.name@,
            ) by {
                if b < p {
                    assert(text_less(before[a].definition.name@, before[b].definition.name@));
                } else if b == p {
                    assert(text_less(before[a].definition.name@, name));
                } else if a < p {
                    assert(text_less(before[a].definition.name@, name));
                    assert(text_less(name, before[b - 1].definition.name@));
                    lemma_text_less_transitive(before[a].definition.name@, name, before[b - 1].definition.name@);
                } else if a == p {
                    assert(text_less(name, before[b - 1].definition.name@));
                } else {
                    assert(text_less(before[a - 1].definition.name@, before[b - 1].definition.name@));
                }
            }
        }
        Ok(())
    }
}


/// The first of the first `n` names that no entry has.
pub open spec fn first_unlisted(entries: Seq<ToolEntry>, names: Seq<String>, n: int) -> Option<Seq<char>>
    decreases n,
{
    if n <= 0 {
        None
    } else {
        match first_unlisted(entries, names, n - 1) {
            Some(u) => Some(u),
            None => if has_name(entries, names[n - 1]@) {
                None
            } else {
                Some(names[n - 1]@)
            },
        }
    }
}

/// The entries whose names are among `names`, in order, as a snapshot holds them.
pub open spec fn selected(entries: Seq<ToolEntry>, names: Seq<String>) -> Seq<ToolEntry>
    decreases entries.len(),
{
    if entries.len() == 0 {
        seq![]
    } else {
        selected(entries.drop_last(), names) + if listed(names, entries.last().definition.name@) {
            seq![ToolEntry { enabled: true, ..entries.last() }]
        } else {
            seq![]
        }
    }
}

/// Whether tool `x` comes from the registry's `entries` and its name is
/// among `names`.
pub open spec fn offered_from(entries: Seq<ToolEntry>, names: Seq<String>, x: ToolEntry) -> bool {
    &&& exists|j: int| 0 <= j < entries.len() && #[trigger] entries[j].definition == x.definition && entries[j].slot == x.slot
    &&& exists|k: int| 0 <= k < names.len() && #[trigger] names[k]@ == x.definition.name@
}

/// A turn's snapshot offers only tools the session enabled: each is a
/// registered tool whose name is among `names`, whatever the registry's
/// own enablement says, and each is offered enabled.
pub proof fn lemma_snapshot_only_enabled_names(entries: Seq<ToolEntry>, names: Seq<String>)
    ensures
        forall|i: int|
            0 <= i < selected(entries, names).len() ==> #[trigger] offered_from(entries, names, selected(entries, names)[i])
                && selected(entries, names)[i].enabled,
    decreases entries.len(),
{
    if entries.len() > 0 {
        let init = entries.drop_last();
        let e = entries.last();
        lemma_snapshot_only_enabled_names(init, names);
        let s0 = selected(init, names);
        let s = selected(entries, names);
        assert forall|i: int| 0 <= i < s.len() implies #[trigger] offered_from(entries, names, s[i]) && s[i].enabled by {
            if i < s0.len() {
                assert(s[i] == s0[i]);
                assert(offered_from(init, names, s0[i]));
                let j = choose|j: int| 0 <= j < init.len() && #[trigger] init[j].definition == s0[i].definition
                    && init[j].slot == s0[i].slot;
                assert(entries[j] == init[j]);
            } else {
                assert(s[i] == ToolEntry { enabled: true, ..e });
                assert(entries[entries.len() - 1] == e);
                assert(listed(names, e.definition.name@));
            }
        }
    }
}

/// A turn's snapshot offers every registered tool whose name is among
/// `names`.
pub proof fn lemma_snapshot_all_enabled_names(entries: Seq<ToolEntry>, names: Seq<String>)
    ensures
        forall|j: int, k: int|
            0 <= j < entries.len() && 0 <= k < names.len() && #[trigger] names[k]@ == #[trigger] entries[j].definition.name@
                ==> exists|i: int|
                0 <= i < selected(entries, names).len() && selected(entries, names)[i].definition == entries[j].definition,
    decreases entries.len(),
{
    if entries.len() > 0 {
        let init = entries.drop_last();
        let e = entries.last();
        lemma_snapshot_all_enabled_names(init, names);
        let s0 = selected(init, names);
        let s = selected(entries, names);
        assert forall|j: int, k: int|
            0 <= j < entries.len() && 0 <= k < names.len() && #[trigger] names[k]@ == #[trigger] entries[j].definition.name@
                implies exists|i: int| 0 <= i < s.len() && s[i].definition == entries[j].definition by {
            if j < init.len() {
                assert(entries[j] == init[j]);
                assert(names[k]@ == init[j].definition.name@);
                let i = choose|i: int| 0 <= i < s0.len() && s0[i].definition == init[j].definition;
                assert(s[i] == s0[i]);
            } else {
                assert(entries[j] == e);
                assert(listed(names, e.definition.name@));
                assert(s[s0.len() as int].definition == e.definition);
            }
        }
    }
}

/// The entry `e` with its enablement set as `set_enabled(name, enabled)` sets it.
pub open spec fn with_enabled(e: ToolEntry, name: Seq<char>, enabled: bool) -> ToolEntry {
    if e.definition.name@ == name {
        ToolEntry { enabled, ..e }
    } else {
        e
    }
}

impl ToolRegistry {
    /// Registers the definitions in order, then enables the named tools. A
    /// definition that is invalid or whose name was registered before is
    /// refused, and so is an enabled name that no definition has; the first
    /// problem met is reported.
    pub fn new(definitions: Vec<ToolDefinition>, enabled: &[String]) -> (r: Result<Self, ToolRegistryError>)
        ensures
            match first_problem(definitions@, definitions@.len() as int) {
                Some(p) => r matches Err(e) && problem_of(e) == p,
                None => match first_unknown(definitions@, enabled@, enabled@.len() as int) {
                    Some(u) => r matches Err(e) && problem_of(e) == RegistryProblem::Unknown(u),
                    None => r is Ok,
                },
            },
            r matches Ok(reg) ==> {
                &&& reg.wf()
                &&& reg.entries().len() == definitions@.len()
                &&& forall|i: int|
                    0 <= i < reg.entries().len() ==> {
                        let e = #[trigger] reg.entries()[i];
                        &&& e.slot < definitions@.len()
                        &&& e.definition == definitions@[e.slot as int]
                        &&& e.enabled == listed(enabled@, e.definition.name@)
                    }
                &&& forall|k: int| 0 <= k < definitions@.len() ==> #[trigger] has_slot(reg.entries(), k)
            },
    {
        let mut reg = ToolRegistry { tools: Vec::new() };
        let mut k: usize = 0;
        while k < definitions.len()
            invariant
                k <= definitions@.len(),
                reg.wf(),
                first_problem(definitions@, k as int) is None,
                reg.entries().len() == k,
                forall|i: int|
                    0 <= i < reg.entries().len() ==> {
                        let e = #[trigger] reg.entries()[i];
                        &&& e.slot < k
                        &&& e.definition == definitions@[e.slot as int]
                        &&& !e.enabled
                    },
                forall|j: int| 0 <= j < k ==> #[trigger] has_slot(reg.entries(), j),
                forall|x: Seq<char>| has_name(reg.entries(), x) <==> exists|j: int| 0 <= j < k && #[trigger] definitions@[j].name@ == x,
            decreases definitions.len() - k,
        {
            let d = definitions[k].duplicate();
            match validate_definition(&d) {
                Ok(()) => {},
                Err(e) => {
                    proof {
                        lemma_first_problem_stays(definitions@, k + 1, definitions@.len() as int);
                    }
                    return Err(e);
                },
            }
            let ghost before = reg.entries();
            let ghost name = d.name@;
            let ghost entry = ToolEntry { definition: d, enabled: false, slot: k };
            match reg.insert(ToolEntry { definition: d, enabled: false, slot: k }) {
                Ok(()) => {},
                Err(e) => {
                    assert(exists|j: int| 0 <= j < k && #[trigger] definitions@[j].name@ == name);
                    proof {
                        lemma_first_problem_stays(definitions@, k + 1, definitions@.len() as int);
                    }
                    return Err(e);
                },
            }
            proof {
                assert(!exists|j: int| 0 <= j < k && #[trigger] definitions@[j].name@ == name);
                let p = choose|p: int| 0 <= p <= before.len() && reg.entries() == before.insert(p, entry);
                let after = reg.entries();
                assert forall|i: int| 0 <= i < after.len() implies {
                    let e = #[trigger] after[i];
                    &&& e.slot < k + 1
                    &&& e.definition == definitions@[e.slot as int]
                    &&& !e.enabled
                } by {
                    if i < p {
                        assert(after[i] == before[i]);
                    } else if i > p {
                        assert(after[i] == before[i - 1]);
                    }
                }
                assert forall|j: int| 0 <= j < k + 1 implies #[trigger] has_slot(after, j) by {
                    if j == k {
                        assert(after[p].slot == k);
                    } else {
                        assert(has_slot(before, j));
                        let i = choose|i: int| 0 <= i < before.len() && #[trigger] before[i].slot == j;
                        if i < p {
                            assert(after[i] == before[i]);
                        } else {
                            assert(after[i + 1] == before[i]);
                        }
                    }
                }
                assert forall|x: Seq<char>| has_name(after, x) <==> exists|j: int| 0 <= j < k + 1 && #[trigger] definitions@[j].name@ == x by {
                    assert(after == before.insert(p, entry));
                    if has_name(after, x) {
                        let i = choose|i: int| 0 <= i < after.len() && #[trigger] after[i].definition.name@ == x;
                        let sl = after[i].slot;
                        assert(definitions@[sl as int].name@ == x);
                    }
                    if exists|j: int| 0 <= j < k + 1 && #[trigger] definitions@[j].name@ == x {
                        let j = choose|j: int| 0 <= j < k + 1 && #[trigger] definitions@[j].name@ == x;
                        if j == k {
                            assert(after[p].definition.name@ == x);
                        } else {
                            assert(has_name(before, x));
                            let i = choose|i: int| 0 <= i < before.len() && #[trigger] before[i].definition.name@ == x;
                            if i < p {
                                assert(after[i] == before[i]);
                            } else {
                                assert(after[i + 1] == before[i]);
                            }
                        }
                    }
                }
            }
            k += 1;
        }
        let mut m: usize = 0;
        while m < enabled.len()
            invariant
                m <= enabled@.len(),
                k == definitions@.len(),
                reg.wf(),
                first_problem(definitions@, k as int) is None,
                first_unknown(definitions@, enabled@, m as int) is None,
                reg.entries().len() == k,
                forall|i: int|
                    0 <= i < reg.entries().len() ==> {
                        let e = #[trigger] reg.entries()[i];
                        &&& e.slot < k
                        &&& e.definition == definitions@[e.slot as int]
                        &&& e.enabled == listed(enabled@.take(m as int), e.definition.name@)
                    },
                forall|j: int| 0 <= j < k ==> #[trigger] has_slot(reg.entries(), j),
                forall|x: Seq<char>| has_name(reg.entries(), x) <==> defines(definitions@, x),
            decreases enabled.len() - m,
        {
            let ghost before = reg.entries();
            let ghost name = enabled@[m as int]@;
            match reg.set_enabled(enabled[m].as_str(), true) {
                Ok(()) => {},
                Err(e) => {
                    proof {
                        lemma_first_unknown_stays(definitions@, enabled@, m + 1, enabled@.len() as int);
                    }
                    return Err(e);
                },
            }
            proof {
                let after = reg.entries();
                assert forall|i: int| 0 <= i < after.len() implies {
                    let e = #[trigger] after[i];
                    &&& e.slot < k
                    &&& e.definition == definitions@[e.slot as int]
                    &&& e.enabled == listed(enabled@.take(m + 1), e.definition.name@)
                } by {
                    let e = after[i];
                    assert(enabled@.take(m + 1)[m as int] == enabled@[m as int]);
                    if listed(enabled@.take(m as int), e.definition.name@) {
                        let q = choose|q: int| 0 <= q < m && #[trigger] enabled@.take(m as int)[q]@ == e.definition.name@;
                        assert(enabled@.take(m + 1)[q] == enabled@.take(m as int)[q]);
                    }
                    if listed(enabled@.take(m + 1), e.definition.name@) && e.definition.name@ != name {
                        let q = choose|q: int| 0 <= q < m + 1 && #[trigger] enabled@.take(m + 1)[q]@ == e.definition.name@;
                        assert(enabled@.take(m as int)[q] == enabled@.take(m + 1)[q]);
                    }
                }
                assert forall|j: int| 0 <= j < k implies #[trigger] has_slot(after, j) by {
                    assert(has_slot(before, j));
                    let i = choose|i: int| 0 <= i < before.len() && #[trigger] before[i].slot == j;
                    assert(after[i] == with_enabled(before[i], name, true));
                    assert(after[i].slot == before[i].slot);
                }
                assert forall|x: Seq<char>| has_name(after, x) <==> defines(definitions@, x) by {
                    if has_name(after, x) {
                        let i = choose|i: int| 0 <= i < after.len() && #[trigger] after[i].definition.name@ == x;
                        assert(before[i].definition.name@ == x);
                    }
                    if has_name(before, x) {
                        let i = choose|i: int| 0 <= i < before.len() && #[trigger] before[i].definition.name@ == x;
                        assert(after[i].definition.name@ == x);
                    }
                }
            }
            m += 1;
        }
        assert(enabled@.take(enabled@.len() as int) =~= enabled@);
        Ok(reg)
    }

    /// Enables or disables a registered tool; an unknown name is refused.
    pub fn set_enabled(&mut self, name: &str, enabled: bool) -> (r: Result<(), ToolRegistryError>)
        requires
            old(self).wf(),
        ensures
            final(self).wf(),
            !has_name(old(self).entries(), name@) ==> (r matches Err(e) && problem_of(e)
                == RegistryProblem::Unknown(name@) && final(self).entries() == old(self).entries()),
            has_name(old(self).entries(), name@) ==> r is Ok && final(self).entries().len()
                == old(self).entries().len() && forall|i: int|
                0 <= i < old(self).entries().len() ==> #[trigger] final(self).entries()[i] == with_enabled(
                    old(self).entries()[i],
                    name@,
                    enabled,
                ),
    {
        match self.position(name) {
            None => Err(ToolRegistryError::Unknown(name.to_owned())),
            Some(i) => {
                let ghost before = self.tools@;
                let mut e = self.tools.remove(i);
                e.enabled = enabled;
                self.tools.insert(i, e);
                proof {
                    assert forall|j: int| 0 <= j < before.len() implies #[trigger] self.tools@[j] == with_enabled(
                        before[j],
                        name@,
                        enabled,
                    ) by {
                        if j != i {
                            assert(self.tools@[j] == before[j]);
                            lemma_text_less_total(before[j].definition.name@, before[i as int].definition.name@);
                            if j < i {
                                assert(text_less(before[j].definition.name@, before[i as int].definition.name@));
                            } else {
                                assert(text_less(before[i as int].definition.name@, before[j].definition.name@));
                            }
                        }
                    }
                    assert forall|a: int, b: int| 0 <= a < b < self.tools@.len() implies text_less(
                        #[trigger] self.tools@[a].definition.name@,
                        #[trigger] self.tools@[b].definition.name@,
                    ) by {
                        assert(self.tools@[a].definition == before[a].definition);
                        assert(self.tools@[b].definition == before[b].definition);
                    }
                }
                Ok(())
            },
        }
    }

    /// The definitions of the enabled tools, in name order.
    pub fn definitions(&self) -> (r: Vec<ToolDefinition>)
        ensures
            r@ == enabled_definitions(self.entries()),
    {
        let mut r: Vec<ToolDefinition> = Vec::new();
        let mut i: usize = 0;
        while i < self.tools.len()
            invariant
                i <= self.tools@.len(),
                r@ == enabled_definitions(self.tools@.take(i as int)),
            decreases self.tools.len() - i,
        {
            assert(self.tools@.take(i + 1).drop_last() =~= self.tools@.take(i as int));
            if self.tools[i].enabled {
                r.push(self.tools[i].definition.duplicate());
            }
            assert(r@ =~= enabled_definitions(self.tools@.take(i + 1)));
            i += 1;
        }
        assert(self.tools@.take(self.tools@.len() as int) =~= self.tools@);
        r
    }

    /// Every registered tool with its own enablement, in name order.
    pub fn list(&self) -> (r: Vec<ToolStatus>)
        ensures
            r@.len() == self.entries().len(),
            forall|i: int|
                0 <= i < r@.len() ==> #[trigger] r@[i].name@ == self.entries()[i].definition.name@
                    && r@[i].description@ == self.entries()[i].definition.description@ && r@[i].enabled
                    == self.entries()[i].enabled,
    {
        let mut r: Vec<ToolStatus> = Vec::new();
        let mut i: usize = 0;
        while i < self.tools.len()
            invariant
                i <= self.tools@.len(),
                r@.len() == i,
                forall|j: int|
                    #![trigger r@[j]] 0 <= j < i ==> r@[j].name@ == self.tools@[j].definition.name@
                        && r@[j].description@ == self.tools@[j].definition.description@ && r@[j].enabled
                        == self.tools@[j].enabled,
            decreases self.tools.len() - i,
        {
            let e = &self.tools[i];
            r.push(ToolStatus {
                name: e.definition.name.clone(),
                description: e.definition.description.clone(),
                enabled: e.enabled,
            });
            i += 1;
        }
        r
    }

    /// Every registered tool, shown as enabled when its name is among `enabled`.
    pub fn list_for(&self, enabled: &[String]) -> (r: Vec<ToolStatus>)
        ensures
            r@.len() == self.entries().len(),
            forall|i: int|
                0 <= i < r@.len() ==> #[trigger] r@[i].name@ == self.entries()[i].definition.name@
                    && r@[i].description@ == self.entries()[i].definition.description@ && r@[i].enabled
                    == listed(enabled@, self.entries()[i].definition.name@),
    {
        let mut r: Vec<ToolStatus> = Vec::new();
        let mut i: usize = 0;
        while i < self.tools.len()
            invariant
                i <= self.tools@.len(),
                r@.len() == i,
                forall|j: int|
                    #![trigger r@[j]] 0 <= j < i ==> r@[j].name@ == self.tools@[j].definition.name@
                        && r@[j].description@ == self.tools@[j].definition.description@ && r@[j].enabled
                        == listed(enabled@, self.tools@[j].definition.name@),
            decreases self.tools.len() - i,
        {
            let e = &self.tools[i];
            r.push(ToolStatus {
                name: e.definition.name.clone(),
                description: e.definition.description.clone(),
                enabled: contains_name(enabled, e.definition.name.as_str()),
            });
            i += 1;
        }
        r
    }

    /// A turn's view: the tools named in `enabled`, whether or not the
    /// registry enables them. A name that is not registered is refused.
    pub fn snapshot(&self, enabled: &[String]) -> (r: Result<ToolSnapshot, ToolRegistryError>)
        requires
            self.wf(),
        ensures
            match first_unlisted(self.entries(), enabled@, enabled@.len() as int) {
                Some(u) => r matches Err(e) && problem_of(e) == RegistryProblem::Unknown(u),
                None => r matches Ok(s) && s.entries() == selected(self.entries(), enabled@),
            },
            r matches Ok(s) ==> forall|i: int|
                0 <= i < s.entries().len() ==> #[trigger] offered_from(self.entries(), enabled@, s.entries()[i]),
    {
        proof {
            lemma_snapshot_only_enabled_names(self.entries(), enabled@);
        }
        let mut m: usize = 0;
        while m < enabled.len()
            invariant
                m <= enabled@.len(),
                self.wf(),
                first_unlisted(self.entries(), enabled@, m as int) is None,
            decreases enabled.len() - m,
        {
            if self.position(enabled[m].as_str()).is_none() {
                proof {
                    lemma_first_unlisted_stays(self.entries(), enabled@, m + 1, enabled@.len() as int);
                }
                return Err(ToolRegistryError::Unknown(enabled[m].clone()));
            }
            m += 1;
        }
        let mut tools: Vec<ToolEntry> = Vec::new();
        let mut i: usize = 0;
        while i < self.tools.len()
            invariant
                i <= self.tools@.len(),
                tools@ == selected(self.tools@.take(i as int), enabled@),
            decreases self.tools.len() - i,
        {
            assert(self.tools@.take(i + 1).drop_last() =~= self.tools@.take(i as int));
            let e = &self.tools[i];
            if contains_name(enabled, e.definition.name.as_str()) {
                tools.push(ToolEntry { definition: e.definition.duplicate(), enabled: true, slot: e.slot });
            }
            assert(tools@ =~= selected(self.tools@.take(i + 1), enabled@));
            i += 1;
        }
        assert(self.tools@.take(self.tools@.len() as int) =~= self.tools@);
        Ok(ToolSnapshot { tools })
    }

    /// Routes a call by name: the slot of the tool, or the error committed
    /// for an unknown or disabled tool.
    pub fn route(&self, name: &str) -> (r: Result<usize, ToolInvocation>)
        requires
            self.wf(),
        ensures
            !has_name(self.entries(), name@) ==> (r matches Err(inv) && inv.is_error && inv.output@
                == error_json("unknown_tool"@, "unknown tool `"@ + name@ + "`"@)),
            forall|i: int|
                0 <= i < self.entries().len() && #[trigger] self.entries()[i].definition.name@ == name@
                    ==> if self.entries()[i].enabled {
                    r == Ok::<usize, ToolInvocation>(self.entries()[i].slot)
                } else {
                    r matches Err(inv) && inv.is_error && inv.output@ == error_json(
                        "disabled_tool"@,
                        "tool `"@ + name@ + "` is disabled"@,
                    )
                },
    {
        match self.position(name) {
            None => {
                let mut m = "unknown tool `".to_owned();
                push_str(&mut m, name);
                push_str(&mut m, "`");
                Err(invocation_error("unknown_tool", m.as_str()))
            },
            Some(i) => {
                proof {
                    assert forall|j: int| 0 <= j < self.tools@.len() && #[trigger] self.tools@[j].definition.name@ == name@ implies j == i by {
                        if j != i {
                            lemma_text_less_total(self.tools@[j].definition.name@, name@);
                            if j < i {
                                assert(text_less(self.tools@[j].definition.name@, self.tools@[i as int].definition.name@));
                            } else {
                                assert(text_less(self.tools@[i as int].definition.name@, self.tools@[j].definition.name@));
                            }
                        }
                    }
                }
                if self.tools[i].enabled {
                    Ok(self.tools[i].slot)
                } else {
                    let mut m = "tool `".to_owned();
                    push_str(&mut m, name);
                    push_str(&mut m, "` is disabled");
                    Err(invocation_error("disabled_tool", m.as_str()))
                }
            },
        }
    }
}

/// A turn-scoped view of the registry. Its definitions and its routing use
/// the same selected tools, so a turn cannot expose one set and execute
/// another.
pub struct ToolSnapshot {
    tools: Vec<ToolEntry>,
}

impl ToolSnapshot {
    pub closed spec fn entries(&self) -> Seq<ToolEntry> {
        self.tools@
    }

    /// The definitions of the selected tools, in name order.
    pub fn definitions(&self) -> (r: Vec<ToolDefinition>)
        ensures
            r@.len() == self.entries().len(),
            forall|i: int| 0 <= i < r@.len() ==> #[trigger] r@[i] == self.entries()[i].definition,
    {
        let mut r: Vec<ToolDefinition> = Vec::new();
        let mut i: usize = 0;
        while i < self.tools.len()
            invariant
                i <= self.tools@.len(),
                r@.len() == i,
                forall|j: int| 0 <= j < i ==> #[trigger] r@[j] == self.tools@[j].definition,
            decreases self.tools.len() - i,
        {
            r.push(self.tools[i].definition.duplicate());
            i += 1;
        }
        r
    }

    /// Routes a call by name: the slot of a selected tool, or the error
    /// committed for a tool this turn does not have.
    pub fn route(&self, name: &str) -> (r: Result<usize, ToolInvocation>)
        ensures
            r matches Ok(slot) ==> exists|i: int|
                0 <= i < self.entries().len() && #[trigger] self.entries()[i].definition.name@ == name@
                    && self.entries()[i].slot == slot,
            !has_name(self.entries(), name@) <==> r is Err,
            r matches Err(inv) ==> inv.is_error && inv.output@ == error_json(
                "disabled_tool"@,
                "tool `"@ + name@ + "` is disabled"@,
            ),
    {
        let mut i: usize = 0;
        while i < self.tools.len()
            invariant
                i <= self.tools@.len(),
                forall|j: int| 0 <= j < i ==> self.tools@[j].definition.name@ != name@,
            decreases self.tools.len() - i,
        {
            if str_equal(self.tools[i].definition.name.as_str(), name) {
                assert(self.entries()[i as int].definition.name@ == name@);
                return Ok(self.tools[i].slot);
            }
            i += 1;
        }
        let mut m = "tool `".to_owned();
        push_str(&mut m, name);
        push_str(&mut m, "` is disabled");
        Err(invocation_error("disabled_tool", m.as_str()))
    }
}

} // verus!
