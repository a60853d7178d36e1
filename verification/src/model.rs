//! Provider, model and reasoning-effort identifiers.

use vstd::prelude::*;

use crate::text::{is_blank, str_is_blank};

verus! {

/// Why an identifier was refused.
#[derive(Debug, Clone, Copy, PartialEq, Eq)]
pub enum IdentifierError {
    /// The named identifier was empty or whitespace only.
    Empty(&'static str),
}

/// A provider identifier: never blank.
#[derive(Debug, Clone, PartialEq, Eq, Hash)]
pub struct ProviderId(String);

impl View for ProviderId {
    type V = Seq<char>;

    closed spec fn view(&self) -> Seq<char> {
        self.0@
    }
}

impl ProviderId {
    /// Accepts any text that is not blank, unchanged.
    pub fn new(value: &str) -> (r: Result<Self, IdentifierError>)
        ensures
            is_blank(value@) <==> r is Err,
            r matches Ok(id) ==> id@ == value@,
            r matches Err(e) ==> e == IdentifierError::Empty("provider"),
    {
        if str_is_blank(value) {
            return Err(IdentifierError::Empty("provider"));
        }
        Ok(ProviderId(value.to_owned()))
    }

    pub fn as_str(&self) -> (s: &str)
        ensures
            s@ == self@,
    {
        self.0.as_str()
    }
}

/// A model name: never blank.
#[derive(Debug, Clone, PartialEq, Eq)]
pub struct ModelName(String);

impl View for ModelName {
    type V = Seq<char>;

    closed spec fn view(&self) -> Seq<char> {
        self.0@
    }
}

impl ModelName {
    /// Accepts any text that is not blank, unchanged.
    pub fn new(value: &str) -> (r: Result<Self, IdentifierError>)
        ensures
            is_blank(value@) <==> r is Err,
            r matches Ok(name) ==> name@ == value@,
            r matches Err(e) ==> e == IdentifierError::Empty("model"),
    {
        if str_is_blank(value) {
            return Err(IdentifierError::Empty("model"));
        }
        Ok(ModelName(value.to_owned()))
    }

    pub fn as_str(&self) -> (s: &str)
        ensures
            s@ == self@,
    {
        self.0.as_str()
    }
}

/// The provider and model a kernel talks to.
#[derive(Debug, Clone, PartialEq, Eq)]
pub struct ModelSelection {
    pub provider: ProviderId,
    pub model: ModelName,
}

/// An opaque, provider-specific reasoning effort: never blank, never interpreted.
#[derive(Debug, Clone, PartialEq, Eq)]
pub struct ReasoningEffort(String);

impl View for ReasoningEffort {
    type V = Seq<char>;

    closed spec fn view(&self) -> Seq<char> {
        self.0@
    }
}

impl ReasoningEffort {
    /// Accepts any text that is not blank, unchanged.
    pub fn new(value: &str) -> (r: Result<Self, IdentifierError>)
        ensures
            is_blank(value@) <==> r is Err,
            r matches Ok(effort) ==> effort@ == value@,
            r matches Err(e) ==> e == IdentifierError::Empty("reasoning effort"),
    {
        if str_is_blank(value) {
            return Err(IdentifierError::Empty("reasoning effort"));
        }
        Ok(ReasoningEffort(value.to_owned()))
    }

    pub fn as_str(&self) -> (s: &str)
        ensures
            s@ == self@,
    {
        self.0.as_str()
    }

    /// A copy with the same text.
    pub fn duplicate(&self) -> (r: Self)
        ensures
            r == *self,
    {
        ReasoningEffort(self.0.clone())
    }
}

impl IdentifierError {
    /// The diagnostic text of this error.
    pub fn message(&self) -> (s: String)
        ensures
            self matches IdentifierError::Empty(what) ==> s@ == what@ + " must not be empty"@,
    {
        match self {
            IdentifierError::Empty(what) => {
                let mut s = (*what).to_owned();
                crate::text::push_str(&mut s, " must not be empty");
                s
            },
        }
    }
}

} // verus!
