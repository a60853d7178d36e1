//! Which part of the committed conversation the model sees.

use vstd::prelude::*;

use crate::inference::{ConversationItem, copy_items};

verus! {

/// Selects the model-visible view of a session's committed history. A
/// strategy returns an owned snapshot; it never changes or becomes a second
/// owner of the committed conversation.
pub trait ContextStrategy {
    fn prepare(&self, committed: &[ConversationItem]) -> Vec<ConversationItem>;
}

/// The whole committed conversation, in order.
#[derive(Debug, Default)]
pub struct FullContext;

impl ContextStrategy for FullContext {
    fn prepare(&self, committed: &[ConversationItem]) -> (r: Vec<ConversationItem>)
        ensures
            r@ == committed@,
    {
        copy_items(committed)
    }
}

} // verus!
