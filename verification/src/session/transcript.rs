//! Minuet-owned semantic history for replay and presentation.

use vstd::prelude::*;

verus! {

/// Plain text captured at the tool boundary for presentation: what was
/// called and what it showed. Never used for execution or model input.
#[derive(Debug, PartialEq, Eq)]
pub struct ToolDisplay {
    pub call: String,
    pub output: String,
}

impl ToolDisplay {
    pub fn duplicate(&self) -> (r: Self)
        ensures
            r == *self,
    {
        ToolDisplay { call: self.call.clone(), output: self.output.clone() }
    }
}

/// One entry of a session's presentation history.
#[derive(Debug, PartialEq, Eq)]
pub enum TranscriptEntry {
    UserMessage { text: String },
    ModelMessage { text: String },
    ToolInvocation {
        name: String,
        /// The model's original request, for inspection, never re-execution.
        arguments: String,
        execution: ToolExecution,
    },
}

/// The committed state of one tool call.
#[derive(Debug, PartialEq, Eq)]
pub enum ToolExecution {
    /// The call is committed but no result for it is.
    Pending,
    Completed(ToolDisplay),
    Failed(ToolDisplay),
    Skipped(ToolDisplay),
}

} // verus!
