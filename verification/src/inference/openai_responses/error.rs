//! Failures of the OpenAI Responses adapter.

use vstd::prelude::*;

use crate::inference::InferenceError;
use crate::text::{decimal_digits, framed, push_decimal, push_str};

verus! {

/// Why an OpenAI Responses request or stream failed. Transport and JSON
/// failures carry the rendered message of the underlying library error, and
/// an HTTP status its rendered code and reason.
#[derive(Debug, Clone, PartialEq, Eq)]
pub enum OpenAiResponsesBackendError {
    EmptyApiKey,
    InvalidUrl(String),
    InvalidHeader(String),
    Http(String),
    Upstream { status: String, message: String },
    InvalidJson { status: String, source: String, body: String },
    Incomplete(String),
    MalformedResponse(&'static str),
    MalformedStream(&'static str),
    StreamTerminal(String),
    OutputIntegrity { index: Option<usize>, detail: &'static str },
    ResourceLimit(&'static str),
    ObserverTimeout,
}

/// How `Debug` shows an optional index.
pub open spec fn index_text(index: Option<usize>) -> Seq<char> {
    match index {
        None => "None"@,
        Some(i) => "Some("@ + decimal_digits(i as nat) + ")"@,
    }
}

/// The text of an adapter error.
pub open spec fn backend_error_text(e: OpenAiResponsesBackendError) -> Seq<char> {
    match e {
        OpenAiResponsesBackendError::EmptyApiKey => "API key must not be empty"@,
        OpenAiResponsesBackendError::InvalidUrl(m) => "invalid provider base URL: "@ + m@,
        OpenAiResponsesBackendError::InvalidHeader(m) => "invalid authorization header: "@ + m@,
        OpenAiResponsesBackendError::Http(m) => "failed to build or execute HTTP request: "@ + m@,
        OpenAiResponsesBackendError::Upstream { status, message } => "upstream returned HTTP "@ + status@ + ": "@
            + message@,
        OpenAiResponsesBackendError::InvalidJson { status, source, body } => "upstream returned invalid JSON with HTTP "@
            + status@ + ": "@ + source@ + "; body: "@ + body@,
        OpenAiResponsesBackendError::Incomplete(m) => "upstream response was not completed: "@ + m@,
        OpenAiResponsesBackendError::MalformedResponse(f) => "malformed upstream response: "@ + f@,
        OpenAiResponsesBackendError::MalformedStream(f) => "malformed streaming response: "@ + f@,
        OpenAiResponsesBackendError::StreamTerminal(m) => "stream ended with an upstream error: "@ + m@,
        OpenAiResponsesBackendError::OutputIntegrity { index, detail } => "Responses output integrity error at index "@
            + index_text(index) + ": "@ + detail@,
        OpenAiResponsesBackendError::ResourceLimit(f) => "Responses stream resource limit exceeded: "@ + f@,
        OpenAiResponsesBackendError::ObserverTimeout => "stream observer did not accept output before the deadline"@,
    }
}

impl OpenAiResponsesBackendError {
    pub fn message(&self) -> (s: String)
        ensures
            s@ == backend_error_text(*self),
    {
        proof {
            reveal_strlit("");
        }
        match self {
            OpenAiResponsesBackendError::EmptyApiKey => "API key must not be empty".to_owned(),
            OpenAiResponsesBackendError::InvalidUrl(m) => framed("invalid provider base URL: ", m.as_str(), ""),
            OpenAiResponsesBackendError::InvalidHeader(m) => framed("invalid authorization header: ", m.as_str(), ""),
            OpenAiResponsesBackendError::Http(m) => framed("failed to build or execute HTTP request: ", m.as_str(), ""),
            OpenAiResponsesBackendError::Upstream { status, message } => {
                let mut s = framed("upstream returned HTTP ", status.as_str(), ": ");
                push_str(&mut s, message.as_str());
                s
            },
            OpenAiResponsesBackendError::InvalidJson { status, source, body } => {
                let mut s = framed("upstream returned invalid JSON with HTTP ", status.as_str(), ": ");
                push_str(&mut s, source.as_str());
                push_str(&mut s, "; body: ");
                push_str(&mut s, body.as_str());
                s
            },
            OpenAiResponsesBackendError::Incomplete(m) => framed("upstream response was not completed: ", m.as_str(), ""),
            OpenAiResponsesBackendError::MalformedResponse(f) => framed("malformed upstream response: ", f, ""),
            OpenAiResponsesBackendError::MalformedStream(f) => framed("malformed streaming response: ", f, ""),
            OpenAiResponsesBackendError::StreamTerminal(m) => framed("stream ended with an upstream error: ", m.as_str(), ""),
            OpenAiResponsesBackendError::OutputIntegrity { index, detail } => {
                let mut s = "Responses output integrity error at index ".to_owned();
                match index {
                    None => push_str(&mut s, "None"),
                    Some(i) => {
                        push_str(&mut s, "Some(");
                        push_decimal(&mut s, *i as u64);
                        push_str(&mut s, ")");
                    },
                }
                push_str(&mut s, ": ");
                push_str(&mut s, detail);
                s
            },
            OpenAiResponsesBackendError::ResourceLimit(f) => framed("Responses stream resource limit exceeded: ", f, ""),
            OpenAiResponsesBackendError::ObserverTimeout => "stream observer did not accept output before the deadline".to_owned(),
        }
    }

    /// The inference failure this error is reported as.
    pub fn into_inference_error(&self) -> (e: InferenceError)
        ensures
            e@ == backend_error_text(*self),
    {
        InferenceError::new(self.message())
    }
}

} // verus!
