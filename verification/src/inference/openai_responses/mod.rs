//! The OpenAI Responses protocol: stream framing, event assembly and the
//! projection of response items.

mod backend;
mod error;
pub mod sse;
pub mod stream;
pub mod wire;

pub use backend::{BODY_LIMIT, Endpoints, endpoints, lossy_body, lossy_of, url_parse_of, without_trailing_slashes};
pub use error::{OpenAiResponsesBackendError, backend_error_text, index_text};
