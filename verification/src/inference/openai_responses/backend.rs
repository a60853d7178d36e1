//! The adapter's fixed request targets and the diagnostic form of bodies.

use vstd::prelude::*;

use super::OpenAiResponsesBackendError as Error;
use crate::text::{chars_of, push_str, string_from_chars};

verus! {

/// What `url::Url::parse` makes of a text: the URL's serialization, or the
/// parse error's message.
pub uninterp spec fn url_parse_of(s: Seq<char>) -> Result<Seq<char>, Seq<char>>;

/// `url::Url::parse`, as the URL's serialization or the error's message.
#[verifier::external_body]
fn parse_url(s: &str) -> (r: Result<String, String>)
    ensures
        match r {
            Ok(u) => url_parse_of(s@) == Ok::<Seq<char>, Seq<char>>(u@),
            Err(m) => url_parse_of(s@) == Err::<Seq<char>, Seq<char>>(m@),
        },
{
    match url::Url::parse(s) {
        Ok(u) => Ok(u.to_string()),
        Err(e) => Err(e.to_string()),
    }
}

/// A text without its trailing slashes, as `trim_end_matches('/')` leaves it.
pub open spec fn without_trailing_slashes(s: Seq<char>) -> Seq<char>
    decreases s.len(),
{
    if s.len() > 0 && s.last() == '/' {
        without_trailing_slashes(s.drop_last())
    } else {
        s
    }
}

/// Where the adapter sends requests, and the credential header's value.
#[derive(Debug)]
pub struct Endpoints {
    pub responses_url: String,
    pub input_tokens_url: String,
    pub authorization: String,
}

/// The endpoints under a provider's base URL: trailing slashes of the base
/// are dropped before `/responses` and `/responses/input_tokens` are added.
/// An empty credential is refused before anything else.
pub fn endpoints(base_url: &str, api_key: &str) -> (r: Result<Endpoints, Error>)
    ensures
        api_key@.len() == 0 ==> r == Err::<Endpoints, Error>(Error::EmptyApiKey),
        api_key@.len() > 0 ==> {
            let base = without_trailing_slashes(base_url@);
            match (url_parse_of(base + "/responses"@), url_parse_of(base + "/responses/input_tokens"@)) {
                (Err(m), _) => r matches Err(Error::InvalidUrl(x)) && x@ == m,
                (Ok(_), Err(m)) => r matches Err(Error::InvalidUrl(x)) && x@ == m,
                (Ok(a), Ok(b)) => r matches Ok(e) && e.responses_url@ == a && e.input_tokens_url@ == b
                    && e.authorization@ == "Bearer "@ + api_key@,
            }
        },
{
    if chars_of(api_key).len() == 0 {
        return Err(Error::EmptyApiKey);
    }
    let cs = chars_of(base_url);
    let mut n: usize = cs.len();
    assert(cs@.take(cs@.len() as int) =~= cs@);
    while n > 0 && cs[n - 1] == '/'
        invariant
            n <= cs@.len(),
            cs@ == base_url@,
            without_trailing_slashes(cs@) == without_trailing_slashes(cs@.take(n as int)),
        decreases n,
    {
        assert(cs@.take(n as int).drop_last() =~= cs@.take(n - 1));
        n -= 1;
    }
    assert(without_trailing_slashes(cs@.take(n as int)) == cs@.take(n as int));
    let base = string_from_chars(&cs.as_slice()[0..n]);
    proof {
        assert(cs@.subrange(0, n as int) =~= cs@.take(n as int));
    }
    let mut responses = base.clone();
    push_str(&mut responses, "/responses");
    let mut counting = base;
    push_str(&mut counting, "/responses/input_tokens");
    let responses_url = match parse_url(responses.as_str()) {
        Ok(u) => u,
        Err(m) => return Err(Error::InvalidUrl(m)),
    };
    let input_tokens_url = match parse_url(counting.as_str()) {
        Ok(u) => u,
        Err(m) => return Err(Error::InvalidUrl(m)),
    };
    let mut authorization = "Bearer ".to_owned();
    push_str(&mut authorization, api_key);
    Ok(Endpoints { responses_url, input_tokens_url, authorization })
}

/// The most bytes of a body kept for a diagnostic.
pub const BODY_LIMIT: usize = 4096;

/// What `String::from_utf8_lossy` makes of bytes: the text they encode, with
/// each invalid sequence replaced by U+FFFD. Valid UTF-8 is decoded unchanged.
pub uninterp spec fn lossy_of(bytes: Seq<u8>) -> Seq<char>;

/// `String::from_utf8_lossy`, owned.
#[verifier::external_body]
fn lossy(bytes: &[u8]) -> (s: String)
    ensures
        s@ == lossy_of(bytes@),
        vstd::utf8::valid_utf8(bytes@) ==> s@ == vstd::utf8::decode_utf8(bytes@),
{
    String::from_utf8_lossy(bytes).into_owned()
}

/// A body's first bytes, at most `BODY_LIMIT`, decoded lossily.
pub fn lossy_body(bytes: &[u8]) -> (s: String)
    ensures
        s@ == lossy_of(bytes@.take(if bytes@.len() < BODY_LIMIT { bytes@.len() as int } else { BODY_LIMIT as int })),
{
    let end = if bytes.len() < BODY_LIMIT { bytes.len() } else { BODY_LIMIT };
    let head = &bytes[0..end];
    assert(head@ =~= bytes@.take(end as int));
    lossy(head)
}

} // verus!
