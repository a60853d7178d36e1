//! Decoding UTF-8 bytes into text.

use vstd::prelude::*;
use vstd::utf8::{decode_utf8, valid_utf8};

verus! {

/// `std::str::from_utf8`, owned: the text the bytes encode, or `None` when
/// they are not valid UTF-8.
#[verifier::external_body]
pub(crate) fn decode(bytes: &[u8]) -> (r: Option<String>)
    ensures
        r is Some <==> valid_utf8(bytes@),
        r matches Some(s) ==> s@ == decode_utf8(bytes@),
{
    std::str::from_utf8(bytes).ok().map(str::to_owned)
}

} // verus!
