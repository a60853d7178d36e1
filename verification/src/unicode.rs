//! Grapheme segmentation and display width, from the `unicode-segmentation`
//! and `unicode-width` crates.

use unicode_segmentation::UnicodeSegmentation;
use unicode_width::UnicodeWidthStr;
use vstd::prelude::*;

verus! {

/// The extended grapheme clusters of a text, in order.
pub uninterp spec fn graphemes_of(s: Seq<char>) -> Seq<Seq<char>>;

/// The display width of a text in terminal columns.
pub uninterp spec fn display_width(s: Seq<char>) -> nat;

/// Concatenation of a sequence of texts.
pub open spec fn concat(parts: Seq<Seq<char>>) -> Seq<char>
    decreases parts.len(),
{
    if parts.len() == 0 {
        seq![]
    } else {
        concat(parts.drop_last()) + parts.last()
    }
}

/// Appending a text to the parts appends it to their concatenation.
pub proof fn lemma_concat_push(parts: Seq<Seq<char>>, x: Seq<char>)
    ensures
        concat(parts.push(x)) == concat(parts) + x,
{
    assert(parts.push(x).drop_last() =~= parts);
}

/// `UnicodeSegmentation::graphemes(s, true)`, collected. Each cluster is a
/// nonempty slice of `s`, and the clusters follow one another from its start
/// to its end, so together they are exactly `s`.
#[verifier::external_body]
pub(crate) fn graphemes(s: &str) -> (v: Vec<String>)
    ensures
        v@.map_values(|g: String| g@) == graphemes_of(s@),
        concat(v@.map_values(|g: String| g@)) == s@,
        forall|i: int| 0 <= i < v@.len() ==> #[trigger] v@[i]@.len() > 0,
{
    s.graphemes(true).map(str::to_owned).collect()
}

/// `UnicodeWidthStr::width(s)`. The empty text is zero columns wide and one
/// printable ASCII character is one column wide.
#[verifier::external_body]
pub(crate) fn width(s: &str) -> (w: usize)
    ensures
        w as nat == display_width(s@),
        s@.len() == 0 ==> w == 0,
        (s@.len() == 1 && 0x20 <= s@[0] as u32 <= 0x7E) ==> w == 1,
{
    s.width()
}

} // verus!
