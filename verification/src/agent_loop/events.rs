//! Ordered observations of one run, and the bounded fragments in which tool
//! output is delivered to an observer.

use std::sync::Arc;

use vstd::prelude::*;

use super::ToolActivity;
use crate::session::TranscriptEntry;
use crate::text::{chars_of, push_char};
use crate::unicode::concat;

verus! {

/// Ordered observations of one run. A finished tool execution describes
/// execution, not commit or run success: the run's result stays
/// authoritative. Call ids correlate output with the current call only.
#[derive(Debug)]
pub enum RunEvent {
    InferenceStarted,
    ModelTextDelta { text: String },
    ModelTurnCommitted { entries: Vec<Arc<TranscriptEntry>> },
    ToolStarted { call_id: String, name: String },
    ToolOutput { call_id: String, text: String },
    ToolExecutionFinished { call_id: String, activity: ToolActivity, elapsed_ms: u64 },
    ToolRoundCommitted { entries: Vec<Arc<TranscriptEntry>> },
}

/// The largest fragment of tool output queued as one event, in UTF-8 bytes.
pub const MAX_FRAGMENT_BYTES: usize = 4096;

/// The number of bytes UTF-8 uses for `c`.
pub open spec fn utf8_len(c: char) -> nat {
    let u = c as u32;
    if u < 0x80 {
        1
    } else if u < 0x800 {
        2
    } else if u < 0x10000 {
        3
    } else {
        4
    }
}

/// The number of bytes UTF-8 uses for `s`.
pub open spec fn utf8_len_seq(s: Seq<char>) -> nat
    decreases s.len(),
{
    if s.len() == 0 {
        0
    } else {
        utf8_len_seq(s.drop_last()) + utf8_len(s.last())
    }
}

fn char_utf8_len(c: char) -> (n: usize)
    ensures
        n == utf8_len(c),
        1 <= n <= 4,
{
    let u = c as u32;
    if u < 0x80 {
        1
    } else if u < 0x800 {
        2
    } else if u < 0x10000 {
        3
    } else {
        4
    }
}

/// The texts of a sequence of strings.
pub open spec fn texts(parts: Seq<String>) -> Seq<Seq<char>> {
    parts.map_values(|p: String| p@)
}

/// Where the first fragment of `parts` ends: a fragment is cut only where
/// the next character would not fit.
pub open spec fn fragment_end(parts: Seq<Seq<char>>, j: int) -> bool {
    utf8_len_seq(parts[j]) + utf8_len(parts[j + 1][0]) > MAX_FRAGMENT_BYTES
}

/// Splits tool output into the fragments sent to an observer: together they
/// are the text, each is non-empty and at most `MAX_FRAGMENT_BYTES` long in
/// UTF-8, no character is split, and each fragment is as long as the limit
/// allows. No line ending is inserted.
pub fn output_fragments(text: &str) -> (parts: Vec<String>)
    ensures
        concat(texts(parts@)) == text@,
        forall|j: int|
            0 <= j < parts@.len() ==> #[trigger] parts@[j]@.len() > 0 && utf8_len_seq(parts@[j]@)
                <= MAX_FRAGMENT_BYTES,
        forall|j: int|
            0 <= j < parts@.len() - 1 ==> #[trigger] fragment_end(
                texts(parts@),
                j,
            ),
{
    let cs = chars_of(text);
    let mut parts: Vec<String> = Vec::new();
    let mut cur = String::new();
    let mut cur_bytes: usize = 0;
    let mut i: usize = 0;
    while i < cs.len()
        invariant
            i <= cs@.len(),
            cs@ == text@,
            concat(texts(parts@)) + cur@ == cs@.take(i as int),
            cur_bytes == utf8_len_seq(cur@),
            cur_bytes <= MAX_FRAGMENT_BYTES,
            i > 0 ==> cur@.len() > 0,
            i == 0 ==> parts@.len() == 0,
            forall|j: int|
                0 <= j < parts@.len() ==> #[trigger] parts@[j]@.len() > 0 && utf8_len_seq(parts@[j]@)
                    <= MAX_FRAGMENT_BYTES,
            forall|j: int|
                0 <= j < parts@.len() - 1 ==> #[trigger] fragment_end(
                    texts(parts@),
                    j,
                ),
            parts@.len() > 0 ==> utf8_len_seq(parts@[parts@.len() - 1]@) + utf8_len(cur@[0])
                > MAX_FRAGMENT_BYTES,
        decreases cs.len() - i,
    {
        let c = cs[i];
        let n = char_utf8_len(c);
        let ghost before = texts(parts@);
        if cur_bytes > 0 && cur_bytes + n > MAX_FRAGMENT_BYTES {
            let ghost done = cur@;
            parts.push(cur);
            cur = String::new();
            push_char(&mut cur, c);
            cur_bytes = n;
            proof {
                let after = texts(parts@);
                assert(after =~= before.push(done));
                crate::unicode::lemma_concat_push(before, done);
                assert(cur@ =~= seq![c]);
                assert(utf8_len_seq(cur@) == utf8_len(c)) by {
                    assert(cur@.drop_last() =~= Seq::<char>::empty());
                    assert(utf8_len_seq(cur@.drop_last()) == 0);
                    assert(cur@.last() == c);
                }
                assert forall|j: int| 0 <= j < after.len() - 1 implies #[trigger] fragment_end(after, j) by {
                    if j < before.len() - 1 {
                        assert(after[j] == before[j] && after[j + 1] == before[j + 1]);
                        assert(fragment_end(before, j));
                    } else {
                        assert(after[j] == parts@[j]@);
                        assert(after[j + 1] == done);
                    }
                }
                assert(cs@.take(i + 1) =~= cs@.take(i as int).push(c));
            }
        } else {
            let ghost prev = cur@;
            push_char(&mut cur, c);
            cur_bytes = cur_bytes + n;
            proof {
                assert(cur@.drop_last() =~= prev);
                assert(cs@.take(i + 1) =~= cs@.take(i as int).push(c));
                assert(concat(before) + cur@ =~= (concat(before) + prev).push(c));
                if prev.len() > 0 {
                    assert(cur@[0] == prev[0]);
                }
            }
        }
        i += 1;
    }
    if cur_bytes > 0 || i > 0 {
        let ghost before = texts(parts@);
        let ghost done = cur@;
        parts.push(cur);
        proof {
            let after = texts(parts@);
            assert(after =~= before.push(done));
            crate::unicode::lemma_concat_push(before, done);
            assert forall|j: int| 0 <= j < after.len() - 1 implies #[trigger] fragment_end(after, j) by {
                if j < before.len() - 1 {
                    assert(after[j] == before[j] && after[j + 1] == before[j + 1]);
                    assert(fragment_end(before, j));
                } else {
                    assert(after[j] == parts@[j]@);
                    assert(after[j + 1] == done);
                }
            }
        }
    } else {
        assert(cur@.len() == 0);
    }
    assert(cs@.take(cs@.len() as int) =~= cs@);
    assert(concat(texts(parts@)) =~= text@);
    parts
}

} // verus!
