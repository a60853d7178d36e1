//! Pacing of provisional model text: received text is revealed a few
//! graphemes per frame, and the last received grapheme stays hidden until
//! more text or a final commit arrives.

use vstd::prelude::*;

use crate::text::{chars_of, push_char};
use crate::unicode::{concat, graphemes, graphemes_of};

verus! {

/// The minimum time between two advances, in milliseconds.
pub const FRAME_MS: u64 = 40;

/// How many graphemes of `pending` one frame reveals: four plus one for every
/// eight pending graphemes (counting at most 512), at most 64, and never the
/// last pending grapheme.
pub open spec fn reveal_count(pending: Seq<char>) -> nat {
    let all = graphemes_of(pending).len();
    let count = if all > 512 { 512 } else { all };
    let budget = if 4 + count / 8 > 64 { 64 } else { 4 + count / 8 };
    let last = if count == 0 { 0 } else { (count - 1) as nat };
    if budget < last { budget } else { last }
}

/// How many characters one frame reveals: the first `reveal_count` graphemes.
pub open spec fn reveal_chars(pending: Seq<char>) -> nat {
    concat(graphemes_of(pending).take(reveal_count(pending) as int)).len()
}

/// Provisional text and the length of its revealed prefix, in characters.
pub struct Preview {
    text: Vec<char>,
    visible: usize,
    advanced: Option<u64>,
}

impl Preview {
    /// The revealed prefix never exceeds what was received.
    pub closed spec fn wf(self) -> bool {
        self.visible <= self.text@.len()
    }

    /// Everything received.
    pub closed spec fn text(self) -> Seq<char> {
        self.text@
    }

    /// The number of characters revealed.
    pub closed spec fn shown(self) -> nat {
        self.visible as nat
    }

    /// When the last frame advanced, or when text first arrived.
    pub closed spec fn advanced_at(self) -> Option<u64> {
        self.advanced
    }

    /// An empty preview with nothing received.
    pub fn new() -> (p: Self)
        ensures
            p.text() == Seq::<char>::empty(),
            p.shown() == 0,
            p.advanced_at() is None,
            p.wf(),
    {
        Preview { text: Vec::new(), visible: 0, advanced: None }
    }

    /// Receives text at time `now` (milliseconds). The first text starts the
    /// frame clock; later text does not restart it.
    pub fn push(&mut self, text: &str, now: u64)
        ensures
            old(self).wf() ==> final(self).wf(),
            final(self).text() == old(self).text() + text@,
            final(self).shown() == old(self).shown(),
            final(self).advanced_at() == (match old(self).advanced_at() {
                Some(t) => Some(t),
                None => Some(now),
            }),
    {
        if self.advanced.is_none() {
            self.advanced = Some(now);
        }
        let v = chars_of(text);
        let mut i: usize = 0;
        let ghost start = self.text@;
        while i < v.len()
            invariant
                i <= v.len(),
                v@ == text@,
                self.text@ == start + v@.take(i as int),
                self.visible == old(self).visible,
                self.advanced == (match old(self).advanced {
                    Some(t) => Some(t),
                    None => Some(now),
                }),
            decreases v.len() - i,
        {
            self.text.push(v[i]);
            assert(v@.take(i + 1) == v@.take(i as int).push(v@[i as int]));
            i += 1;
        }
        assert(v@.take(v.len() as int) == v@);
    }

    /// The revealed prefix.
    pub fn visible(&self) -> (s: String)
        requires
            self.wf(),
        ensures
            s@ == self.text().take(self.shown() as int),
    {
        let mut s = String::new();
        let mut i: usize = 0;
        while i < self.visible
            invariant
                i <= self.visible <= self.text@.len(),
                s@ == self.text@.take(i as int),
            decreases self.visible - i,
        {
            push_char(&mut s, self.text[i]);
            assert(self.text@.take(i + 1) == self.text@.take(i as int).push(self.text@[i as int]));
            i += 1;
        }
        s
    }

    /// Reveals the next graphemes if at least one frame has passed since the
    /// last advance. Returns whether anything new became visible.
    pub fn advance(&mut self, now: u64) -> (changed: bool)
        requires
            old(self).wf(),
        ensures
            final(self).wf(),
            final(self).text() == old(self).text(),
            ({
                let pending = old(self).text().subrange(old(self).shown() as int, old(self).text().len() as int);
                match old(self).advanced_at() {
                    None => !changed && *final(self) == *old(self),
                    Some(t) => if now < t || now - t < FRAME_MS {
                        !changed && *final(self) == *old(self)
                    } else {
                        &&& final(self).shown() == old(self).shown() + reveal_chars(pending)
                        &&& final(self).advanced_at() == Some(now)
                        &&& changed == (reveal_chars(pending) > 0)
                        &&& pending.take(reveal_chars(pending) as int) == concat(
                            graphemes_of(pending).take(reveal_count(pending) as int),
                        )
                        &&& reveal_count(pending) <= 64
                        &&& pending.len() > 0 ==> reveal_chars(pending) < pending.len()
                    },
                }
            }),
    {
        let previous = match self.advanced {
            None => return false,
            Some(t) => t,
        };
        if now < previous || now - previous < FRAME_MS {
            return false;
        }
        let mut pending = String::new();
        let mut i: usize = self.visible;
        while i < self.text.len()
            invariant
                self.visible <= i <= self.text@.len(),
                pending@ == self.text@.subrange(self.visible as int, i as int),
            decreases self.text.len() - i,
        {
            push_char(&mut pending, self.text[i]);
            assert(self.text@.subrange(self.visible as int, i + 1) == self.text@.subrange(
                self.visible as int,
                i as int,
            ).push(self.text@[i as int]));
            i += 1;
        }
        let gs = graphemes(pending.as_str());
        let ghost gv = gs@.map_values(|g: String| g@);
        let count: usize = if gs.len() > 512 { 512 } else { gs.len() };
        let budget: usize = if 4 + count / 8 > 64 { 64 } else { 4 + count / 8 };
        let last: usize = if count == 0 { 0 } else { count - 1 };
        let k: usize = if budget < last { budget } else { last };
        assert(k == reveal_count(pending@));
        let total = self.text.len();
        let mut end: usize = 0;
        let mut j: usize = 0;
        while j < k
            invariant
                j <= k <= gs.len(),
                gv == gs@.map_values(|g: String| g@),
                end == concat(gv.take(j as int)).len(),
                end <= pending@.len(),
                concat(gv) == pending@,
                pending@.len() + self.visible <= self.text@.len(),
                total == self.text@.len(),
            decreases k - j,
        {
            proof {
                lemma_concat_prefix_len(gv, (j + 1) as int);
                assert(gv.take(j + 1).drop_last() == gv.take(j as int));
            }
            let glen = chars_of(gs[j].as_str()).len();
            assert(gv[j as int] == gs@[j as int]@);
            assert(concat(gv.take(j + 1)).len() == end + glen);
            assert(end + glen <= pending@.len());

            end = end + glen;
            j += 1;
        }
        proof {
            lemma_concat_take_is_prefix(gv, k as int);
            if pending@.len() > 0 {
                if gv.len() == 0 {
                    assert(gv =~= Seq::<Seq<char>>::empty());
                }
                lemma_concat_prefix_len(gv, k + 1);
                assert(gv[k as int] == gs@[k as int]@);
            }
        }
        self.visible = self.visible + end;
        self.advanced = Some(now);
        end > 0
    }

    /// Forgets everything, including the frame clock.
    pub fn clear(&mut self)
        ensures
            final(self).wf(),
            final(self).text() == Seq::<char>::empty(),
            final(self).shown() == 0,
            final(self).advanced_at() is None,
    {
        *self = Preview::new();
    }

    /// Takes everything received, revealed or not, leaving an empty preview.
    pub fn take(&mut self) -> (s: String)
        ensures
            final(self).wf(),
            s@ == old(self).text(),
            final(self).text() == Seq::<char>::empty(),
            final(self).shown() == 0,
            final(self).advanced_at() is None,
    {
        let mut s = String::new();
        let mut i: usize = 0;
        while i < self.text.len()
            invariant
                i <= self.text@.len(),
                s@ == self.text@.take(i as int),
            decreases self.text.len() - i,
        {
            push_char(&mut s, self.text[i]);
            assert(self.text@.take(i + 1) == self.text@.take(i as int).push(self.text@[i as int]));
            i += 1;
        }
        assert(self.text@.take(self.text@.len() as int) == self.text@);
        *self = Preview::new();
        s
    }
}

/// A prefix of the parts is no longer than all of them together.
pub proof fn lemma_concat_prefix_len(parts: Seq<Seq<char>>, n: int)
    requires
        0 <= n <= parts.len(),
    ensures
        concat(parts.take(n)).len() <= concat(parts).len(),
        n > 0 ==> concat(parts.take(n)) == concat(parts.take(n - 1)) + parts[n - 1],
    decreases parts.len(),
{
    if n > 0 {
        assert(parts.take(n).drop_last() == parts.take(n - 1));
    }
    if n < parts.len() {
        lemma_concat_prefix_len(parts.drop_last(), n);
        assert(parts.drop_last().take(n) == parts.take(n));
    } else {
        assert(parts.take(n) == parts);
    }
}

/// The parts' first `n`, joined, are a prefix of all of them joined.
pub proof fn lemma_concat_take_is_prefix(parts: Seq<Seq<char>>, n: int)
    requires
        0 <= n <= parts.len(),
    ensures
        concat(parts).take(concat(parts.take(n)).len() as int) == concat(parts.take(n)),
    decreases parts.len(),
{
    if n == parts.len() {
        assert(parts.take(n) == parts);
        assert(concat(parts).take(concat(parts).len() as int) =~= concat(parts));
    } else {
        lemma_concat_take_is_prefix(parts.drop_last(), n);
        assert(parts.drop_last().take(n) == parts.take(n));
        lemma_concat_prefix_len(parts.drop_last(), n);
        let l = concat(parts.take(n)).len() as int;
        assert((concat(parts.drop_last()) + parts.last()).take(l) =~= concat(parts.drop_last()).take(l));
    }
}

} // verus!
