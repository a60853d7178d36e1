//! Terminal-safe text, elapsed-time labels and the wrapping of unfinished output.

use vstd::prelude::*;

use crate::text::{
    chars_of, char_is_control, decimal_digits, decimal_digits_2, escape_default, escape_unicode,
    is_control, push_char, push_decimal, push_decimal_2, push_escape_default,
    push_escape_unicode, push_str,
};
use crate::unicode::{concat, display_width, graphemes, graphemes_of};

verus! {

/// Columns reserved so that model output lines up with the `> ` input prefix.
pub const CONTENT_PREFIX: u16 = 2;

/// How a line of output is presented.
#[derive(Clone, Copy, Debug, PartialEq, Eq)]
pub enum Tone {
    Text,
    Command,
    Meta,
    Error,
    User,
}

/// How `safe_text` shows one character.
pub open spec fn safe_char(c: char) -> Seq<char> {
    if c == '\n' {
        seq![c]
    } else if c == '\t' {
        seq![' ', ' ', ' ', ' ']
    } else if is_control(c) {
        escape_default(c)
    } else {
        seq![c]
    }
}

/// The terminal-safe form of a text: each character shown by `safe_char`.
pub open spec fn safe_seq(s: Seq<char>) -> Seq<char>
    decreases s.len(),
{
    if s.len() == 0 {
        seq![]
    } else {
        safe_seq(s.drop_last()) + safe_char(s.last())
    }
}

/// Shows text literally: newlines stay, tabs become four spaces, and every
/// other control character is written as its escape, so text from tools or
/// models can never move the cursor or change the terminal's state.
pub fn safe_text(text: &str) -> (safe: String)
    ensures
        safe@ == safe_seq(text@),
        terminal_safe(safe@),
        line_feeds(safe@) == line_feeds(text@),
{
    proof {
        lemma_safe_text_is_safe(text@);
    }
    let v = chars_of(text);
    let mut safe = String::new();
    let mut i: usize = 0;
    while i < v.len()
        invariant
            i <= v.len(),
            v@ == text@,
            safe@ == safe_seq(v@.take(i as int)),
        decreases v.len() - i,
    {
        let c = v[i];
        let ghost before = safe@;
        if c == '\n' {
            push_char(&mut safe, c);
        } else if c == '\t' {
            push_str(&mut safe, "    ");
            proof {
                reveal_strlit("    ");
            }
        } else if char_is_control(c) {
            push_escape_default(&mut safe, c);
        } else {
            push_char(&mut safe, c);
        }
        assert(v@.take(i + 1).drop_last() == v@.take(i as int));
        assert(safe@ =~= before + safe_char(c));
        i += 1;
    }
    assert(v@.take(v.len() as int) == v@);
    safe
}

/// Whether a text holds no control character other than line feeds.
pub open spec fn terminal_safe(s: Seq<char>) -> bool {
    forall|i: int| 0 <= i < s.len() ==> !is_control(#[trigger] s[i]) || s[i] == '\n'
}

/// The number of line feeds in a text.
pub open spec fn line_feeds(s: Seq<char>) -> nat
    decreases s.len(),
{
    if s.len() == 0 {
        0
    } else {
        line_feeds(s.drop_last()) + if s.last() == '\n' { 1nat } else { 0nat }
    }
}

proof fn lemma_line_feeds_concat(a: Seq<char>, b: Seq<char>)
    ensures
        line_feeds(a + b) == line_feeds(a) + line_feeds(b),
    decreases b.len(),
{
    if b.len() > 0 {
        lemma_line_feeds_concat(a, b.drop_last());
        assert((a + b).drop_last() =~= a + b.drop_last());
    } else {
        assert(a + b =~= a);
    }
}

/// Text of plain characters: none a control character.
spec fn plain(s: Seq<char>) -> bool {
    forall|i: int| 0 <= i < s.len() ==> !is_control(#[trigger] s[i])
}

proof fn lemma_plain_has_no_line_feeds(s: Seq<char>)
    requires
        plain(s),
    ensures
        line_feeds(s) == 0,
    decreases s.len(),
{
    if s.len() > 0 {
        assert(!is_control(s[s.len() - 1]));
        lemma_plain_has_no_line_feeds(s.drop_last());
    }
}

proof fn lemma_hex_digits_plain(n: nat)
    ensures
        plain(crate::text::hex_digits(n)),
    decreases n,
{
    if n >= 16 {
        lemma_hex_digits_plain(n / 16);
    }
}

/// One character's safe form: no control character but a line feed, and
/// a line feed exactly where the character is one.
proof fn lemma_safe_char(c: char)
    ensures
        terminal_safe(safe_char(c)),
        line_feeds(safe_char(c)) == if c == '\n' { 1nat } else { 0nat },
{
    let out = safe_char(c);
    if c == '\n' {
        assert(out.drop_last() =~= Seq::<char>::empty());
        assert(line_feeds(Seq::<char>::empty()) == 0);
    } else {
        if is_control(c) && c != '\t' && c != '\r' {
            lemma_hex_digits_plain(c as u32 as nat);
            assert(escape_default(c) == escape_unicode(c));
        }
        assert(plain(out));
        lemma_plain_has_no_line_feeds(out);
    }
}

/// Safe text holds no control character but line feeds, and keeps every
/// line feed: escaped text can neither move the cursor nor change the
/// terminal's state, and its lines are the original's.
pub proof fn lemma_safe_text_is_safe(s: Seq<char>)
    ensures
        terminal_safe(safe_seq(s)),
        line_feeds(safe_seq(s)) == line_feeds(s),
    decreases s.len(),
{
    if s.len() > 0 {
        lemma_safe_text_is_safe(s.drop_last());
        lemma_safe_char(s.last());
        lemma_line_feeds_concat(safe_seq(s.drop_last()), safe_char(s.last()));
        let a = safe_seq(s.drop_last());
        let b = safe_char(s.last());
        assert forall|i: int| 0 <= i < (a + b).len() implies !is_control(#[trigger] (a + b)[i]) || (a + b)[i] == '\n' by {
            if i < a.len() {
                assert((a + b)[i] == a[i]);
            } else {
                assert((a + b)[i] == b[i - a.len()]);
            }
        }
    }
}

/// Making text safe works piecewise: the safe form of two texts one after
/// the other is their safe forms one after the other.
pub proof fn lemma_safe_text_concat(a: Seq<char>, b: Seq<char>)
    ensures
        safe_seq(a + b) == safe_seq(a) + safe_seq(b),
    decreases b.len(),
{
    if b.len() > 0 {
        lemma_safe_text_concat(a, b.drop_last());
        assert((a + b).drop_last() =~= a + b.drop_last());
        assert((a + b).last() == b.last());
        assert(safe_seq(a) + safe_seq(b.drop_last()) + safe_char(b.last()) =~= safe_seq(a) + safe_seq(b));
    } else {
        assert(a + b =~= a);
        assert(safe_seq(a) + safe_seq(b) =~= safe_seq(a));
    }
}

/// Text that is already safe is shown as it is.
pub proof fn lemma_safe_text_keeps_safe(s: Seq<char>)
    requires
        terminal_safe(s),
    ensures
        safe_seq(s) == s,
    decreases s.len(),
{
    if s.len() > 0 {
        assert(!is_control(s[s.len() - 1]) || s[s.len() - 1] == '\n');
        assert(terminal_safe(s.drop_last())) by {
            assert forall|i: int| 0 <= i < s.drop_last().len() implies !is_control(#[trigger] s.drop_last()[i])
                || s.drop_last()[i] == '\n' by {
                assert(s.drop_last()[i] == s[i]);
            }
        }
        lemma_safe_text_keeps_safe(s.drop_last());
        assert(s.drop_last().push(s.last()) =~= s);
    }
}

/// Making text safe twice changes nothing the first time did not.
pub proof fn lemma_safe_text_idempotent(s: Seq<char>)
    ensures
        safe_seq(safe_seq(s)) == safe_seq(s),
{
    lemma_safe_text_is_safe(s);
    lemma_safe_text_keeps_safe(safe_seq(s));
}

/// The waiting-time label: `59s`, `1m 00s`, `1h 01m 01s`.
pub open spec fn elapsed_text(seconds: nat) -> Seq<char> {
    if seconds >= 3600 {
        decimal_digits(seconds / 3600) + seq!['h', ' '] + decimal_digits_2(seconds / 60 % 60)
            + seq!['m', ' '] + decimal_digits_2(seconds % 60) + seq!['s']
    } else if seconds >= 60 {
        decimal_digits(seconds / 60) + seq!['m', ' '] + decimal_digits_2(seconds % 60) + seq![
            's',
        ]
    } else {
        decimal_digits(seconds) + seq!['s']
    }
}

/// Formats a waiting time given in whole seconds.
pub fn elapsed(seconds: u64) -> (label: String)
    ensures
        label@ == elapsed_text(seconds as nat),
{
    let mut label = String::new();
    if seconds >= 3600 {
        push_decimal(&mut label, seconds / 3600);
        push_char(&mut label, 'h');
        push_char(&mut label, ' ');
        push_decimal_2(&mut label, seconds / 60 % 60);
        push_char(&mut label, 'm');
        push_char(&mut label, ' ');
        push_decimal_2(&mut label, seconds % 60);
        push_char(&mut label, 's');
    } else if seconds >= 60 {
        push_decimal(&mut label, seconds / 60);
        push_char(&mut label, 'm');
        push_char(&mut label, ' ');
        push_decimal_2(&mut label, seconds % 60);
        push_char(&mut label, 's');
    } else {
        push_decimal(&mut label, seconds);
        push_char(&mut label, 's');
    }
    assert(label@ =~= elapsed_text(seconds as nat));
    label
}


/// The spinner frame shown `elapsed_ms` milliseconds into a request.
pub open spec fn spinner_frame(elapsed_ms: nat) -> char {
    let k = (elapsed_ms / 100) % 10;
    if k == 0 {
        '⠋'
    } else if k == 1 {
        '⠙'
    } else if k == 2 {
        '⠹'
    } else if k == 3 {
        '⠸'
    } else if k == 4 {
        '⠼'
    } else if k == 5 {
        '⠴'
    } else if k == 6 {
        '⠦'
    } else if k == 7 {
        '⠧'
    } else if k == 8 {
        '⠇'
    } else {
        '⠏'
    }
}

/// An outstanding request, for one redraw: its phase label and how long it
/// has been waiting.
pub struct Status<'a> {
    pub label: &'a str,
    pub elapsed_ms: u64,
}

impl<'a> Status<'a> {
    /// The status line: a spinner frame derived from the elapsed time (it
    /// signals an outstanding request, not remote progress), the waiting
    /// time, and the label made safe.
    pub fn text(&self) -> (s: String)
        ensures
            s@ == seq![spinner_frame(self.elapsed_ms as nat), ' '] + elapsed_text((self.elapsed_ms / 1000) as nat)
                + " · "@ + safe_seq(self.label@),
    {
        let k = (self.elapsed_ms / 100) % 10;
        let frame = if k == 0 {
            '⠋'
        } else if k == 1 {
            '⠙'
        } else if k == 2 {
            '⠹'
        } else if k == 3 {
            '⠸'
        } else if k == 4 {
            '⠼'
        } else if k == 5 {
            '⠴'
        } else if k == 6 {
            '⠦'
        } else if k == 7 {
            '⠧'
        } else if k == 8 {
            '⠇'
        } else {
            '⠏'
        };
        let mut s = String::new();
        push_char(&mut s, frame);
        push_char(&mut s, ' ');
        push_str(&mut s, elapsed(self.elapsed_ms / 1000).as_str());
        push_str(&mut s, " · ");
        push_str(&mut s, safe_text(self.label).as_str());
        s
    }
}

/// The progress of wrapping text into rows of a fixed width: completed rows,
/// the unfinished row, and the columns that row occupies.
pub struct Wrap {
    pub ready: Seq<Seq<char>>,
    pub line: Seq<char>,
    pub columns: nat,
    /// The columns each completed row occupies.
    pub widths: Seq<nat>,
}

pub open spec fn wrap_start() -> Wrap {
    Wrap { ready: seq![], line: seq![], columns: 0, widths: seq![] }
}

/// Completes the unfinished row.
pub open spec fn break_line(w: Wrap) -> Wrap {
    Wrap { ready: w.ready.push(w.line), line: seq![], columns: 0, widths: w.widths.push(w.columns) }
}

/// Places one single-column character, breaking first when the row is full.
pub open spec fn wrap_narrow(w: Wrap, c: char, width: nat) -> Wrap {
    let w = if w.columns == width {
        break_line(w)
    } else {
        w
    };
    Wrap { line: w.line.push(c), columns: w.columns + 1, ..w }
}

pub open spec fn wrap_narrow_all(w: Wrap, cs: Seq<char>, width: nat) -> Wrap
    decreases cs.len(),
{
    if cs.len() == 0 {
        w
    } else {
        wrap_narrow(wrap_narrow_all(w, cs.drop_last(), width), cs.last(), width)
    }
}

/// The `\u{..}` escapes of every character of a text, concatenated.
pub open spec fn escape_all(g: Seq<char>) -> Seq<char>
    decreases g.len(),
{
    if g.len() == 0 {
        seq![]
    } else {
        escape_all(g.drop_last()) + escape_unicode(g.last())
    }
}

/// The `\u{..}` escapes of every character of `g`.
pub fn escape_text(g: &str) -> (out: String)
    ensures
        out@ == escape_all(g@),
{
    let cs = chars_of(g);
    let mut out = String::new();
    let mut k: usize = 0;
    while k < cs.len()
        invariant
            k <= cs@.len(),
            cs@ == g@,
            out@ == escape_all(cs@.take(k as int)),
        decreases cs.len() - k,
    {
        push_escape_unicode(&mut out, cs[k]);
        assert(cs@.take(k + 1).drop_last() =~= cs@.take(k as int));
        k += 1;
    }
    assert(cs@.take(k as int) =~= g@);
    out
}

/// Places one grapheme: a newline completes the row; a grapheme wider than
/// the whole row is shown as its escapes, one column per character; any other
/// grapheme moves to a new row when it does not fit on the current one.
pub open spec fn wrap_grapheme(w: Wrap, g: Seq<char>, width: nat) -> Wrap {
    if g == seq!['\n'] {
        break_line(w)
    } else if display_width(g) > width {
        wrap_narrow_all(w, escape_all(g), width)
    } else {
        let w = if w.columns + display_width(g) > width {
            break_line(w)
        } else {
            w
        };
        Wrap { line: w.line + g, columns: w.columns + display_width(g), ..w }
    }
}

pub open spec fn wrap_all(w: Wrap, gs: Seq<Seq<char>>, width: nat) -> Wrap
    decreases gs.len(),
{
    if gs.len() == 0 {
        w
    } else {
        wrap_grapheme(wrap_all(w, gs.drop_last(), width), gs.last(), width)
    }
}

/// Wrapping a whole text, grapheme by grapheme, from an empty first row.
pub open spec fn wrap_text(s: Seq<char>, width: nat) -> Wrap {
    wrap_all(wrap_start(), graphemes_of(s), width)
}

/// What wrapping has produced so far: the completed rows, then the open one.
pub open spec fn wrapped(w: Wrap) -> Seq<char> {
    concat(w.ready) + w.line
}

/// How a grapheme shows in wrapped output: a newline only ends its row, a
/// grapheme wider than a row shows as its escapes, any other as itself.
pub open spec fn wrap_piece(g: Seq<char>, width: nat) -> Seq<char> {
    if g == seq!['\n'] {
        seq![]
    } else if display_width(g) > width {
        escape_all(g)
    } else {
        g
    }
}

/// The pieces of graphemes, in order.
pub open spec fn wrap_pieces(gs: Seq<Seq<char>>, width: nat) -> Seq<char>
    decreases gs.len(),
{
    if gs.len() == 0 {
        seq![]
    } else {
        wrap_pieces(gs.drop_last(), width) + wrap_piece(gs.last(), width)
    }
}

/// The number of newline graphemes.
pub open spec fn newline_graphemes(gs: Seq<Seq<char>>) -> nat
    decreases gs.len(),
{
    if gs.len() == 0 {
        0
    } else {
        newline_graphemes(gs.drop_last()) + if gs.last() == seq!['\n'] { 1nat } else { 0nat }
    }
}

proof fn lemma_break_line_text(w: Wrap)
    ensures
        wrapped(break_line(w)) == wrapped(w),
        break_line(w).ready.len() == w.ready.len() + 1,
{
    crate::unicode::lemma_concat_push(w.ready, w.line);
    assert(concat(w.ready) + w.line + Seq::<char>::empty() =~= concat(w.ready) + w.line);
}

proof fn lemma_wrap_narrow_text(w: Wrap, c: char, width: nat)
    ensures
        wrapped(wrap_narrow(w, c, width)) == wrapped(w).push(c),
        wrap_narrow(w, c, width).ready.len() >= w.ready.len(),
{
    lemma_break_line_text(w);
    let v = if w.columns == width { break_line(w) } else { w };
    assert(concat(v.ready) + v.line.push(c) =~= (concat(v.ready) + v.line).push(c));
}

proof fn lemma_wrap_narrow_all_text(w: Wrap, cs: Seq<char>, width: nat)
    ensures
        wrapped(wrap_narrow_all(w, cs, width)) == wrapped(w) + cs,
        wrap_narrow_all(w, cs, width).ready.len() >= w.ready.len(),
    decreases cs.len(),
{
    if cs.len() == 0 {
        assert(wrapped(w) + cs =~= wrapped(w));
    } else {
        lemma_wrap_narrow_all_text(w, cs.drop_last(), width);
        lemma_wrap_narrow_text(wrap_narrow_all(w, cs.drop_last(), width), cs.last(), width);
        assert((wrapped(w) + cs.drop_last()).push(cs.last()) =~= wrapped(w) + cs);
    }
}

proof fn lemma_wrap_grapheme_text(w: Wrap, g: Seq<char>, width: nat)
    ensures
        wrapped(wrap_grapheme(w, g, width)) == wrapped(w) + wrap_piece(g, width),
        wrap_grapheme(w, g, width).ready.len() >= w.ready.len() + if g == seq!['\n'] { 1nat } else { 0nat },
{
    if g == seq!['\n'] {
        lemma_break_line_text(w);
        assert(wrapped(w) + Seq::<char>::empty() =~= wrapped(w));
    } else if display_width(g) > width {
        lemma_wrap_narrow_all_text(w, escape_all(g), width);
    } else {
        lemma_break_line_text(w);
        let v = if w.columns + display_width(g) > width { break_line(w) } else { w };
        assert(concat(v.ready) + (v.line + g) =~= (concat(v.ready) + v.line) + g);
    }
}

/// The columns of every row of wrapped output, completed rows first: each
/// grapheme counts its width and each character of an escape one column.
pub open spec fn wrap_columns(w: Wrap) -> Seq<nat> {
    w.widths.push(w.columns)
}

/// Every row is at most `width` columns wide, one width per completed row.
pub open spec fn wrap_within(w: Wrap, width: nat) -> bool {
    &&& w.widths.len() == w.ready.len()
    &&& forall|r: int| 0 <= r < wrap_columns(w).len() ==> #[trigger] wrap_columns(w)[r] <= width
}

proof fn lemma_break_line_within(w: Wrap, width: nat)
    requires
        wrap_within(w, width),
    ensures
        wrap_within(break_line(w), width),
{
    let b = break_line(w);
    assert forall|r: int| 0 <= r < wrap_columns(b).len() implies #[trigger] wrap_columns(b)[r] <= width by {
        if r < w.widths.len() {
            assert(wrap_columns(b)[r] == wrap_columns(w)[r]);
        } else if r == w.widths.len() {
            assert(wrap_columns(b)[r] == w.columns);
            assert(wrap_columns(w)[w.widths.len() as int] == w.columns);
        }
    }
}

proof fn lemma_wrap_narrow_within(w: Wrap, c: char, width: nat)
    requires
        wrap_within(w, width),
        width >= 1,
    ensures
        wrap_within(wrap_narrow(w, c, width), width),
{
    lemma_break_line_within(w, width);
    let v = if w.columns == width { break_line(w) } else { w };
    assert(wrap_columns(v)[v.widths.len() as int] == v.columns);
    let n = wrap_narrow(w, c, width);
    assert forall|r: int| 0 <= r < wrap_columns(n).len() implies #[trigger] wrap_columns(n)[r] <= width by {
        if r < v.widths.len() {
            assert(wrap_columns(n)[r] == wrap_columns(v)[r]);
        }
    }
}

proof fn lemma_wrap_narrow_all_within(w: Wrap, cs: Seq<char>, width: nat)
    requires
        wrap_within(w, width),
        width >= 1,
    ensures
        wrap_within(wrap_narrow_all(w, cs, width), width),
    decreases cs.len(),
{
    if cs.len() > 0 {
        lemma_wrap_narrow_all_within(w, cs.drop_last(), width);
        lemma_wrap_narrow_within(wrap_narrow_all(w, cs.drop_last(), width), cs.last(), width);
    }
}

proof fn lemma_wrap_grapheme_within(w: Wrap, g: Seq<char>, width: nat)
    requires
        wrap_within(w, width),
        width >= 1,
    ensures
        wrap_within(wrap_grapheme(w, g, width), width),
{
    if g == seq!['\n'] {
        lemma_break_line_within(w, width);
    } else if display_width(g) > width {
        lemma_wrap_narrow_all_within(w, escape_all(g), width);
    } else {
        lemma_break_line_within(w, width);
        let v = if w.columns + display_width(g) > width { break_line(w) } else { w };
        assert(wrap_columns(v)[v.widths.len() as int] == v.columns);
        let n = wrap_grapheme(w, g, width);
        assert forall|r: int| 0 <= r < wrap_columns(n).len() implies #[trigger] wrap_columns(n)[r] <= width by {
            if r < v.widths.len() {
                assert(wrap_columns(n)[r] == wrap_columns(v)[r]);
            }
        }
    }
}

/// Every row of wrapped output fits the width: a grapheme that would not fit
/// starts a new row, and one wider than a row is escaped one column at a
/// time.
pub proof fn lemma_wrap_fits(gs: Seq<Seq<char>>, width: nat)
    requires
        width >= 1,
    ensures
        wrap_within(wrap_all(wrap_start(), gs, width), width),
    decreases gs.len(),
{
    if gs.len() == 0 {
        assert(wrap_columns(wrap_start()) =~= seq![0nat]);
    } else {
        lemma_wrap_fits(gs.drop_last(), width);
        lemma_wrap_grapheme_within(wrap_all(wrap_start(), gs.drop_last(), width), gs.last(), width);
    }
}

/// A text with its line feeds removed.
pub open spec fn without_line_feeds(s: Seq<char>) -> Seq<char>
    decreases s.len(),
{
    if s.len() == 0 {
        seq![]
    } else {
        without_line_feeds(s.drop_last()) + if s.last() == '\n' { seq![] } else { seq![s.last()] }
    }
}

/// Graphemes that fit a row, each line feed a grapheme of its own.
pub open spec fn plain_graphemes(gs: Seq<Seq<char>>, width: nat) -> bool {
    forall|i: int|
        0 <= i < gs.len() ==> (#[trigger] gs[i] == seq!['\n'] || (display_width(gs[i]) <= width && !gs[i].contains('\n')))
}

proof fn lemma_without_line_feeds_concat(a: Seq<char>, b: Seq<char>)
    ensures
        without_line_feeds(a + b) == without_line_feeds(a) + without_line_feeds(b),
    decreases b.len(),
{
    if b.len() == 0 {
        assert(a + b =~= a);
        assert(without_line_feeds(a) + without_line_feeds(b) =~= without_line_feeds(a));
    } else {
        lemma_without_line_feeds_concat(a, b.drop_last());
        assert((a + b).drop_last() =~= a + b.drop_last());
        assert((a + b).last() == b.last());
    }
}

proof fn lemma_no_line_feed_kept(g: Seq<char>)
    requires
        !g.contains('\n'),
    ensures
        without_line_feeds(g) == g,
    decreases g.len(),
{
    if g.len() > 0 {
        assert(g.last() == g[g.len() - 1]);
        assert(!g.drop_last().contains('\n')) by {
            if g.drop_last().contains('\n') {
                let k = choose|k: int| 0 <= k < g.drop_last().len() && g.drop_last()[k] == '\n';
                assert(g[k] == '\n');
            }
        }
        lemma_no_line_feed_kept(g.drop_last());
        assert(g.drop_last() + seq![g.last()] =~= g);
    }
}

/// Where every grapheme fits a row and line feeds stand alone, wrapping
/// gives the text back with its line feeds removed.
pub proof fn lemma_wrap_drops_only_line_feeds(gs: Seq<Seq<char>>, width: nat)
    requires
        plain_graphemes(gs, width),
    ensures
        wrap_pieces(gs, width) == without_line_feeds(concat(gs)),
    decreases gs.len(),
{
    if gs.len() == 0 {
        assert(concat(gs) == Seq::<char>::empty());
    } else {
        let g = gs.last();
        assert(g == gs[gs.len() - 1]);
        assert(plain_graphemes(gs.drop_last(), width)) by {
            assert forall|i: int| 0 <= i < gs.drop_last().len() implies (#[trigger] gs.drop_last()[i] == seq!['\n'] || (
            display_width(gs.drop_last()[i]) <= width && !gs.drop_last()[i].contains('\n'))) by {
                assert(gs.drop_last()[i] == gs[i]);
            }
        }
        lemma_wrap_drops_only_line_feeds(gs.drop_last(), width);
        lemma_without_line_feeds_concat(concat(gs.drop_last()), g);
        if g == seq!['\n'] {
            assert(seq!['\n'].drop_last() =~= Seq::<char>::empty());
            assert(without_line_feeds(Seq::<char>::empty()) == Seq::<char>::empty());
            assert(without_line_feeds(g) =~= Seq::<char>::empty());
            assert(wrap_piece(g, width) =~= Seq::<char>::empty());
        } else {
            lemma_no_line_feed_kept(g);
        }
    }
}

/// Wrapping loses nothing and reorders nothing: the completed rows and the
/// open row, one after another, are the graphemes in order, newlines
/// dropped (each completes a row) and graphemes wider than a row shown as
/// their escapes; there is a completed row for every newline.
pub proof fn lemma_wrap_loses_nothing(gs: Seq<Seq<char>>, width: nat)
    ensures
        wrapped(wrap_all(wrap_start(), gs, width)) == wrap_pieces(gs, width),
        wrap_all(wrap_start(), gs, width).ready.len() >= newline_graphemes(gs),
    decreases gs.len(),
{
    if gs.len() == 0 {
        assert(concat(Seq::<Seq<char>>::empty()) == Seq::<char>::empty());
        assert(wrapped(wrap_start()) =~= Seq::<char>::empty());
    } else {
        lemma_wrap_loses_nothing(gs.drop_last(), width);
        lemma_wrap_grapheme_text(wrap_all(wrap_start(), gs.drop_last(), width), gs.last(), width);
    }
}

proof fn lemma_wrap_narrow_all_append(w: Wrap, a: Seq<char>, b: Seq<char>, width: nat)
    ensures
        wrap_narrow_all(w, a + b, width) == wrap_narrow_all(wrap_narrow_all(w, a, width), b, width),
    decreases b.len(),
{
    if b.len() == 0 {
        assert(a + b =~= a);
    } else {
        lemma_wrap_narrow_all_append(w, a, b.drop_last(), width);
        assert((a + b).drop_last() =~= a + b.drop_last());
    }
}

/// The unfinished visual row of streamed output. Its last grapheme stays
/// open so that a following fragment can extend a combining sequence;
/// completed rows leave this buffer.
pub struct OutputTail {
    pub text: String,
    pub tone: Tone,
    pub indent: u16,
}

impl Default for OutputTail {
    fn default() -> (tail: Self)
        ensures
            tail.text@ == Seq::<char>::empty(),
            tail.tone == Tone::Text,
            tail.indent == 0,
    {
        OutputTail { text: String::new(), tone: Tone::Text, indent: 0 }
    }
}

fn is_newline(g: &str) -> (r: bool)
    ensures
        r == (g@ == seq!['\n']),
{
    let v = chars_of(g);
    let r = v.len() == 1 && v[0] == '\n';
    if r {
        assert(g@ =~= seq!['\n']);
    }
    r
}

impl OutputTail {
    /// Appends `text` and wraps everything unfinished at `width` columns (at
    /// least one). Returns the rows that are now complete; the open row stays.
    pub fn push(&mut self, text: &str, width: u16) -> (ready: Vec<String>)
        ensures
            ({
                let w = wrap_text(old(self).text@ + text@, if width == 0 { 1 } else { width as nat });
                &&& ready@.map_values(|r: String| r@) == w.ready
                &&& final(self).text@ == w.line
            }),
            ({
                let gs = graphemes_of(old(self).text@ + text@);
                let width_cols = if width == 0 { 1 } else { width as nat };
                &&& concat(ready@.map_values(|r: String| r@)) + final(self).text@ == wrap_pieces(gs, width_cols)
                &&& ready@.len() >= newline_graphemes(gs)
                &&& concat(gs) == old(self).text@ + text@
                &&& plain_graphemes(gs, width_cols) ==> concat(ready@.map_values(|r: String| r@)) + final(self).text@
                    == without_line_feeds(old(self).text@ + text@)
                &&& wrap_within(wrap_text(old(self).text@ + text@, width_cols), width_cols)
            }),
            final(self).tone == old(self).tone,
            final(self).indent == old(self).indent,
    {
        proof {
            lemma_wrap_loses_nothing(graphemes_of(old(self).text@ + text@), if width == 0 { 1 } else { width as nat });
            lemma_wrap_fits(graphemes_of(old(self).text@ + text@), if width == 0 { 1 } else { width as nat });
            if plain_graphemes(graphemes_of(old(self).text@ + text@), if width == 0 { 1 } else { width as nat }) {
                lemma_wrap_drops_only_line_feeds(graphemes_of(old(self).text@ + text@), if width == 0 { 1 } else { width as nat });
            }
        }
        push_str(&mut self.text, text);
        let cols: usize = if width == 0 { 1 } else { width as usize };
        let gs = graphemes(self.text.as_str());
        let ghost gv = gs@.map_values(|g: String| g@);
        assert(gv == graphemes_of(old(self).text@ + text@));
        let mut ready: Vec<String> = Vec::new();
        let mut line = String::new();
        let mut columns: usize = 0;
        let ghost mut widths: Seq<nat> = seq![];
        let mut i: usize = 0;
        assert(gv.take(0) =~= Seq::<Seq<char>>::empty());
        assert(ready@.map_values(|r: String| r@) =~= Seq::<Seq<char>>::empty());
        while i < gs.len()
            invariant
                i <= gs.len(),
                1 <= cols <= 65535,
                gv == gs@.map_values(|g: String| g@),
                columns <= cols,
                wrap_all(wrap_start(), gv.take(i as int), cols as nat) == (Wrap {
                    ready: ready@.map_values(|r: String| r@),
                    line: line@,
                    columns: columns as nat,
                    widths,
                }),
            decreases gs.len() - i,
        {
            let g = &gs[i];
            let ghost before = Wrap {
                ready: ready@.map_values(|r: String| r@),
                line: line@,
                columns: columns as nat,
                widths,
            };
            assert(gv.take(i + 1).drop_last() == gv.take(i as int));
            assert(gv.take(i + 1).last() == g@);
            if is_newline(g.as_str()) {
                let done = line;
                line = String::new();
                ready.push(done);
                proof {
                    widths = widths.push(columns as nat);
                }
                columns = 0;
                assert(ready@.map_values(|r: String| r@) =~= before.ready.push(before.line));
            } else {
                let size = crate::unicode::width(g.as_str());
                if size > cols {
                    let cs = chars_of(g.as_str());
                    let mut j: usize = 0;
                    while j < cs.len()
                        invariant
                            j <= cs.len(),
                            cs@ == g@,
                            1 <= cols <= 65535,
                            columns <= cols,
                            wrap_narrow_all(before, escape_all(cs@.take(j as int)), cols as nat)
                                == (Wrap {
                                ready: ready@.map_values(|r: String| r@),
                                line: line@,
                                columns: columns as nat,
                                widths,
                            }),
                        decreases cs.len() - j,
                    {
                        let mut esc = String::new();
                        push_escape_unicode(&mut esc, cs[j]);
                        let ev = chars_of(esc.as_str());
                        let ghost mid = Wrap {
                            ready: ready@.map_values(|r: String| r@),
                            line: line@,
                            columns: columns as nat,
                            widths,
                        };
                        let mut k: usize = 0;
                        while k < ev.len()
                            invariant
                                k <= ev.len(),
                                1 <= cols <= 65535,
                                columns <= cols,
                                wrap_narrow_all(mid, ev@.take(k as int), cols as nat) == (Wrap {
                                    ready: ready@.map_values(|r: String| r@),
                                    line: line@,
                                    columns: columns as nat,
                                    widths,
                                }),
                            decreases ev.len() - k,
                        {
                            let ghost prev = Wrap {
                                ready: ready@.map_values(|r: String| r@),
                                line: line@,
                                columns: columns as nat,
                                widths,
                            };
                            if columns == cols {
                                let done = line;
                                line = String::new();
                                ready.push(done);
                                proof {
                                    widths = widths.push(columns as nat);
                                }
                                columns = 0;
                                assert(ready@.map_values(|r: String| r@) =~= prev.ready.push(
                                    prev.line,
                                ));
                            }
                            push_char(&mut line, ev[k]);
                            columns += 1;
                            assert(ev@.take(k + 1).drop_last() == ev@.take(k as int));
                            k += 1;
                        }
                        assert(ev@.take(ev.len() as int) == ev@);
                        assert(cs@.take(j + 1).drop_last() == cs@.take(j as int));
                        proof {
                            lemma_wrap_narrow_all_append(
                                before,
                                escape_all(cs@.take(j as int)),
                                escape_unicode(cs@[j as int]),
                                cols as nat,
                            );
                        }
                        j += 1;
                    }
                    assert(cs@.take(cs.len() as int) == cs@);
                } else {
                    if columns + size > cols {
                        let done = line;
                        line = String::new();
                        ready.push(done);
                        proof {
                            widths = widths.push(columns as nat);
                        }
                        columns = 0;
                        assert(ready@.map_values(|r: String| r@) =~= before.ready.push(
                            before.line,
                        ));
                    }
                    push_str(&mut line, g.as_str());
                    columns = columns + size;
                }
            }
            i += 1;
        }
        assert(gv.take(gs.len() as int) == gv);
        self.text = line;
        ready
    }
}

/// The rows of a provisional preview: `text` wrapped two columns narrower
/// than `width`, keeping only the latest rows, at most six and at most
/// `available_rows`. The open last row is included.
pub open spec fn preview_rows(text: Seq<char>, width: nat, available_rows: nat) -> Seq<Seq<char>> {
    if text.len() == 0 || available_rows == 0 {
        seq![]
    } else {
        let inner = if width >= 2 { (width - 2) as nat } else { 0 };
        let w = wrap_text(text, if inner == 0 { 1 } else { inner });
        let rows = w.ready.push(w.line);
        let height = if available_rows < 6 { available_rows } else { 6 };
        if rows.len() > height {
            rows.subrange(rows.len() - height, rows.len() as int)
        } else {
            rows
        }
    }
}

/// A bounded view of the latest rows of provisional text.
pub fn preview_lines(text: &str, width: u16, available_rows: u16) -> (rows: Vec<String>)
    ensures
        rows@.map_values(|r: String| r@) == preview_rows(text@, width as nat, available_rows as nat),
{
    if text.is_empty() || available_rows == 0 {
        return Vec::new();
    }
    let mut tail = OutputTail { text: String::new(), tone: Tone::Text, indent: 0 };
    let mut rows = tail.push(text, width.saturating_sub(CONTENT_PREFIX));
    assert(seq![] + text@ == text@);
    rows.push(tail.text);
    let height: usize = if available_rows < 6 { available_rows as usize } else { 6 };
    if rows.len() > height {
        let keep = rows.split_off(rows.len() - height);
        assert(keep@.map_values(|r: String| r@) =~= rows@.map_values(|r: String| r@).subrange(0, 0) + keep@.map_values(|r: String| r@));
        return keep;
    }
    rows
}

} // verus!
