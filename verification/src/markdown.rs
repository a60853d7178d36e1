//! The layout of finished Markdown blocks into terminal rows: styled
//! segments wrapped at a width, with hanging indents for continuation rows,
//! and tables clipped rather than wrapped.

use vstd::prelude::*;

pub mod controls;
pub mod events;
pub mod highlight;
pub mod parse;
pub mod writer;

use controls::{lemma_line_rows_clean, line_clean, row_clean};
use writer::line_view;

use crate::render::{escape_all, escape_text};
use crate::text::{char_from_offset, chars_of, push_char, push_str, str_equal};
use crate::unicode::{concat, display_width, graphemes, graphemes_of};

verus! {

/// A foreground colour.
#[derive(Clone, Copy, Debug, PartialEq, Eq, Structural)]
pub enum Color {
    LightCyan,
    LightBlue,
    Rgb(u8, u8, u8),
}

/// Bold text.
pub const BOLD: u16 = 0x1;
/// Dimmed text.
pub const DIM: u16 = 0x2;
/// Italic text.
pub const ITALIC: u16 = 0x4;
/// Underlined text.
pub const UNDERLINED: u16 = 0x8;
/// Crossed-out text.
pub const CROSSED_OUT: u16 = 0x100;

/// How a run of text is drawn: an optional foreground colour and a set of
/// modifier flags (`BOLD`, `DIM`, ...).
#[derive(Clone, Copy, Debug, PartialEq, Eq, Structural)]
pub struct TextStyle {
    pub fg: Option<Color>,
    pub modifiers: u16,
}

/// The style of unstyled text.
pub open spec fn plain_style() -> TextStyle {
    TextStyle { fg: None, modifiers: 0 }
}

pub fn plain() -> (s: TextStyle)
    ensures
        s == plain_style(),
{
    TextStyle { fg: None, modifiers: 0 }
}

/// `b` laid over `a`: its colour where it has one, and the modifiers of both.
pub open spec fn patch_spec(a: TextStyle, b: TextStyle) -> TextStyle {
    TextStyle {
        fg: match b.fg {
            Some(c) => Some(c),
            None => a.fg,
        },
        modifiers: a.modifiers | b.modifiers,
    }
}

pub fn patch(a: TextStyle, b: TextStyle) -> (s: TextStyle)
    ensures
        s == patch_spec(a, b),
{
    TextStyle {
        fg: match b.fg {
            Some(c) => Some(c),
            None => a.fg,
        },
        modifiers: a.modifiers | b.modifiers,
    }
}

/// A run of text with one style and one link target.
#[derive(Debug, PartialEq, Eq)]
pub struct Segment {
    pub text: String,
    pub style: TextStyle,
    pub link: Option<String>,
}

/// A segment as values.
pub struct Seg {
    pub text: Seq<char>,
    pub style: TextStyle,
    pub link: Option<Seq<char>>,
}

pub open spec fn link_view(l: Option<String>) -> Option<Seq<char>> {
    match l {
        Some(t) => Some(t@),
        None => None,
    }
}

pub open spec fn seg_of(s: Segment) -> Seg {
    Seg { text: s.text@, style: s.style, link: link_view(s.link) }
}

pub open spec fn row_of(r: Seq<Segment>) -> Seq<Seg> {
    r.map_values(|s: Segment| seg_of(s))
}

pub open spec fn rows_of(rs: Seq<Vec<Segment>>) -> Seq<Seq<Seg>> {
    rs.map_values(|r: Vec<Segment>| row_of(r@))
}

/// The texts of a line's segments.
pub open spec fn span_texts(spans: Seq<Segment>) -> Seq<Seq<char>> {
    spans.map_values(|s: Segment| s.text@)
}

/// One source line of a block: its segments, the indent its continuation
/// rows start with, and whether it is clipped (tables) instead of wrapped.
#[derive(Debug)]
pub struct LogicalLine {
    pub spans: Vec<Segment>,
    pub continuation: String,
    pub clip: bool,
}

/// A finished top-level Markdown block.
#[derive(Debug)]
pub struct Block(pub Vec<LogicalLine>);

/// Appends a segment to a row, joining it to the last one when style and
/// link agree; empty text adds nothing.
pub open spec fn append(row: Seq<Seg>, s: Seg) -> Seq<Seg> {
    if s.text.len() == 0 {
        row
    } else if row.len() > 0 && row.last().style == s.style && row.last().link == s.link {
        row.update(row.len() - 1, Seg { text: row.last().text + s.text, ..row.last() })
    } else {
        row.push(s)
    }
}

/// The longest leading run of `gs` that leaves `room` more columns within
/// `width`.
pub open spec fn indent_prefix(gs: Seq<Seq<char>>, used: nat, room: nat, width: nat) -> Seq<char>
    decreases gs.len(),
{
    if gs.len() == 0 || used + display_width(gs[0]) + room > width {
        seq![]
    } else {
        gs[0] + indent_prefix(gs.drop_first(), used + display_width(gs[0]), room, width)
    }
}

/// Rows in progress: finished rows, the open row, its columns, and whether
/// a clipped line has reached the edge.
pub struct Rows {
    pub rows: Seq<Seq<Seg>>,
    pub row: Seq<Seg>,
    pub columns: nat,
    /// The columns each finished row occupies.
    pub widths: Seq<nat>,
    pub stopped: bool,
}

/// No rows yet: an empty open row.
pub open spec fn rows_start() -> Rows {
    Rows { rows: seq![], row: seq![], columns: 0, widths: seq![], stopped: false }
}

/// Places one unit of text. A unit that does not fit ends a clipped line;
/// on a wrapped line it starts a new row, which begins with as much of the
/// continuation indent as leaves room for the unit.
pub open spec fn place_unit(st: Rows, unit: Seq<char>, style: TextStyle, link: Option<Seq<char>>, cont: Seq<char>, width: nat, clip: bool) -> Rows {
    if st.stopped {
        st
    } else if st.columns + display_width(unit) > width && clip {
        Rows { stopped: true, ..st }
    } else {
        let st = if st.columns + display_width(unit) > width {
            let p = indent_prefix(graphemes_of(cont), 0, display_width(unit), width);
            Rows {
                rows: st.rows.push(st.row),
                row: append(seq![], Seg { text: p, style: plain_style(), link: None }),
                columns: display_width(p),
                widths: st.widths.push(st.columns),
                stopped: false,
            }
        } else {
            st
        };
        Rows { row: append(st.row, Seg { text: unit, style, link }), columns: st.columns + display_width(unit), ..st }
    }
}

/// Places single characters as units.
pub open spec fn place_chars(st: Rows, cs: Seq<char>, style: TextStyle, link: Option<Seq<char>>, cont: Seq<char>, width: nat, clip: bool) -> Rows
    decreases cs.len(),
{
    if cs.len() == 0 {
        st
    } else {
        place_chars(place_unit(st, seq![cs[0]], style, link, cont, width, clip), cs.drop_first(), style, link, cont, width, clip)
    }
}

/// Which segment holds the character at `offset` of the line's text.
pub open spec fn span_at(spans: Seq<Segment>, offset: nat) -> int
    decreases spans.len(),
{
    if spans.len() == 0 || offset < spans[0].text@.len() {
        0
    } else {
        1 + span_at(spans.drop_first(), (offset - spans[0].text@.len()) as nat)
    }
}

/// Places a line's graphemes, each in the style and link of the segment its
/// first character belongs to. A grapheme too wide for the row is shown as
/// its escapes on a wrapped line.
pub open spec fn place_graphemes(st: Rows, gs: Seq<Seq<char>>, offset: nat, line: LogicalLine, width: nat) -> Rows
    decreases gs.len(),
{
    if gs.len() == 0 {
        st
    } else {
        let span = seg_of(line.spans@[span_at(line.spans@, offset)]);
        let g = gs[0];
        let st = if display_width(g) > width && !line.clip {
            place_chars(st, escape_all(g), span.style, span.link, line.continuation@, width, line.clip)
        } else {
            place_unit(st, g, span.style, span.link, line.continuation@, width, line.clip)
        };
        place_graphemes(st, gs.drop_first(), offset + g.len(), line, width)
    }
}

/// The rows of one logical line.
pub open spec fn line_rows(line: LogicalLine, width: nat) -> Seq<Seq<Seg>> {
    let text = concat(span_texts(line.spans@));
    let st = place_graphemes(rows_start(), graphemes_of(text), 0, line, width);
    st.rows.push(st.row)
}

/// The rows of a block's lines, in order.
pub open spec fn block_rows(lines: Seq<LogicalLine>, width: nat) -> Seq<Seq<Seg>>
    decreases lines.len(),
{
    if lines.len() == 0 {
        seq![]
    } else {
        line_rows(lines[0], width) + block_rows(lines.drop_first(), width)
    }
}

/// Concatenation splits off its first part.
proof fn lemma_concat_first(parts: Seq<Seq<char>>)
    requires
        parts.len() > 0,
    ensures
        concat(parts) == parts[0] + concat(parts.drop_first()),
    decreases parts.len(),
{
    if parts.len() == 1 {
        assert(parts.drop_last() =~= Seq::<Seq<char>>::empty());
        assert(parts.drop_first() =~= Seq::<Seq<char>>::empty());
        assert(concat(parts) =~= parts[0] + concat(parts.drop_first()));
    } else {
        lemma_concat_first(parts.drop_last());
        assert(parts.drop_last().drop_first() =~= parts.drop_first().drop_last());
        assert(concat(parts) =~= parts[0] + concat(parts.drop_first()));
    }
}

/// The character at `offset` belongs to segment `k` when it lies between the
/// texts before `k` and the end of `k`'s text.
proof fn lemma_span_at(spans: Seq<Segment>, k: int, offset: nat)
    requires
        0 <= k < spans.len(),
        concat(span_texts(spans.take(k))).len() <= offset,
        offset < concat(span_texts(spans.take(k + 1))).len(),
    ensures
        span_at(spans, offset) == k,
    decreases k,
{
    let ts1 = span_texts(spans.take(k + 1));
    lemma_concat_first(ts1);
    if k == 0 {
        assert(ts1.drop_first() =~= Seq::<Seq<char>>::empty());
    } else {
        let ts = span_texts(spans.take(k));
        lemma_concat_first(ts);
        let rest = spans.drop_first();
        assert(ts.drop_first() =~= span_texts(rest.take(k - 1)));
        assert(ts1.drop_first() =~= span_texts(rest.take(k)));
        lemma_span_at(rest, k - 1, (offset - spans[0].text@.len()) as nat);
    }
}

pub(crate) fn copy_link(l: &Option<String>) -> (r: Option<String>)
    ensures
        link_view(r) == link_view(*l),
{
    match l {
        Some(t) => Some(t.clone()),
        None => None,
    }
}

fn same_link(a: &Option<String>, b: &Option<String>) -> (r: bool)
    ensures
        r == (link_view(*a) == link_view(*b)),
{
    match (a, b) {
        (Some(x), Some(y)) => str_equal(x.as_str(), y.as_str()),
        (None, None) => true,
        _ => false,
    }
}

/// Appends a segment to a row as `append` says.
pub(crate) fn append_segment(row: &mut Vec<Segment>, s: Segment)
    ensures
        row_of(final(row)@) == append(row_of(old(row)@), seg_of(s)),
{
    let ghost before = row_of(row@);
    if s.text.as_str().unicode_len() == 0 {
        return;
    }
    let n = row.len();
    if n > 0 && row[n - 1].style == s.style && same_link(&row[n - 1].link, &s.link) {
        let mut last = row.pop().unwrap();
        push_str(&mut last.text, s.text.as_str());
        row.push(last);
        assert(row_of(row@) =~= before.update(
            before.len() - 1,
            Seg { text: before.last().text + seg_of(s).text, ..before.last() },
        ));
    } else {
        row.push(s);
        assert(row_of(row@) =~= before.push(seg_of(s)));
    }
}

/// `min(c + w, width + 1)`, without overflow.
fn capped_add(c: usize, w: usize, width: usize) -> (r: usize)
    requires
        c <= width + 1,
        width < 65536,
    ensures
        r == (if c + w > width { width + 1 } else { c + w }),
{
    if c > width || w > width - c {
        width + 1
    } else {
        c + w
    }
}

/// The continuation indent for a new row, as `indent_prefix` says.
fn prefix_for(cont: &Vec<String>, room: usize, width: usize) -> (p: String)
    ensures
        p@ == indent_prefix(cont@.map_values(|g: String| g@), 0, room as nat, width as nat),
{
    let ghost gv = cont@.map_values(|g: String| g@);
    let mut p = String::new();
    if room > width {
        if cont.len() > 0 {
            assert(gv.len() > 0);
        } else {
            assert(gv.len() == 0);
        }
        return p;
    }
    let mut used: usize = 0;
    let mut i: usize = 0;
    let mut done = false;
    assert(gv.skip(0) =~= gv);
    assert(p@ =~= seq![]);
    while i < cont.len() && !done
        invariant
            i <= cont@.len(),
            gv == cont@.map_values(|g: String| g@),
            used + room <= width,
            indent_prefix(gv, 0, room as nat, width as nat) == p@ + indent_prefix(
                gv.skip(i as int),
                used as nat,
                room as nat,
                width as nat,
            ),
            done ==> indent_prefix(gv.skip(i as int), used as nat, room as nat, width as nat) == Seq::<char>::empty(),
        decreases cont.len() - i, if done { 0nat } else { 1nat },
    {
        let gw = crate::unicode::width(cont[i].as_str());
        assert(gv.skip(i as int)[0] == cont@[i as int]@);
        if gw > width - room - used {
            done = true;
        } else {
            assert(gv.skip(i as int).drop_first() =~= gv.skip(i + 1));
            let ghost before = p@;
            push_str(&mut p, cont[i].as_str());
            assert(p@ + indent_prefix(gv.skip(i + 1), (used + gw) as nat, room as nat, width as nat) =~= before
                + indent_prefix(gv.skip(i as int), used as nat, room as nat, width as nat));
            used = used + gw;
            i = i + 1;
        }
    }
    if !done {
        assert(gv.skip(i as int) =~= Seq::<Seq<char>>::empty());
    }
    assert(p@ + Seq::<char>::empty() =~= p@);
    p
}

/// Rows being laid out. `columns` holds the open row's width, capped at one
/// past the row's width: beyond that every unit starts a new row anyway.
struct Placer {
    rows: Vec<Vec<Segment>>,
    row: Vec<Segment>,
    columns: usize,
    full: Ghost<nat>,
    widths: Ghost<Seq<nat>>,
    stopped: bool,
}

impl Placer {
    spec fn view(&self) -> Rows {
        Rows {
            rows: rows_of(self.rows@),
            row: row_of(self.row@),
            columns: self.full@,
            widths: self.widths@,
            stopped: self.stopped,
        }
    }

    spec fn ok(&self, width: nat) -> bool {
        &&& 1 <= width <= 65535
        &&& self.columns == (if self.full@ > width { width + 1 } else { self.full@ })
    }

    fn place_unit(&mut self, unit: &str, style: TextStyle, link: &Option<String>, cont_text: &str, cont: &Vec<String>, width: usize, clip: bool)
        requires
            old(self).ok(width as nat),
            cont@.map_values(|g: String| g@) == graphemes_of(cont_text@),
        ensures
            final(self).ok(width as nat),
            final(self).view() == place_unit(old(self).view(), unit@, style, link_view(*link), cont_text@, width as nat, clip),
    {
        if self.stopped {
            return;
        }
        let w = crate::unicode::width(unit);
        let fits = self.columns <= width && w <= width - self.columns;
        if !fits && clip {
            self.stopped = true;
            return;
        }
        if !fits {
            let prefix = prefix_for(cont, w, width);
            let pw = crate::unicode::width(prefix.as_str());
            let mut done: Vec<Segment> = Vec::new();
            std::mem::swap(&mut done, &mut self.row);
            let ghost finished = row_of(done@);
            self.rows.push(done);
            assert(rows_of(self.rows@) =~= rows_of(old(self).rows@).push(finished));
            assert(row_of(self.row@) =~= Seq::<Seg>::empty());
            append_segment(&mut self.row, Segment { text: prefix, style: plain(), link: None });
            self.columns = capped_add(0, pw, width);
            self.widths = Ghost(self.widths@.push(self.full@));
            self.full = Ghost(pw as nat);
        }
        let piece = unit.to_owned();
        let l = copy_link(link);
        let seg = Segment { text: piece, style, link: l };
        assert(seg_of(seg) == (Seg { text: unit@, style, link: link_view(*link) }));
        append_segment(&mut self.row, seg);
        self.columns = capped_add(self.columns, w, width);
        self.full = Ghost((self.full@ + w) as nat);
    }

    fn place_chars(&mut self, cs: &Vec<char>, style: TextStyle, link: &Option<String>, cont_text: &str, cont: &Vec<String>, width: usize, clip: bool)
        requires
            old(self).ok(width as nat),
            cont@.map_values(|g: String| g@) == graphemes_of(cont_text@),
        ensures
            final(self).ok(width as nat),
            final(self).view() == place_chars(old(self).view(), cs@, style, link_view(*link), cont_text@, width as nat, clip),
    {
        let mut k: usize = 0;
        assert(cs@.skip(0) =~= cs@);
        while k < cs.len()
            invariant
                k <= cs@.len(),
                self.ok(width as nat),
                cont@.map_values(|g: String| g@) == graphemes_of(cont_text@),
                place_chars(old(self).view(), cs@, style, link_view(*link), cont_text@, width as nat, clip)
                    == place_chars(self.view(), cs@.skip(k as int), style, link_view(*link), cont_text@, width as nat, clip),
            decreases cs.len() - k,
        {
            let mut one = String::new();
            push_char(&mut one, cs[k]);
            assert(one@ =~= seq![cs@.skip(k as int)[0]]);
            assert(cs@.skip(k as int).drop_first() =~= cs@.skip(k + 1));
            self.place_unit(one.as_str(), style, link, cont_text, cont, width, clip);
            k += 1;
        }
    }
}

/// The rows of one logical line, as `line_rows` says.
fn layout_line(line: &LogicalLine, width: usize) -> (rows: Vec<Vec<Segment>>)
    requires
        1 <= width <= 65535,
    ensures
        rows_of(rows@) == line_rows(*line, width as nat),
        !line.clip ==> keeps_graphemes(*line, width as nat),
        line_clean(line_view(*line)) ==> forall|r: int|
            0 <= r < line_rows(*line, width as nat).len() ==> row_clean(#[trigger] line_rows(*line, width as nat)[r]),
{
    let spans = &line.spans;
    let ghost sv = spans@;
    let mut text = String::new();
    let mut k: usize = 0;
    while k < spans.len()
        invariant
            k <= sv.len(),
            sv == spans@,
            text@ == concat(span_texts(sv.take(k as int))),
        decreases spans.len() - k,
    {
        push_str(&mut text, spans[k].text.as_str());
        proof {
            assert(span_texts(sv.take(k + 1)) =~= span_texts(sv.take(k as int)).push(sv[k as int].text@));
            crate::unicode::lemma_concat_push(span_texts(sv.take(k as int)), sv[k as int].text@);
        }
        k += 1;
    }
    assert(sv.take(k as int) =~= sv);
    let total = text.as_str().unicode_len();
    let gs = graphemes(text.as_str());
    let ghost gv = gs@.map_values(|g: String| g@);
    let cont_text = line.continuation.as_str();
    let cont = graphemes(cont_text);
    proof {
        if !line.clip {
            lemma_wrapped_line_spells(*line, width as nat);
        }
        if line_clean(line_view(*line)) {
            lemma_line_rows_clean(*line, width as nat);
        }
    }
    let mut pl = Placer {
        rows: Vec::new(),
        row: Vec::new(),
        columns: 0,
        full: Ghost(0),
        widths: Ghost(Seq::empty()),
        stopped: false,
    };
    let ghost start = pl.view();
    assert(start == (rows_start())) by {
        assert(rows_of(pl.rows@) =~= Seq::<Seq<Seg>>::empty());
        assert(row_of(pl.row@) =~= Seq::<Seg>::empty());
    }
    let mut j: usize = 0;
    let mut offset: usize = 0;
    let mut taken: usize = 0;
    let mut end: usize = 0;
    assert(gv.skip(0) =~= gv);
    assert(gv.take(0) =~= Seq::<Seq<char>>::empty());
    assert(span_texts(sv.take(0)) =~= Seq::<Seq<char>>::empty());
    while j < gs.len()
        invariant
            j <= gv.len(),
            1 <= width <= 65535,
            sv == spans@,
            spans == line.spans,
            cont_text@ == line.continuation@,
            gv == gs@.map_values(|g: String| g@),
            gv == graphemes_of(concat(span_texts(sv))),
            concat(gv) == concat(span_texts(sv)),
            forall|i: int| 0 <= i < gs@.len() ==> #[trigger] gs@[i]@.len() > 0,
            cont@.map_values(|g: String| g@) == graphemes_of(cont_text@),
            total == concat(span_texts(sv)).len(),
            offset == concat(gv.take(j as int)).len(),
            offset <= total,
            taken <= sv.len(),
            end == concat(span_texts(sv.take(taken as int))).len(),
            taken >= 1 ==> concat(span_texts(sv.take(taken - 1))).len() <= offset,
            pl.ok(width as nat),
            place_graphemes(start, gv, 0, *line, width as nat)
                == place_graphemes(pl.view(), gv.skip(j as int), offset as nat, *line, width as nat),
        decreases gs.len() - j,
    {
        proof {
            crate::unicode::lemma_concat_push(gv.take(j as int), gv[j as int]);
            assert(gv.take(j + 1) =~= gv.take(j as int).push(gv[j as int]));
            crate::editor::lemma_concat_bound(gv, j + 1);
            assert(gs@[j as int]@.len() > 0);
        }
        while offset >= end
            invariant
                taken <= sv.len(),
                sv == spans@,
                offset < total,
                total == concat(span_texts(sv)).len(),
                end == concat(span_texts(sv.take(taken as int))).len(),
                taken >= 1 ==> concat(span_texts(sv.take(taken - 1))).len() <= offset,
            decreases sv.len() - taken,
        {
            if taken == spans.len() {
                assert(sv.take(taken as int) =~= sv);
                assert(false);
            }
            proof {
                assert(span_texts(sv.take(taken + 1)) =~= span_texts(sv.take(taken as int)).push(sv[taken as int].text@));
                crate::unicode::lemma_concat_push(span_texts(sv.take(taken as int)), sv[taken as int].text@);
                assert(span_texts(sv).take(taken + 1) =~= span_texts(sv.take(taken + 1)));
                crate::editor::lemma_concat_bound(span_texts(sv), taken + 1);
            }
            end = end + spans[taken].text.as_str().unicode_len();
            taken = taken + 1;
        }
        proof {
            if taken == 0 {
                assert(span_texts(sv.take(0)) =~= Seq::<Seq<char>>::empty());
            }
            assert(sv.take(taken as int) == sv.take(taken - 1 + 1));
            lemma_span_at(sv, taken - 1, offset as nat);
        }
        let span = &spans[taken - 1];
        let g = &gs[j];
        assert(gv.skip(j as int)[0] == g@);
        assert(gv.skip(j as int).drop_first() =~= gv.skip(j + 1));
        let gw = crate::unicode::width(g.as_str());
        if gw > width && !line.clip {
            let esc = escape_text(g.as_str());
            let cs = chars_of(esc.as_str());
            pl.place_chars(&cs, span.style, &span.link, cont_text, &cont, width, line.clip);
        } else {
            pl.place_unit(g.as_str(), span.style, &span.link, cont_text, &cont, width, line.clip);
        }
        offset = offset + g.as_str().unicode_len();
        j += 1;
    }
    let mut rows = pl.rows;
    let ghost finished = rows_of(rows@);
    let last = pl.row;
    rows.push(last);
    assert(rows_of(rows@) =~= finished.push(row_of(pl.row@)));
    rows
}

/// The columns each row of a line occupies as laid out: the width of its
/// continuation prefix, if any, plus the widths of the units placed on it.
pub open spec fn line_row_columns(line: LogicalLine, width: nat) -> Seq<nat> {
    let text = concat(span_texts(line.spans@));
    let st = place_graphemes(rows_start(), graphemes_of(text), 0, line, width);
    st.widths.push(st.columns)
}

/// Printable ASCII characters, the escapes of wide graphemes among them, are
/// one column wide.
pub open spec fn ascii_is_narrow() -> bool {
    forall|c: char| 0x20 <= (c as u32) <= 0x7E ==> #[trigger] display_width(seq![c]) == 1
}

/// Every continuation prefix leaves the room it was chosen for: its width as
/// text is no more than its graphemes' widths allowed.
pub open spec fn indent_fits(cont: Seq<char>, width: nat) -> bool {
    forall|room: nat|
        room <= width ==> #[trigger] display_width(indent_prefix(graphemes_of(cont), 0, room, width)) + room <= width
}

/// Every row fits in `width` columns.
pub open spec fn rows_fit(columns: Seq<nat>, width: nat) -> bool {
    forall|r: int| 0 <= r < columns.len() ==> #[trigger] columns[r] <= width
}

/// Rows in progress, each within `width` columns, one width per finished row.
spec fn rows_within(st: Rows, width: nat) -> bool {
    &&& st.columns <= width
    &&& st.widths.len() == st.rows.len()
    &&& rows_fit(st.widths, width)
}

proof fn lemma_place_unit_within(
    st: Rows,
    unit: Seq<char>,
    style: TextStyle,
    link: Option<Seq<char>>,
    cont: Seq<char>,
    width: nat,
    clip: bool,
)
    requires
        rows_within(st, width),
        !clip ==> display_width(unit) <= width,
        indent_fits(cont, width),
    ensures
        rows_within(place_unit(st, unit, style, link, cont, width, clip), width),
{
    if !st.stopped && !(st.columns + display_width(unit) > width && clip) && st.columns + display_width(unit) > width {
        let room = display_width(unit);
        assert(display_width(indent_prefix(graphemes_of(cont), 0, room, width)) + room <= width);
        let w2 = st.widths.push(st.columns);
        assert forall|r: int| 0 <= r < w2.len() implies #[trigger] w2[r] <= width by {
            if r < st.widths.len() {
                assert(w2[r] == st.widths[r]);
            }
        }
    }
}

/// The characters of escapes are printable ASCII.
pub open spec fn printable_ascii(s: Seq<char>) -> bool {
    forall|i: int| 0 <= i < s.len() ==> 0x20 <= (#[trigger] s[i] as u32) <= 0x7E
}

proof fn lemma_hex_printable(n: nat)
    ensures
        printable_ascii(crate::text::hex_digits(n)),
    decreases n,
{
    if n >= 16 {
        lemma_hex_printable(n / 16);
    }
}

proof fn lemma_join_printable(a: Seq<char>, b: Seq<char>)
    requires
        printable_ascii(a),
        printable_ascii(b),
    ensures
        printable_ascii(a + b),
{
    assert forall|i: int| 0 <= i < (a + b).len() implies 0x20 <= (#[trigger] (a + b)[i] as u32) <= 0x7E by {
        if i < a.len() {
            assert((a + b)[i] == a[i]);
        } else {
            assert((a + b)[i] == b[i - a.len()]);
        }
    }
}

proof fn lemma_escape_all_printable(g: Seq<char>)
    ensures
        printable_ascii(escape_all(g)),
    decreases g.len(),
{
    if g.len() > 0 {
        lemma_escape_all_printable(g.drop_last());
        let c = g.last();
        lemma_hex_printable(c as u32 as nat);
        lemma_join_printable(seq!['\\', 'u', '{'], crate::text::hex_digits(c as u32 as nat));
        lemma_join_printable(seq!['\\', 'u', '{'] + crate::text::hex_digits(c as u32 as nat), seq!['}']);
        lemma_join_printable(escape_all(g.drop_last()), crate::text::escape_unicode(c));
    }
}

proof fn lemma_place_chars_within(
    st: Rows,
    cs: Seq<char>,
    style: TextStyle,
    link: Option<Seq<char>>,
    cont: Seq<char>,
    width: nat,
    clip: bool,
)
    requires
        rows_within(st, width),
        width >= 1,
        ascii_is_narrow(),
        printable_ascii(cs),
        indent_fits(cont, width),
    ensures
        rows_within(place_chars(st, cs, style, link, cont, width, clip), width),
    decreases cs.len(),
{
    if cs.len() > 0 {
        assert(0x20 <= (cs[0] as u32) <= 0x7E);
        assert(display_width(seq![cs[0]]) == 1);
        lemma_place_unit_within(st, seq![cs[0]], style, link, cont, width, clip);
        assert(printable_ascii(cs.drop_first())) by {
            assert forall|i: int| 0 <= i < cs.drop_first().len() implies 0x20 <= (#[trigger] cs.drop_first()[i] as u32) <= 0x7E by {
                assert(cs.drop_first()[i] == cs[i + 1]);
            }
        }
        lemma_place_chars_within(
            place_unit(st, seq![cs[0]], style, link, cont, width, clip),
            cs.drop_first(),
            style,
            link,
            cont,
            width,
            clip,
        );
    }
}

proof fn lemma_place_graphemes_within(st: Rows, gs: Seq<Seq<char>>, offset: nat, line: LogicalLine, width: nat)
    requires
        rows_within(st, width),
        width >= 1,
        ascii_is_narrow(),
        indent_fits(line.continuation@, width),
    ensures
        rows_within(place_graphemes(st, gs, offset, line, width), width),
    decreases gs.len(),
{
    if gs.len() > 0 {
        let span = seg_of(line.spans@[span_at(line.spans@, offset)]);
        let g = gs[0];
        if display_width(g) > width && !line.clip {
            lemma_escape_all_printable(g);
            lemma_place_chars_within(st, escape_all(g), span.style, span.link, line.continuation@, width, line.clip);
        } else {
            lemma_place_unit_within(st, g, span.style, span.link, line.continuation@, width, line.clip);
        }
        let next = if display_width(g) > width && !line.clip {
            place_chars(st, escape_all(g), span.style, span.link, line.continuation@, width, line.clip)
        } else {
            place_unit(st, g, span.style, span.link, line.continuation@, width, line.clip)
        };
        lemma_place_graphemes_within(next, gs.drop_first(), offset + g.len(), line, width);
    }
}

/// Every row of a line fits the width, counted as the layout counts it (a
/// prefix's width plus its units' widths): wrapped rows break before a unit
/// that would not fit, graphemes wider than a row are escaped into
/// one-column characters, and a clipped row stops at the edge. This holds
/// where escapes are one column wide and the continuation prefixes are no
/// wider than their graphemes allow.
pub proof fn lemma_rows_fit_width(line: LogicalLine, width: nat)
    requires
        width >= 1,
        ascii_is_narrow(),
        indent_fits(line.continuation@, width),
    ensures
        rows_fit(line_row_columns(line, width), width),
        line_row_columns(line, width).len() == line_rows(line, width).len(),
{
    let text = concat(span_texts(line.spans@));
    lemma_place_graphemes_within(rows_start(), graphemes_of(text), 0, line, width);
    let st = place_graphemes(rows_start(), graphemes_of(text), 0, line, width);
    let all = st.widths.push(st.columns);
    assert forall|r: int| 0 <= r < all.len() implies #[trigger] all[r] <= width by {
        if r < st.widths.len() {
            assert(all[r] == st.widths[r]);
        }
    }
}

/// Rows none of whose segments holds a control character.
pub open spec fn rows_clean(rows: Seq<Seq<Seg>>) -> bool {
    forall|r: int| 0 <= r < rows.len() ==> row_clean(#[trigger] rows[r])
}

/// The row width a terminal `width` columns wide gives: at least one.
pub open spec fn columns_for(width: u16) -> nat {
    if width == 0 {
        1
    } else {
        width as nat
    }
}

impl Block {
    /// Lays the block out at `width` columns (at least one): every line
    /// wrapped, or clipped where it is a table row. Wrapping loses nothing:
    /// the rows of a wrapped line, each without the leading run of the
    /// continuation indent that it begins with, spell the line's graphemes
    /// in order, those wider than a row as their escapes.
    pub fn rows(&self, width: u16) -> (rows: Vec<Vec<Segment>>)
        ensures
            rows_of(rows@) == block_rows(self.0@, if width == 0 { 1 } else { width as nat }),
            forall|i: int|
                0 <= i < self.0@.len() && !self.0@[i].clip ==> #[trigger] keeps_graphemes(self.0@[i], columns_for(width)),
            forall|i: int|
                0 <= i < self.0@.len() && line_clean(line_view(self.0@[i])) ==> #[trigger] rows_clean(
                    line_rows(self.0@[i], columns_for(width)),
                ),
            forall|i: int|
                0 <= i < self.0@.len() && ascii_is_narrow() && indent_fits(self.0@[i].continuation@, columns_for(width))
                    ==> #[trigger] rows_fit(line_row_columns(self.0@[i], columns_for(width)), columns_for(width)),
    {
        assert forall|i: int|
            0 <= i < self.0@.len() && ascii_is_narrow() && indent_fits(self.0@[i].continuation@, columns_for(width))
                implies #[trigger] rows_fit(line_row_columns(self.0@[i], columns_for(width)), columns_for(width)) by {
            lemma_rows_fit_width(self.0@[i], columns_for(width));
        }
        let w: usize = if width == 0 { 1 } else { width as usize };
        let lines = &self.0;
        let mut out: Vec<Vec<Segment>> = Vec::new();
        let mut i: usize = 0;
        assert(lines@.skip(0) =~= lines@);
        assert(rows_of(out@) =~= Seq::<Seq<Seg>>::empty());
        while i < lines.len()
            invariant
                i <= lines@.len(),
                1 <= w <= 65535,
                w == (if width == 0 { 1 } else { width as nat }),
                block_rows(lines@, w as nat) == rows_of(out@) + block_rows(lines@.skip(i as int), w as nat),
                forall|k: int| 0 <= k < i && !lines@[k].clip ==> #[trigger] keeps_graphemes(lines@[k], w as nat),
                forall|k: int|
                    0 <= k < i && line_clean(line_view(lines@[k])) ==> #[trigger] rows_clean(line_rows(lines@[k], w as nat)),
            decreases lines.len() - i,
        {
            let mut more = layout_line(&lines[i], w);
            let ghost before = rows_of(out@);
            let ghost added = rows_of(more@);
            out.append(&mut more);
            assert(lines@.skip(i as int)[0] == lines@[i as int]);
            assert(lines@.skip(i as int).drop_first() =~= lines@.skip(i + 1));
            assert(rows_of(out@) =~= before + added);
            assert(rows_of(out@) + block_rows(lines@.skip(i + 1), w as nat) =~= before + block_rows(lines@.skip(i as int), w as nat));
            i += 1;
        }
        assert(lines@.skip(i as int) =~= Seq::<LogicalLine>::empty());
        assert(rows_of(out@) + Seq::<Seq<Seg>>::empty() =~= rows_of(out@));
        out
    }
}

proof fn lemma_clipped_rows_stay(st: Rows, gs: Seq<Seq<char>>, offset: nat, line: LogicalLine, width: nat)
    requires
        line.clip,
    ensures
        place_graphemes(st, gs, offset, line, width).rows == st.rows,
    decreases gs.len(),
{
    if gs.len() > 0 {
        let span = seg_of(line.spans@[span_at(line.spans@, offset)]);
        let next = place_unit(st, gs[0], span.style, span.link, line.continuation@, width, line.clip);
        assert(next.rows == st.rows);
        lemma_clipped_rows_stay(next, gs.drop_first(), offset + gs[0].len(), line, width);
    }
}

/// Tables are clipped, never wrapped: a clipped line is one row at any
/// width.
pub proof fn lemma_clipped_line_is_one_row(line: LogicalLine, width: nat)
    requires
        line.clip,
    ensures
        line_rows(line, width).len() == 1,
{
    let text = concat(span_texts(line.spans@));
    let start = rows_start();
    lemma_clipped_rows_stay(start, graphemes_of(text), 0, line, width);
}

/// The text of a row's segments, in order.
pub open spec fn row_text(row: Seq<Seg>) -> Seq<char>
    decreases row.len(),
{
    if row.len() == 0 {
        seq![]
    } else {
        row_text(row.drop_last()) + row.last().text
    }
}

/// How graphemes are shown on rows `width` columns wide: each as itself,
/// or as its escapes when it is wider than a row.
pub open spec fn shown(gs: Seq<Seq<char>>, width: nat) -> Seq<char>
    decreases gs.len(),
{
    if gs.len() == 0 {
        seq![]
    } else {
        (if display_width(gs[0]) > width { escape_all(gs[0]) } else { gs[0] }) + shown(gs.drop_first(), width)
    }
}

pub(crate) proof fn lemma_append_text(row: Seq<Seg>, s: Seg)
    ensures
        row_text(append(row, s)) == row_text(row) + s.text,
{
    if s.text.len() == 0 {
        assert(row_text(row) + s.text =~= row_text(row));
    } else if row.len() > 0 && row.last().style == s.style && row.last().link == s.link {
        let joined = row.update(row.len() - 1, Seg { text: row.last().text + s.text, ..row.last() });
        assert(joined.drop_last() =~= row.drop_last());
        assert(row_text(joined) =~= row_text(row) + s.text);
    } else {
        assert(row.push(s).drop_last() =~= row);
    }
}

/// The rows of a layout state, the open one last.
pub open spec fn all_rows(st: Rows) -> Seq<Seq<Seg>> {
    st.rows.push(st.row)
}

/// Whether `text` begins with the first `n` characters of the indent `cont`.
pub open spec fn leads_with(text: Seq<char>, n: nat, cont: Seq<char>) -> bool {
    &&& n <= cont.len()
    &&& n <= text.len()
    &&& text.take(n as int) == cont.take(n as int)
}

/// The rows' text with the first `cuts[i]` characters of row `i` left out.
pub open spec fn unindented_text(rows: Seq<Seq<Seg>>, cuts: Seq<nat>) -> Seq<char>
    decreases rows.len(),
{
    if rows.len() == 0 {
        seq![]
    } else {
        unindented_text(rows.drop_last(), cuts.drop_last()) + row_text(rows.last()).skip(cuts.last() as int)
    }
}

/// The rows spell `text` once each row's leading indent is left out: row
/// `i` begins with the first `cuts[i]` characters of the continuation indent
/// `cont`, and the first row with none of them.
pub open spec fn spells_with_indents(rows: Seq<Seq<Seg>>, cuts: Seq<nat>, cont: Seq<char>, text: Seq<char>) -> bool {
    &&& cuts.len() == rows.len()
    &&& rows.len() > 0 ==> cuts[0] == 0
    &&& forall|i: int| 0 <= i < rows.len() ==> leads_with(row_text(#[trigger] rows[i]), cuts[i], cont)
    &&& unindented_text(rows, cuts) == text
}

/// A wrapped line loses nothing at `width` columns: its rows, each without
/// the leading run of the continuation indent that it begins with, spell the
/// line's graphemes in order, those wider than a row as their escapes.
pub open spec fn keeps_graphemes(line: LogicalLine, width: nat) -> bool {
    exists|cuts: Seq<nat>|
        spells_with_indents(
            line_rows(line, width),
            cuts,
            line.continuation@,
            shown(graphemes_of(concat(span_texts(line.spans@))), width),
        )
}

/// A continuation prefix is a leading run of the indent's text.
pub(crate) proof fn lemma_indent_prefix_leads(gs: Seq<Seq<char>>, used: nat, room: nat, width: nat)
    ensures
        indent_prefix(gs, used, room, width).len() <= concat(gs).len(),
        concat(gs).take(indent_prefix(gs, used, room, width).len() as int) == indent_prefix(gs, used, room, width),
    decreases gs.len(),
{
    if gs.len() > 0 && used + display_width(gs[0]) + room <= width {
        let rest = indent_prefix(gs.drop_first(), used + display_width(gs[0]), room, width);
        lemma_indent_prefix_leads(gs.drop_first(), used + display_width(gs[0]), room, width);
        lemma_concat_first(gs);
        let tail = concat(gs.drop_first());
        assert(tail.take(rest.len() as int) == rest);
        assert((gs[0] + tail).take((gs[0] + rest).len() as int) =~= gs[0] + rest);
    }
}

/// Placing a unit on a wrapped line adds exactly that unit to the text the
/// rows spell without their indents.
proof fn lemma_place_unit_spells(
    st: Rows,
    cuts: Seq<nat>,
    text: Seq<char>,
    unit: Seq<char>,
    style: TextStyle,
    link: Option<Seq<char>>,
    cont: Seq<char>,
    width: nat,
) -> (next: Seq<nat>)
    requires
        !st.stopped,
        concat(graphemes_of(cont)) == cont,
        spells_with_indents(all_rows(st), cuts, cont, text),
    ensures
        !place_unit(st, unit, style, link, cont, width, false).stopped,
        spells_with_indents(all_rows(place_unit(st, unit, style, link, cont, width, false)), next, cont, text + unit),
{
    let seg = Seg { text: unit, style, link };
    let after = place_unit(st, unit, style, link, cont, width, false);
    let old_rows = all_rows(st);
    let new_rows = all_rows(after);
    if st.columns + display_width(unit) > width {
        let p = indent_prefix(graphemes_of(cont), 0, display_width(unit), width);
        lemma_indent_prefix_leads(graphemes_of(cont), 0, display_width(unit), width);
        let lead = Seg { text: p, style: plain_style(), link: None };
        lemma_append_text(seq![], lead);
        let first = append(seq![], lead);
        lemma_append_text(first, seg);
        assert(row_text(first) =~= p);
        assert(row_text(after.row) =~= p + unit);
        let next = cuts.push(p.len());
        assert(new_rows.drop_last() =~= old_rows);
        assert(next.drop_last() =~= cuts);
        assert((p + unit).take(p.len() as int) =~= p);
        assert((p + unit).skip(p.len() as int) =~= unit);
        assert forall|i: int| 0 <= i < new_rows.len() implies leads_with(row_text(#[trigger] new_rows[i]), next[i], cont) by {
            if i < old_rows.len() {
                assert(new_rows[i] == old_rows[i]);
            }
        }
        assert(unindented_text(new_rows, next) == text + unit);
        next
    } else {
        lemma_append_text(st.row, seg);
        let c = cuts.last();
        let before = row_text(st.row);
        assert(new_rows.drop_last() =~= old_rows.drop_last());
        assert(row_text(after.row) == before + unit);
        assert((before + unit).take(c as int) =~= before.take(c as int));
        assert((before + unit).skip(c as int) =~= before.skip(c as int) + unit);
        assert forall|i: int| 0 <= i < new_rows.len() implies leads_with(row_text(#[trigger] new_rows[i]), cuts[i], cont) by {
            if i < old_rows.len() - 1 {
                assert(new_rows[i] == old_rows[i]);
            }
        }
        assert(unindented_text(new_rows, cuts) =~= unindented_text(old_rows.drop_last(), cuts.drop_last()) + before.skip(c as int) + unit);
        cuts
    }
}

proof fn lemma_place_chars_spells(
    st: Rows,
    cuts: Seq<nat>,
    text: Seq<char>,
    cs: Seq<char>,
    style: TextStyle,
    link: Option<Seq<char>>,
    cont: Seq<char>,
    width: nat,
) -> (next: Seq<nat>)
    requires
        !st.stopped,
        concat(graphemes_of(cont)) == cont,
        spells_with_indents(all_rows(st), cuts, cont, text),
    ensures
        !place_chars(st, cs, style, link, cont, width, false).stopped,
        spells_with_indents(all_rows(place_chars(st, cs, style, link, cont, width, false)), next, cont, text + cs),
    decreases cs.len(),
{
    if cs.len() > 0 {
        let mid = place_unit(st, seq![cs[0]], style, link, cont, width, false);
        let cuts1 = lemma_place_unit_spells(st, cuts, text, seq![cs[0]], style, link, cont, width);
        let next = lemma_place_chars_spells(mid, cuts1, text + seq![cs[0]], cs.drop_first(), style, link, cont, width);
        assert(text + seq![cs[0]] + cs.drop_first() =~= text + cs);
        next
    } else {
        assert(text + cs =~= text);
        cuts
    }
}

proof fn lemma_place_graphemes_spells(st: Rows, cuts: Seq<nat>, text: Seq<char>, gs: Seq<Seq<char>>, offset: nat, line: LogicalLine, width: nat) -> (next: Seq<nat>)
    requires
        !st.stopped,
        !line.clip,
        concat(graphemes_of(line.continuation@)) == line.continuation@,
        spells_with_indents(all_rows(st), cuts, line.continuation@, text),
    ensures
        spells_with_indents(all_rows(place_graphemes(st, gs, offset, line, width)), next, line.continuation@, text + shown(gs, width)),
    decreases gs.len(),
{
    if gs.len() > 0 {
        let span = seg_of(line.spans@[span_at(line.spans@, offset)]);
        let g = gs[0];
        let piece = if display_width(g) > width { escape_all(g) } else { g };
        let mid = if display_width(g) > width {
            place_chars(st, escape_all(g), span.style, span.link, line.continuation@, width, line.clip)
        } else {
            place_unit(st, g, span.style, span.link, line.continuation@, width, line.clip)
        };
        let cuts1 = if display_width(g) > width {
            lemma_place_chars_spells(st, cuts, text, escape_all(g), span.style, span.link, line.continuation@, width)
        } else {
            lemma_place_unit_spells(st, cuts, text, g, span.style, span.link, line.continuation@, width)
        };
        let next = lemma_place_graphemes_spells(mid, cuts1, text + piece, gs.drop_first(), offset + g.len(), line, width);
        assert(text + piece + shown(gs.drop_first(), width) =~= text + shown(gs, width));
        next
    } else {
        assert(text + shown(gs, width) =~= text);
        cuts
    }
}

/// A wrapped line loses nothing: its rows, each without its leading
/// continuation indent, spell its graphemes in order, each wider than a row
/// shown as its escapes.
proof fn lemma_wrapped_line_spells(line: LogicalLine, width: nat)
    requires
        !line.clip,
        concat(graphemes_of(line.continuation@)) == line.continuation@,
    ensures
        keeps_graphemes(line, width),
{
    let text = concat(span_texts(line.spans@));
    let start = rows_start();
    let cuts0: Seq<nat> = seq![0];
    assert(all_rows(start) =~= seq![Seq::<Seg>::empty()]);
    assert(all_rows(start).drop_last() =~= Seq::<Seq<Seg>>::empty());
    assert(cuts0.drop_last() =~= Seq::<nat>::empty());
    assert(row_text(Seq::<Seg>::empty()).skip(0) =~= Seq::<char>::empty());
    assert(Seq::<char>::empty().take(0) =~= line.continuation@.take(0));
    assert(unindented_text(Seq::<Seq<Seg>>::empty(), Seq::<nat>::empty()) == Seq::<char>::empty());
    assert(row_text(Seq::<Seg>::empty()) == Seq::<char>::empty());
    assert(unindented_text(all_rows(start), cuts0) =~= Seq::<char>::empty());
    assert(spells_with_indents(all_rows(start), cuts0, line.continuation@, seq![]));
    let cuts = lemma_place_graphemes_spells(start, cuts0, seq![], graphemes_of(text), 0, line, width);
    assert(Seq::<char>::empty() + shown(graphemes_of(text), width) =~= shown(graphemes_of(text), width));
    let st = place_graphemes(start, graphemes_of(text), 0, line, width);
    assert(all_rows(st) == line_rows(line, width));
    assert(spells_with_indents(line_rows(line, width), cuts, line.continuation@, shown(graphemes_of(text), width)));
}

/// The uppercase hexadecimal digit for a value below 16.
pub open spec fn upper_hex(d: nat) -> char {
    if d < 10 {
        (('0' as u32) + d) as char
    } else {
        (('A' as u32) + d - 10) as char
    }
}

/// A byte as `%XX`.
pub open spec fn percent(b: nat) -> Seq<char> {
    seq!['%', upper_hex(b / 16), upper_hex(b % 16)]
}

/// How a link destination shows one character: a control character as its
/// UTF-8 bytes percent-encoded, any other as itself.
pub open spec fn destination_char(c: char) -> Seq<char> {
    if crate::text::is_control(c) {
        if (c as u32) < 0x80 {
            percent(c as u32 as nat)
        } else {
            percent(0xC2) + percent(c as u32 as nat)
        }
    } else {
        seq![c]
    }
}

pub open spec fn destination_text(s: Seq<char>) -> Seq<char>
    decreases s.len(),
{
    if s.len() == 0 {
        seq![]
    } else {
        destination_text(s.drop_last()) + destination_char(s.last())
    }
}

fn push_percent(out: &mut String, b: u32)
    requires
        b < 256,
    ensures
        final(out)@ == old(out)@ + percent(b as nat),
{
    let hi = b / 16;
    let lo = b % 16;
    push_char(out, '%');
    push_char(out, if hi < 10 { char_from_offset('0', hi) } else { char_from_offset('A', hi - 10) });
    push_char(out, if lo < 10 { char_from_offset('0', lo) } else { char_from_offset('A', lo - 10) });
    assert(final(out)@ =~= old(out)@ + percent(b as nat));
}

/// A link destination as it may stand inside a terminal hyperlink command:
/// control characters are percent-encoded, so a destination can neither end
/// the command nor start another.
pub fn link_destination(link: &str) -> (s: String)
    ensures
        s@ == destination_text(link@),
{
    let cs = chars_of(link);
    let mut s = String::new();
    let mut i: usize = 0;
    while i < cs.len()
        invariant
            i <= cs@.len(),
            cs@ == link@,
            s@ == destination_text(cs@.take(i as int)),
        decreases cs.len() - i,
    {
        let c = cs[i];
        assert(cs@.take(i + 1).drop_last() =~= cs@.take(i as int));
        if crate::text::char_is_control(c) {
            let u = c as u32;
            if u < 0x80 {
                push_percent(&mut s, u);
            } else {
                push_percent(&mut s, 0xC2);
                push_percent(&mut s, u);
            }
        } else {
            push_char(&mut s, c);
        }
        i += 1;
    }
    assert(cs@.take(i as int) =~= link@);
    s
}

} // verus!
