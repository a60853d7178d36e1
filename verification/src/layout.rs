//! The prompt's layout at one terminal width: wrapped display rows and the
//! cursor's place among them. Height, wrapping and cursor placement all come
//! from this one projection.

use vstd::prelude::*;

use crate::render::escape_all;
use crate::text::{chars_of, push_char, push_escape_unicode, push_str};
use crate::unicode::{display_width, graphemes, graphemes_of};

verus! {

/// Layout in progress: display rows, the cursor's row and column, and the
/// columns the last row occupies.
pub struct Layout {
    pub lines: Seq<Seq<char>>,
    pub cursor: (nat, nat),
    pub column: nat,
}

/// Places one glyph of `size` columns, moving to a new row when it does not
/// fit; a marked glyph carries the cursor.
pub open spec fn place(st: Layout, glyph: Seq<char>, size: nat, width: nat, mark: bool) -> Layout {
    let st = if st.column + size > width {
        Layout { lines: st.lines.push(seq![]), column: 0, ..st }
    } else {
        st
    };
    let st = if mark {
        Layout { cursor: ((st.lines.len() - 1) as nat, st.column), ..st }
    } else {
        st
    };
    Layout { lines: st.lines.update(st.lines.len() - 1, st.lines.last() + glyph), column: st.column + size, ..st }
}

/// Places characters as single-column glyphs; only the first may be marked.
pub open spec fn place_narrow(st: Layout, cs: Seq<char>, width: nat, mark: bool) -> Layout
    decreases cs.len(),
{
    if cs.len() == 0 {
        st
    } else {
        place_narrow(place(st, seq![cs[0]], 1, width, mark), cs.drop_first(), width, false)
    }
}

/// The spaces a tab takes at `column`: up to the next multiple of four.
pub open spec fn tab_spaces(column: nat) -> Seq<char> {
    Seq::new((4 - column % 4) as nat, |i: int| ' ')
}

/// Places one grapheme: a tab as spaces to the next stop, a grapheme wider
/// than the row as its escapes (keeping its identity rather than losing it),
/// any other as itself.
pub open spec fn place_grapheme(st: Layout, g: Seq<char>, width: nat, mark: bool) -> Layout {
    if g == seq!['\t'] {
        place_narrow(st, tab_spaces(st.column), width, mark)
    } else if display_width(g) > width {
        place_narrow(st, escape_all(g), width, mark)
    } else {
        place(st, g, display_width(g), width, mark)
    }
}

/// Places a row's graphemes; the grapheme starting at the cursor's
/// character offset carries it. Also yields the row's length in characters.
pub open spec fn place_graphemes(
    st: Layout,
    gs: Seq<Seq<char>>,
    row: nat,
    scalar: nat,
    pos: (nat, nat),
    width: nat,
) -> (Layout, nat)
    decreases gs.len(),
{
    if gs.len() == 0 {
        (st, scalar)
    } else {
        place_graphemes(
            place_grapheme(st, gs[0], width, pos == (row, scalar)),
            gs.drop_first(),
            row,
            scalar + gs[0].len(),
            pos,
            width,
        )
    }
}

/// A cursor at the end of a row sits after its last glyph, on a new row
/// when that one is full.
pub open spec fn end_row(st: Layout, row: nat, scalar: nat, pos: (nat, nat), width: nat) -> Layout {
    if pos == (row, scalar) {
        let st = if st.column == width {
            Layout { lines: st.lines.push(seq![]), column: 0, ..st }
        } else {
            st
        };
        Layout { cursor: ((st.lines.len() - 1) as nat, st.column), ..st }
    } else {
        st
    }
}

/// Lays out the prompt's lines from `row` on; each line after the first
/// starts a new display row.
pub open spec fn place_rows(st: Layout, rows: Seq<Seq<char>>, row: nat, pos: (nat, nat), width: nat) -> Layout
    decreases rows.len(),
{
    if rows.len() == 0 {
        st
    } else {
        let st = if row > 0 {
            Layout { lines: st.lines.push(seq![]), column: 0, ..st }
        } else {
            Layout { column: 0, ..st }
        };
        let (st, end) = place_graphemes(st, graphemes_of(rows[0]), row, 0, pos, width);
        place_rows(end_row(st, row, end, pos, width), rows.drop_first(), row + 1, pos, width)
    }
}

/// The layout of prompt lines with the cursor at `pos` (line, character
/// offset), in rows of `width` columns.
pub open spec fn input_layout(rows: Seq<Seq<char>>, pos: (nat, nat), width: nat) -> Layout {
    place_rows(Layout { lines: seq![seq![]], cursor: (0, 0), column: 0 }, rows, 0, pos, width)
}

proof fn lemma_place_keeps_rows(st: Layout, glyph: Seq<char>, size: nat, width: nat, mark: bool)
    requires
        st.lines.len() >= 1,
    ensures
        place(st, glyph, size, width, mark).lines.len() >= st.lines.len(),
{
}

proof fn lemma_place_narrow_keeps_rows(st: Layout, cs: Seq<char>, width: nat, mark: bool)
    requires
        st.lines.len() >= 1,
    ensures
        place_narrow(st, cs, width, mark).lines.len() >= st.lines.len(),
    decreases cs.len(),
{
    if cs.len() > 0 {
        let next = place(st, seq![cs[0]], 1, width, mark);
        lemma_place_keeps_rows(st, seq![cs[0]], 1, width, mark);
        lemma_place_narrow_keeps_rows(next, cs.drop_first(), width, false);
    }
}

proof fn lemma_place_graphemes_keeps_rows(st: Layout, gs: Seq<Seq<char>>, row: nat, scalar: nat, pos: (nat, nat), width: nat)
    requires
        st.lines.len() >= 1,
    ensures
        place_graphemes(st, gs, row, scalar, pos, width).0.lines.len() >= st.lines.len(),
    decreases gs.len(),
{
    if gs.len() > 0 {
        let g = gs[0];
        let mark = pos == (row, scalar);
        if g == seq!['\t'] {
            lemma_place_narrow_keeps_rows(st, tab_spaces(st.column), width, mark);
        } else if display_width(g) > width {
            lemma_place_narrow_keeps_rows(st, escape_all(g), width, mark);
        } else {
            lemma_place_keeps_rows(st, g, display_width(g), width, mark);
        }
        let next = place_grapheme(st, g, width, mark);
        lemma_place_graphemes_keeps_rows(next, gs.drop_first(), row, scalar + g.len(), pos, width);
    }
}

proof fn lemma_place_rows_keeps_rows(st: Layout, rows: Seq<Seq<char>>, row: nat, pos: (nat, nat), width: nat)
    requires
        st.lines.len() >= 1,
    ensures
        place_rows(st, rows, row, pos, width).lines.len() >= st.lines.len(),
    decreases rows.len(),
{
    if rows.len() > 0 {
        let st1 = if row > 0 {
            Layout { lines: st.lines.push(seq![]), column: 0, ..st }
        } else {
            Layout { column: 0, ..st }
        };
        lemma_place_graphemes_keeps_rows(st1, graphemes_of(rows[0]), row, 0, pos, width);
        let (st2, end) = place_graphemes(st1, graphemes_of(rows[0]), row, 0, pos, width);
        let st3 = end_row(st2, row, end, pos, width);
        lemma_place_rows_keeps_rows(st3, rows.drop_first(), row + 1, pos, width);
    }
}

/// A prompt always occupies at least one row, even when it is empty.
pub proof fn lemma_layout_has_a_row(rows: Seq<Seq<char>>, pos: (nat, nat), width: nat)
    ensures
        input_layout(rows, pos, width).lines.len() >= 1,
{
    lemma_place_rows_keeps_rows(Layout { lines: seq![seq![]], cursor: (0, 0), column: 0 }, rows, 0, pos, width);
}

/// The prompt's prefix width at a terminal width: two columns, keeping at
/// least one column for content.
pub open spec fn prefix_width(width: nat) -> nat {
    let p = if width >= 1 { (width - 1) as nat } else { 0 };
    if p < 2 {
        p
    } else {
        2
    }
}

/// The content width at a terminal width: what the prefix leaves, at least one.
pub open spec fn content_width(width: nat) -> nat {
    let c = width - prefix_width(width);
    if c < 1 {
        1
    } else {
        c as nat
    }
}

/// The prompt's layout at one width: rebuilt for each draw, never edited.
pub struct InputLayout {
    lines: Vec<String>,
    cursor: (usize, u16),
    prefix: u16,
}

/// The working state of a layout.
struct Placing {
    lines: Vec<String>,
    cursor: (usize, u16),
    column: usize,
}

impl Placing {
    spec fn view(&self) -> Layout {
        Layout {
            lines: self.lines@.map_values(|l: String| l@),
            cursor: (self.cursor.0 as nat, self.cursor.1 as nat),
            column: self.column as nat,
        }
    }

    spec fn ok(&self, width: nat) -> bool {
        &&& self.lines@.len() > 0
        &&& self.column <= width
        &&& 1 <= width <= 65535
    }

    fn new_row(&mut self)
        requires
            old(self).lines@.len() > 0,
        ensures
            final(self).view() == (Layout { lines: old(self).view().lines.push(seq![]), column: 0, ..old(self).view() }),
            final(self).lines@.len() > 0,
    {
        self.lines.push(String::new());
        self.column = 0;
        assert(self.view().lines =~= old(self).view().lines.push(seq![]));
    }

    fn place(&mut self, glyph: &str, size: usize, width: usize, mark: bool)
        requires
            old(self).ok(width as nat),
            size <= width,
        ensures
            final(self).ok(width as nat),
            final(self).view() == place(old(self).view(), glyph@, size as nat, width as nat, mark),
    {
        if self.column + size > width {
            self.new_row();
        }
        if mark {
            self.cursor = (self.lines.len() - 1, self.column as u16);
        }
        let ghost before = self.view();
        let last = self.lines.len() - 1;
        let mut line = self.lines.remove(last);
        push_str(&mut line, glyph);
        self.lines.push(line);
        self.column = self.column + size;
        assert(self.view().lines =~= before.lines.update(before.lines.len() - 1, before.lines.last() + glyph@));
    }

    fn place_narrow(&mut self, cs: &Vec<char>, width: usize, mark: bool)
        requires
            old(self).ok(width as nat),
        ensures
            final(self).ok(width as nat),
            final(self).view() == place_narrow(old(self).view(), cs@, width as nat, mark),
    {
        let mut k: usize = 0;
        let mut m = mark;
        assert(cs@.skip(0) =~= cs@);
        while k < cs.len()
            invariant
                k <= cs@.len(),
                self.ok(width as nat),
                place_narrow(old(self).view(), cs@, width as nat, mark) == place_narrow(
                    self.view(),
                    cs@.skip(k as int),
                    width as nat,
                    m,
                ),
                k > 0 ==> !m,
            decreases cs.len() - k,
        {
            let mut g = String::new();
            push_char(&mut g, cs[k]);
            assert(g@ =~= seq![cs@[k as int]]);
            assert(cs@.skip(k as int)[0] == cs@[k as int]);
            assert(cs@.skip(k as int).drop_first() =~= cs@.skip(k + 1));
            self.place(g.as_str(), 1, width, m);
            m = false;
            k += 1;
        }
    }
}

impl InputLayout {
    pub closed spec fn rows(&self) -> Seq<Seq<char>> {
        self.lines@.map_values(|l: String| l@)
    }

    pub closed spec fn cursor_spec(&self) -> (nat, nat) {
        (self.cursor.0 as nat, self.cursor.1 as nat)
    }

    pub closed spec fn prefix_spec(&self) -> nat {
        self.prefix as nat
    }

    /// Lays out prompt lines, with the cursor at `cursor` (line, character
    /// offset), for a terminal `width` columns wide.
    pub fn new(lines: &[String], cursor: (usize, usize), width: u16) -> (l: Self)
        ensures
            l.prefix_spec() == prefix_width(width as nat),
            ({
                let lay = input_layout(
                    lines@.map_values(|s: String| s@),
                    (cursor.0 as nat, cursor.1 as nat),
                    content_width(width as nat),
                );
                l.rows() == lay.lines && l.cursor_spec() == lay.cursor
            }),
            l.rows().len() >= 1,
    {
        proof {
            lemma_layout_has_a_row(lines@.map_values(|s: String| s@), (cursor.0 as nat, cursor.1 as nat), content_width(width as nat));
        }
        let p = if width >= 1 { width - 1 } else { 0 };
        let prefix: u16 = if p < 2 { p } else { 2 };
        let c = width - prefix;
        let cols: usize = if c < 1 { 1 } else { c as usize };
        let ghost rows = lines@.map_values(|s: String| s@);
        let ghost pos = (cursor.0 as nat, cursor.1 as nat);
        let mut st = Placing { lines: Vec::new(), cursor: (0, 0), column: 0 };
        st.lines.push(String::new());
        assert(st.view() == (Layout { lines: seq![seq![]], cursor: (0, 0), column: 0 })) by {
            assert(st.view().lines =~= seq![Seq::<char>::empty()]);
        }
        let mut row: usize = 0;
        assert(rows.skip(0) =~= rows);
        while row < lines.len()
            invariant
                row <= lines@.len(),
                pos == (cursor.0 as nat, cursor.1 as nat),
                rows == lines@.map_values(|s: String| s@),
                cols == content_width(width as nat),
                st.ok(cols as nat),
                input_layout(rows, pos, cols as nat) == place_rows(st.view(), rows.skip(row as int), row as nat, pos, cols as nat),
            decreases lines.len() - row,
        {
            assert(rows.skip(row as int)[0] == lines@[row as int]@);
            assert(rows.skip(row as int).drop_first() =~= rows.skip(row + 1));
            if row > 0 {
                st.new_row();
            } else {
                st.column = 0;
            }
            let gs = graphemes(lines[row].as_str());
            let ghost gv = gs@.map_values(|g: String| g@);
            let ghost row_start = st.view();
            assert(gv == graphemes_of(rows.skip(row as int)[0]));
            let mut j: usize = 0;
            let mut scalar: usize = 0;
            let total = chars_of(lines[row].as_str()).len();
            assert(gv.skip(0) =~= gv);
            while j < gs.len()
                invariant
                    j <= gs@.len(),
                    row < lines@.len(),
                    pos == (cursor.0 as nat, cursor.1 as nat),
                    gv == gs@.map_values(|g: String| g@),
                    cols == content_width(width as nat),
                    st.ok(cols as nat),
                    scalar <= total,
                    crate::unicode::concat(gv) == lines@[row as int]@,
                    scalar == crate::unicode::concat(gv.take(j as int)).len(),
                    total == lines@[row as int]@.len(),
                    place_graphemes(row_start, gv, row as nat, 0, pos, cols as nat) == place_graphemes(
                        st.view(),
                        gv.skip(j as int),
                        row as nat,
                        scalar as nat,
                        pos,
                        cols as nat,
                    ),
                decreases gs.len() - j,
            {
                let g = &gs[j];
                let mark = cursor.0 == row && cursor.1 == scalar;
                assert(gv.skip(j as int)[0] == g@);
                assert(gv.skip(j as int).drop_first() =~= gv.skip(j + 1));
                let gc = chars_of(g.as_str());
                if gc.len() == 1 && gc[0] == '\t' {
                    assert(g@ =~= seq!['\t']);
                    let n: usize = 4 - st.column % 4;
                    let mut spaces: Vec<char> = Vec::new();
                    let mut t: usize = 0;
                    while t < n
                        invariant
                            t <= n,
                            spaces@ =~= Seq::new(t as nat, |i: int| ' '),
                        decreases n - t,
                    {
                        spaces.push(' ');
                        t += 1;
                    }
                    assert(spaces@ =~= tab_spaces(st.column as nat));
                    st.place_narrow(&spaces, cols, mark);
                } else {
                    if gc.len() == 1 {
                        assert(g@ =~= seq![gc@[0]]);
                    } else {
                        assert(g@ != seq!['\t']) by {
                            assert(g@.len() != 1);
                        }
                    }
                    let size = crate::unicode::width(g.as_str());
                    if size > cols {
                        let mut esc = String::new();
                        let mut q: usize = 0;
                        while q < gc.len()
                            invariant
                                q <= gc@.len(),
                                esc@ == escape_all(gc@.take(q as int)),
                            decreases gc.len() - q,
                        {
                            assert(gc@.take(q + 1).drop_last() =~= gc@.take(q as int));
                            push_escape_unicode(&mut esc, gc[q]);
                            q += 1;
                        }
                        assert(gc@.take(gc@.len() as int) =~= gc@);
                        let ec = chars_of(esc.as_str());
                        st.place_narrow(&ec, cols, mark);
                    } else {
                        st.place(g.as_str(), size, cols, mark);
                    }
                }
                proof {
                    assert(gv.take(j + 1).drop_last() =~= gv.take(j as int));
                    crate::editor::lemma_concat_bound(gv, j + 1);
                }
                scalar = scalar + gc.len();
                j += 1;
            }
            assert(gv.take(gs@.len() as int) =~= gv);
            assert(gv.skip(gs@.len() as int) =~= Seq::<Seq<char>>::empty());
            assert(place_graphemes(row_start, gv, row as nat, 0, pos, cols as nat) == (st.view(), scalar as nat));
            let ghost before_end = st.view();
            if cursor.0 == row && cursor.1 == scalar {
                if st.column == cols {
                    st.new_row();
                }
                st.cursor = (st.lines.len() - 1, st.column as u16);
            }
            assert(st.view() == end_row(before_end, row as nat, scalar as nat, pos, cols as nat));
            row += 1;
        }
        InputLayout { lines: st.lines, cursor: st.cursor, prefix }
    }

    /// The rows the prompt occupies, at most eight (and at least one for a
    /// layout from `new`).
    pub fn height(&self) -> (h: u16)
        ensures
            h == if self.rows().len() < 8 { self.rows().len() } else { 8 },
            self.rows().len() >= 1 ==> 1 <= h <= 8,
    {
        if self.lines.len() < 8 {
            self.lines.len() as u16
        } else {
            8
        }
    }

    pub fn lines(&self) -> (v: &Vec<String>)
        ensures
            v@.map_values(|l: String| l@) == self.rows(),
    {
        &self.lines
    }

    /// The cursor's display row and column.
    pub fn cursor(&self) -> (c: (usize, u16))
        ensures
            (c.0 as nat, c.1 as nat) == self.cursor_spec(),
    {
        self.cursor
    }

    pub fn prefix(&self) -> (p: u16)
        ensures
            p == self.prefix_spec(),
    {
        self.prefix
    }
}

} // verus!
