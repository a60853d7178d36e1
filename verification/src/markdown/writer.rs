//! Markdown events into finished blocks of styled logical lines. List items
//! get hanging indents, quotes keep their marker on every line, code blocks
//! are highlighted line by line, and tables are aligned and clipped.

use vstd::prelude::*;

use super::events::{Align, CodeKind, MarkdownEvent, MarkdownTag, MarkdownTagEnd};
use super::highlight::{
    CodeHighlighter, Region, SyntaxAssets, highlight_line, line_regions_of, syntax_known, theme_known,
};
use super::{
    append, append_segment, copy_link, lemma_append_text, link_view, patch, plain, plain_style, row_of, row_text,
    seg_of, Block, Color,
    LogicalLine, Seg, Segment, TextStyle, BOLD, CROSSED_OUT, DIM,
    ITALIC, UNDERLINED,
};
use crate::render::{safe_seq, safe_text};
use crate::text::{
    char_is_white_space, chars_of, decimal_digits, is_white_space, push_char, push_decimal, push_str,
};
use crate::unicode::{concat, display_width, lemma_concat_push};

verus! {

/// A logical line as values.
pub struct LineV {
    pub spans: Seq<Seg>,
    pub continuation: Seq<char>,
    pub clip: bool,
}

pub open spec fn line_view(l: LogicalLine) -> LineV {
    LineV { spans: row_of(l.spans@), continuation: l.continuation@, clip: l.clip }
}

pub open spec fn lines_view(ls: Seq<LogicalLine>) -> Seq<LineV> {
    ls.map_values(|l: LogicalLine| line_view(l))
}

/// The renderer's state: finished lines, the open line, the style stack,
/// the open link, the line prefixes of enclosing quotes and items, and the
/// next number of each enclosing list (none for bulleted lists).
pub struct W {
    pub lines: Seq<LineV>,
    pub current: Seq<Seg>,
    pub styles: Seq<TextStyle>,
    pub link: Option<Seq<char>>,
    pub prefixes: Seq<Seq<char>>,
    pub lists: Seq<Option<u64>>,
}

pub open spec fn fresh() -> W {
    W { lines: seq![], current: seq![], styles: seq![], link: None, prefixes: seq![], lists: seq![] }
}

pub open spec fn style_of(w: W) -> TextStyle {
    if w.styles.len() == 0 {
        plain_style()
    } else {
        w.styles.last()
    }
}

/// Opens a style laid over the current one.
pub open spec fn styled(w: W, s: TextStyle) -> W {
    W { styles: w.styles.push(super::patch_spec(style_of(w), s)), ..w }
}

/// Closes the innermost style, if any.
pub open spec fn unstyled(w: W) -> W {
    W { styles: if w.styles.len() > 0 { w.styles.drop_last() } else { w.styles }, ..w }
}

pub open spec fn drop_prefix(w: W) -> W {
    W { prefixes: if w.prefixes.len() > 0 { w.prefixes.drop_last() } else { w.prefixes }, ..w }
}

pub open spec fn drop_list(w: W) -> W {
    W { lists: if w.lists.len() > 0 { w.lists.drop_last() } else { w.lists }, ..w }
}

/// The prefix every line starts with at this depth.
pub open spec fn prefix(w: W) -> Seq<char> {
    concat(w.prefixes)
}

/// Ends the open line, if it has content or a blank line is wanted.
pub open spec fn newline(w: W, blank: bool) -> W {
    if w.current.len() > 0 || blank {
        W {
            lines: w.lines.push(LineV { spans: w.current, continuation: prefix(w), clip: false }),
            current: seq![],
            ..w
        }
    } else {
        w
    }
}

/// Adds text without line feeds to the open line, which starts with the
/// prefix when it is empty.
pub open spec fn push_piece(w: W, piece: Seq<char>) -> W {
    let cur = if w.current.len() == 0 {
        append(seq![], Seg { text: prefix(w), style: plain_style(), link: None })
    } else {
        w.current
    };
    W { current: append(cur, Seg { text: piece, style: style_of(w), link: w.link }), ..w }
}

pub open spec fn push_pieces(w: W, ps: Seq<Seq<char>>, first: bool) -> W
    decreases ps.len(),
{
    if ps.len() == 0 {
        w
    } else {
        let w = if first { w } else { newline(w, false) };
        push_pieces(push_piece(w, ps[0]), ps.drop_first(), false)
    }
}

/// The pieces of a text between its line feeds.
pub open spec fn pieces(s: Seq<char>) -> Seq<Seq<char>>
    decreases s.len(),
{
    if s.len() == 0 {
        seq![seq![]]
    } else {
        let p = pieces(s.drop_last());
        if s.last() == '\n' {
            p.push(seq![])
        } else {
            p.update(p.len() - 1, p.last().push(s.last()))
        }
    }
}

/// Adds text, made terminal-safe; each line feed in it ends a line.
pub open spec fn push_text(w: W, t: Seq<char>) -> W {
    push_pieces(w, pieces(safe_seq(t)), true)
}

pub open spec fn heading_style() -> TextStyle {
    TextStyle { fg: Some(Color::LightCyan), modifiers: BOLD }
}

pub open spec fn link_style() -> TextStyle {
    TextStyle { fg: Some(Color::LightBlue), modifiers: UNDERLINED }
}

pub open spec fn code_style() -> TextStyle {
    TextStyle { fg: Some(Color::LightBlue), modifiers: 0 }
}

pub open spec fn flag_style(m: u16) -> TextStyle {
    TextStyle { fg: None, modifiers: m }
}

/// `n` spaces.
pub open spec fn spaces(n: nat) -> Seq<char> {
    Seq::new(n, |i: int| ' ')
}

/// A list item's marker and the lists after it: the next number of an
/// ordered list, which then counts on, or a bullet.
pub open spec fn item_marker(lists: Seq<Option<u64>>) -> (Seq<char>, Seq<Option<u64>>) {
    if lists.len() > 0 && lists.last() is Some {
        let n = lists.last()->0;
        (decimal_digits(n as nat) + ". "@, lists.update(lists.len() - 1, Some(if n == u64::MAX { n } else { (n + 1) as u64 })))
    } else {
        ("• "@, lists)
    }
}

/// Starts a list item: its marker, then a hanging indent as wide as it.
pub open spec fn start_item(w: W) -> W {
    let w = newline(w, false);
    let (marker, lists) = item_marker(w.lists);
    let w = push_text(W { lists, ..w }, marker);
    W { prefixes: w.prefixes.push(spaces(display_width(marker))), ..w }
}

/// What an event other than the start of a code block or table does.
pub open spec fn step(w: W, e: MarkdownEvent) -> W {
    match e {
        MarkdownEvent::Start(MarkdownTag::Heading) => styled(newline(w, false), heading_style()),
        MarkdownEvent::End(MarkdownTagEnd::Heading) => unstyled(newline(w, false)),
        MarkdownEvent::End(MarkdownTagEnd::Paragraph) => newline(w, false),
        MarkdownEvent::Start(MarkdownTag::Emphasis) => styled(w, flag_style(ITALIC)),
        MarkdownEvent::Start(MarkdownTag::Strong) => styled(w, flag_style(BOLD)),
        MarkdownEvent::Start(MarkdownTag::Strikethrough) => styled(w, flag_style(CROSSED_OUT)),
        MarkdownEvent::End(MarkdownTagEnd::Emphasis) => unstyled(w),
        MarkdownEvent::End(MarkdownTagEnd::Strong) => unstyled(w),
        MarkdownEvent::End(MarkdownTagEnd::Strikethrough) => unstyled(w),
        MarkdownEvent::Start(MarkdownTag::Link(dest)) => styled(W { link: Some(dest@), ..w }, link_style()),
        MarkdownEvent::End(MarkdownTagEnd::Link) => unstyled(W { link: None, ..w }),
        MarkdownEvent::Start(MarkdownTag::Image) => push_text(styled(w, flag_style(DIM)), "[img] "@),
        MarkdownEvent::End(MarkdownTagEnd::Image) => unstyled(w),
        MarkdownEvent::Start(MarkdownTag::BlockQuote) => {
            let w = newline(w, false);
            W { prefixes: w.prefixes.push("│ "@), ..w }
        },
        MarkdownEvent::End(MarkdownTagEnd::BlockQuote) => drop_prefix(newline(w, false)),
        MarkdownEvent::Start(MarkdownTag::List(start)) => {
            let w = newline(w, false);
            W { lists: w.lists.push(start), ..w }
        },
        MarkdownEvent::End(MarkdownTagEnd::List) => drop_list(newline(w, false)),
        MarkdownEvent::Start(MarkdownTag::Item) => start_item(w),
        MarkdownEvent::End(MarkdownTagEnd::Item) => drop_prefix(newline(w, false)),
        MarkdownEvent::TaskListMarker(checked) => push_text(w, if checked { "[x] "@ } else { "[ ] "@ }),
        MarkdownEvent::Code(t) => unstyled(push_text(styled(w, code_style()), t@)),
        MarkdownEvent::Text(t) => push_text(w, t@),
        MarkdownEvent::Literal(t) => push_text(w, t@),
        MarkdownEvent::SoftBreak => push_text(w, " "@),
        MarkdownEvent::HardBreak => newline(w, true),
        MarkdownEvent::Rule => newline(push_text(newline(w, false), "────"@), false),
        _ => w,
    }
}

/// The first whitespace-separated word of a text, if any.
pub open spec fn first_word(s: Seq<char>) -> Seq<char>
    decreases s.len(),
{
    if s.len() == 0 {
        seq![]
    } else if is_white_space(s[0]) {
        first_word(s.drop_first())
    } else {
        word_prefix(s)
    }
}

pub open spec fn word_prefix(s: Seq<char>) -> Seq<char>
    decreases s.len(),
{
    if s.len() == 0 || is_white_space(s[0]) {
        seq![]
    } else {
        seq![s[0]] + word_prefix(s.drop_first())
    }
}

/// A text split after each line feed; no piece is empty.
pub open spec fn inclusive_lines(s: Seq<char>) -> Seq<Seq<char>>
    decreases s.len(),
{
    if s.len() == 0 {
        seq![]
    } else {
        let p = inclusive_lines(s.drop_last());
        if p.len() > 0 && p.last().last() != '\n' {
            p.update(p.len() - 1, p.last().push(s.last()))
        } else {
            p.push(seq![s.last()])
        }
    }
}

/// A text without its trailing line feeds.
pub open spec fn trim_newlines(s: Seq<char>) -> Seq<char>
    decreases s.len(),
{
    if s.len() > 0 && s.last() == '\n' {
        trim_newlines(s.drop_last())
    } else {
        s
    }
}

/// Unhighlighted code: each line as text, then a line end.
pub open spec fn plain_code(w: W, lines: Seq<Seq<char>>) -> W
    decreases lines.len(),
{
    if lines.len() == 0 {
        w
    } else {
        plain_code(newline(push_text(w, trim_newlines(lines[0])), true), lines.drop_first())
    }
}

/// The style of a highlighted region: its colour, and bold, italic and
/// underline from its font flags.
pub open spec fn region_style(r: (u8, u8, u8, u8, Seq<char>)) -> TextStyle {
    TextStyle {
        fg: Some(Color::Rgb(r.0, r.1, r.2)),
        modifiers: (if r.3 & 1 != 0 { BOLD } else { 0 }) | (if r.3 & 4 != 0 { ITALIC } else { 0 }) | (if r.3
            & 2 != 0 {
            UNDERLINED
        } else {
            0
        }),
    }
}

pub open spec fn regions(w: W, rs: Seq<(u8, u8, u8, u8, Seq<char>)>) -> W
    decreases rs.len(),
{
    if rs.len() == 0 {
        w
    } else {
        regions(unstyled(push_text(styled(w, region_style(rs[0])), trim_newlines(rs[0].4))), rs.drop_first())
    }
}

/// Highlighted code: each line's regions, then a line end.
pub open spec fn highlighted_code(w: W, lines: Seq<Seq<(u8, u8, u8, u8, Seq<char>)>>) -> W
    decreases lines.len(),
{
    if lines.len() == 0 {
        w
    } else {
        highlighted_code(newline(regions(w, lines[0]), true), lines.drop_first())
    }
}

/// The theme code is highlighted with.
pub open spec fn code_theme() -> Seq<char> {
    "Solarized (light)"@
}

/// The regions of the first `n` lines, each highlighted after the lines
/// before it, or the first error.
pub open spec fn highlight_prefix(
    language: Seq<char>,
    theme: Seq<char>,
    lines: Seq<Seq<char>>,
    n: nat,
) -> Result<Seq<Seq<(u8, u8, u8, u8, Seq<char>)>>, Seq<char>>
    decreases n,
{
    if n == 0 {
        Ok(seq![])
    } else {
        match highlight_prefix(language, theme, lines, (n - 1) as nat) {
            Err(e) => Err(e),
            Ok(done) => match line_regions_of(language, theme, lines.take(n - 1), lines[n - 1]) {
                Err(e) => Err(e),
                Ok(r) => Ok(done.push(r)),
            },
        }
    }
}

/// A code block, split after each line feed: highlighted line by line when
/// its language and the theme are known, else plain.
pub open spec fn code(w: W, kind: CodeKind, text: Seq<char>) -> Result<W, Seq<char>> {
    let language = match kind {
        CodeKind::Fenced(info) => first_word(info@),
        CodeKind::Indented => seq![],
    };
    let lines = inclusive_lines(text);
    if syntax_known(language) && theme_known(code_theme()) {
        match highlight_prefix(language, code_theme(), lines, lines.len()) {
            Err(e) => Err(e),
            Ok(regions) => Ok(highlighted_code(w, regions)),
        }
    } else {
        Ok(plain_code(w, lines))
    }
}

/// Once highlighting fails, it stays failed with the same message.
proof fn lemma_highlight_error_stays(language: Seq<char>, theme: Seq<char>, lines: Seq<Seq<char>>, n: nat, m: nat)
    requires
        n <= m,
        highlight_prefix(language, theme, lines, n) is Err,
    ensures
        highlight_prefix(language, theme, lines, m) == highlight_prefix(language, theme, lines, n),
    decreases m - n,
{
    if n < m {
        lemma_highlight_error_stays(language, theme, lines, n, (m - 1) as nat);
    }
}

/// Highlighted code gains one line at its end.
proof fn lemma_highlighted_code_push(w: W, lines: Seq<Seq<(u8, u8, u8, u8, Seq<char>)>>, r: Seq<(u8, u8, u8, u8, Seq<char>)>)
    ensures
        highlighted_code(w, lines.push(r)) == newline(regions(highlighted_code(w, lines), r), true),
    decreases lines.len(),
{
    let empty = Seq::<Seq<(u8, u8, u8, u8, Seq<char>)>>::empty();
    if lines.len() == 0 {
        assert(lines.push(r).drop_first() =~= empty);
        assert(lines.push(r)[0] == r);
        assert(highlighted_code(newline(regions(w, r), true), empty) == newline(regions(w, r), true));
        assert(highlighted_code(w, lines) == w);
    } else {
        assert(lines.push(r).drop_first() =~= lines.drop_first().push(r));
        assert(lines.push(r)[0] == lines[0]);
        lemma_highlighted_code_push(newline(regions(w, lines[0]), true), lines.drop_first(), r);
    }
}

pub open spec fn ends_code(e: MarkdownEvent) -> bool {
    e == MarkdownEvent::End(MarkdownTagEnd::CodeBlock)
}

pub open spec fn ends_cell(e: MarkdownEvent) -> bool {
    e == MarkdownEvent::End(MarkdownTagEnd::TableCell)
}

/// The position of the first code block end (or cell end) at or after
/// `from`, or the length when there is none.
pub open spec fn find_end(evs: Seq<MarkdownEvent>, from: int, in_code: bool) -> int
    decreases evs.len() - from,
{
    if from < 0 || from >= evs.len() {
        evs.len() as int
    } else if (in_code && ends_code(evs[from])) || (!in_code && ends_cell(evs[from])) {
        from
    } else {
        find_end(evs, from + 1, in_code)
    }
}

/// The text of the text events in `[from, to)`.
pub open spec fn code_text(evs: Seq<MarkdownEvent>, from: int, to: int) -> Seq<char>
    decreases to - from,
{
    if from >= to || to > evs.len() || from < 0 {
        seq![]
    } else {
        code_text(evs, from, to - 1) + match evs[to - 1] {
            MarkdownEvent::Text(t) => t@,
            _ => seq![],
        }
    }
}

/// A rendered table cell: the spans of its lines, one after another.
pub open spec fn cell_spans(lines: Seq<LineV>) -> Seq<Seg>
    decreases lines.len(),
{
    if lines.len() == 0 {
        seq![]
    } else {
        lines[0].spans + cell_spans(lines.drop_first())
    }
}

pub open spec fn sat(n: nat) -> nat {
    if n > usize::MAX {
        usize::MAX as nat
    } else {
        n
    }
}

/// A cell's width: the widths of its spans, summed (saturating).
pub open spec fn cell_width(cell: Seq<Seg>) -> nat
    decreases cell.len(),
{
    if cell.len() == 0 {
        0
    } else {
        sat(cell_width(cell.drop_last()) + display_width(cell.last().text))
    }
}

/// The widest cell of column `c`; rows without that cell count as empty.
pub open spec fn column_width(rows: Seq<Seq<Seq<Seg>>>, c: int) -> nat
    decreases rows.len(),
{
    if rows.len() == 0 {
        0
    } else {
        let rest = column_width(rows.drop_last(), c);
        let here = if 0 <= c < rows.last().len() { cell_width(rows.last()[c]) } else { 0 };
        if here > rest { here } else { rest }
    }
}

pub open spec fn column_widths(rows: Seq<Seq<Seq<Seg>>>, columns: nat) -> Seq<nat> {
    Seq::new(columns, |c: int| column_width(rows, c))
}

/// A segment with the bold flag added.
pub open spec fn bolded(s: Seg) -> Seg {
    Seg { style: TextStyle { modifiers: s.style.modifiers | BOLD, ..s.style }, ..s }
}

pub open spec fn append_all(row: Seq<Seg>, spans: Seq<Seg>, bold: bool) -> Seq<Seg>
    decreases spans.len(),
{
    if spans.len() == 0 {
        row
    } else {
        append_all(append(row, if bold { bolded(spans[0]) } else { spans[0] }), spans.drop_first(), bold)
    }
}

pub open spec fn plain_seg(t: Seq<char>) -> Seg {
    Seg { text: t, style: plain_style(), link: None }
}

/// The padding left of a cell's content in a column of its alignment.
pub open spec fn left_padding(align: Align, padding: nat) -> nat {
    match align {
        Align::Right => padding,
        Align::Center => padding / 2,
        _ => 0,
    }
}

/// The spans of table row `index`, from column `c` on: each cell padded to
/// its column's width as its column is aligned, cells of the head row bold.
pub open spec fn cells_row(
    spans: Seq<Seg>,
    cells: Seq<Seq<Seg>>,
    c: int,
    widths: Seq<nat>,
    aligns: Seq<Align>,
    head: bool,
) -> Seq<Seg>
    decreases cells.len() - c,
{
    if c < 0 || c >= cells.len() {
        spans
    } else {
        let width = if c < widths.len() { widths[c] } else { 0 };
        let cw = cell_width(cells[c]);
        let padding: nat = if width > cw { (width - cw) as nat } else { 0 };
        let left = left_padding(if c < aligns.len() { aligns[c] } else { Align::Unspecified }, padding);
        let spans = append(spans, plain_seg(spaces(sat(left + 1))));
        let spans = append_all(spans, cells[c], head);
        let spans = append(spans, plain_seg(spaces(sat((padding - left + 1) as nat)) + "│"@));
        cells_row(spans, cells, c + 1, widths, aligns, head)
    }
}

/// Text joined with a separator.
pub open spec fn joined(parts: Seq<Seq<char>>, sep: Seq<char>) -> Seq<char>
    decreases parts.len(),
{
    if parts.len() == 0 {
        seq![]
    } else if parts.len() == 1 {
        parts[0]
    } else {
        joined(parts.drop_last(), sep) + sep + parts.last()
    }
}

/// A row's text starts with its first segment's.
proof fn lemma_row_text_first(row: Seq<Seg>)
    requires
        row.len() > 0,
    ensures
        row_text(row) == row[0].text + row_text(row.drop_first()),
    decreases row.len(),
{
    if row.len() == 1 {
        assert(row.drop_first() =~= Seq::<Seg>::empty());
        assert(row.drop_last() =~= Seq::<Seg>::empty());
        assert(row_text(Seq::<Seg>::empty()) == Seq::<char>::empty());
        assert(row_text(row) =~= row[0].text + row_text(row.drop_first()));
    } else {
        lemma_row_text_first(row.drop_last());
        assert(row.drop_last().drop_first() =~= row.drop_first().drop_last());
        assert(row.drop_first().last() == row.last());
        assert(row_text(row) =~= row[0].text + row_text(row.drop_first()));
    }
}

/// Appending a cell's spans, bold or not, appends their text.
proof fn lemma_append_all_text(row: Seq<Seg>, spans: Seq<Seg>, bold: bool)
    ensures
        row_text(append_all(row, spans, bold)) == row_text(row) + row_text(spans),
    decreases spans.len(),
{
    if spans.len() == 0 {
        assert(row_text(spans) == Seq::<char>::empty());
        assert(row_text(row) + row_text(spans) =~= row_text(row));
    } else {
        let s0 = if bold { bolded(spans[0]) } else { spans[0] };
        lemma_append_text(row, s0);
        lemma_append_all_text(append(row, s0), spans.drop_first(), bold);
        lemma_row_text_first(spans);
        assert(row_text(row) + s0.text + row_text(spans.drop_first()) =~= row_text(row) + row_text(spans));
    }
}

/// The text a row's cells from `c` on add does not depend on what the row
/// held before them.
proof fn lemma_cells_row_text(spans: Seq<Seg>, cells: Seq<Seq<Seg>>, c: int, widths: Seq<nat>, aligns: Seq<Align>, head: bool)
    ensures
        row_text(cells_row(spans, cells, c, widths, aligns, head)) == row_text(spans) + row_text(
            cells_row(seq![], cells, c, widths, aligns, head),
        ),
    decreases cells.len() - c,
{
    if c < 0 || c >= cells.len() {
        assert(row_text(Seq::<Seg>::empty()) == Seq::<char>::empty());
        assert(row_text(spans) + Seq::<char>::empty() =~= row_text(spans));
    } else {
        let width = if c < widths.len() { widths[c] } else { 0 };
        let cw = cell_width(cells[c]);
        let padding: nat = if width > cw { (width - cw) as nat } else { 0 };
        let left = left_padding(if c < aligns.len() { aligns[c] } else { Align::Unspecified }, padding);
        let p1 = plain_seg(spaces(sat(left + 1)));
        let p2 = plain_seg(spaces(sat((padding - left + 1) as nat)) + "│"@);
        let a1 = append(spans, p1);
        let a2 = append_all(a1, cells[c], head);
        let a3 = append(a2, p2);
        let b1 = append(seq![], p1);
        let b2 = append_all(b1, cells[c], head);
        let b3 = append(b2, p2);
        lemma_append_text(spans, p1);
        lemma_append_all_text(a1, cells[c], head);
        lemma_append_text(a2, p2);
        lemma_append_text(seq![], p1);
        lemma_append_all_text(b1, cells[c], head);
        lemma_append_text(b2, p2);
        assert(row_text(Seq::<Seg>::empty()) == Seq::<char>::empty());
        lemma_cells_row_text(a3, cells, c + 1, widths, aligns, head);
        lemma_cells_row_text(b3, cells, c + 1, widths, aligns, head);
        let rest = row_text(cells_row(seq![], cells, c + 1, widths, aligns, head));
        assert(row_text(a3) + rest =~= row_text(spans) + (row_text(b3) + rest));
    }
}

/// The text of one cell of a row, padded within its column: `before`
/// spaces, the cell's text, `after` spaces and the column rule.
pub open spec fn padded_cell(cell: Seq<Seg>, before: nat, after: nat) -> Seq<char> {
    spaces(before) + row_text(cell) + spaces(after) + "│"@
}

/// How a cell sits in its column, by the column's alignment: right-aligned
/// content ends one space before the column's right edge, centred content
/// has half the slack before it (rounded down), and any other content starts
/// one space after the left edge.
pub proof fn lemma_cell_alignment(
    spans: Seq<Seg>,
    cells: Seq<Seq<Seg>>,
    c: int,
    widths: Seq<nat>,
    aligns: Seq<Align>,
    head: bool,
)
    requires
        0 <= c < cells.len(),
        c < widths.len(),
        c < aligns.len(),
        cell_width(cells[c]) <= widths[c] < usize::MAX,
    ensures
        ({
            let slack = (widths[c] - cell_width(cells[c])) as nat;
            let rest = row_text(cells_row(seq![], cells, c + 1, widths, aligns, head));
            let here = row_text(cells_row(spans, cells, c, widths, aligns, head));
            &&& aligns[c] == Align::Right ==> here == row_text(spans) + padded_cell(cells[c], slack + 1, 1) + rest
            &&& aligns[c] == Align::Center ==> here == row_text(spans) + padded_cell(
                cells[c],
                slack / 2 + 1,
                (slack - slack / 2 + 1) as nat,
            ) + rest
            &&& (aligns[c] == Align::Left || aligns[c] == Align::Unspecified) ==> here == row_text(spans)
                + padded_cell(cells[c], 1, slack + 1) + rest
        }),
{
    let width = widths[c];
    let cw = cell_width(cells[c]);
    let padding: nat = (width - cw) as nat;
    let left = left_padding(aligns[c], padding);
    let p1 = plain_seg(spaces(sat(left + 1)));
    let p2 = plain_seg(spaces(sat((padding - left + 1) as nat)) + "│"@);
    let a1 = append(spans, p1);
    let a2 = append_all(a1, cells[c], head);
    let a3 = append(a2, p2);
    lemma_append_text(spans, p1);
    lemma_append_all_text(a1, cells[c], head);
    lemma_append_text(a2, p2);
    lemma_cells_row_text(a3, cells, c + 1, widths, aligns, head);
    let rest = row_text(cells_row(seq![], cells, c + 1, widths, aligns, head));
    assert(row_text(a3) + rest =~= row_text(spans) + padded_cell(cells[c], sat(left + 1), sat((padding - left + 1) as nat)) + rest);
}

/// The rule under a table's head row.
pub open spec fn rule_text(pre: Seq<char>, widths: Seq<nat>) -> Seq<char> {
    pre + "├"@ + joined(widths.map_values(|w: nat| Seq::new(sat(w + 2), |i: int| '─')), "┼"@) + "┤"@
}

/// The lines of a table's rows from `index` on.
pub open spec fn table_lines(pre: Seq<char>, rows: Seq<Seq<Seq<Seg>>>, index: int, widths: Seq<nat>, aligns: Seq<Align>) -> Seq<LineV>
    decreases rows.len() - index,
{
    if index < 0 || index >= rows.len() {
        seq![]
    } else {
        let spans = cells_row(seq![plain_seg(pre + "│"@)], rows[index], 0, widths, aligns, index == 0);
        let line = LineV { spans, continuation: seq![], clip: true };
        let here = if index == 0 {
            seq![line, LineV { spans: seq![plain_seg(rule_text(pre, widths))], continuation: seq![], clip: true }]
        } else {
            seq![line]
        };
        here + table_lines(pre, rows, index + 1, widths, aligns)
    }
}

/// Renders `evs` from `pos` on, then ends the open line. Code blocks and
/// tables take the events up to their end.
pub open spec fn render_from(w: W, evs: Seq<MarkdownEvent>, pos: int) -> Result<W, Seq<char>>
    decreases evs.len(), evs.len() - pos,
{
    if pos < 0 || pos >= evs.len() {
        Ok(newline(w, false))
    } else {
        match evs[pos] {
            MarkdownEvent::Start(MarkdownTag::CodeBlock(kind)) => {
                let end = find_end(evs, pos + 1, true);
                proof {
                    lemma_find_end(evs, pos + 1, true);
                }
                match code(newline(w, false), kind, code_text(evs, pos + 1, end)) {
                    Err(e) => Err(e),
                    Ok(w) => render_from(w, evs, if end < evs.len() { end + 1 } else { evs.len() as int }),
                }
            },
            MarkdownEvent::Start(MarkdownTag::Table(aligns)) => {
                let w = newline(w, false);
                match table_scan(evs, pos + 1, seq![], seq![]) {
                    Err(e) => Err(e),
                    Ok((rows, next)) => {
                        let t = table_lines(prefix(w), rows, 0, column_widths(rows, aligns@.len()), aligns@);
                        let next = if pos < next <= evs.len() { next } else { evs.len() as int };
                        render_from(W { lines: w.lines + t, ..w }, evs, next)
                    },
                }
            },
            e => render_from(step(w, e), evs, pos + 1),
        }
    }
}

/// Collects a table's rows of rendered cells from `pos` up to the table's
/// end; yields them and the position after the end.
pub open spec fn table_scan(
    evs: Seq<MarkdownEvent>,
    pos: int,
    rows: Seq<Seq<Seq<Seg>>>,
    row: Seq<Seq<Seg>>,
) -> Result<(Seq<Seq<Seq<Seg>>>, int), Seq<char>>
    decreases evs.len(), evs.len() - pos,
{
    if pos < 0 || pos >= evs.len() {
        Ok((rows, evs.len() as int))
    } else {
        match evs[pos] {
            MarkdownEvent::Start(MarkdownTag::TableCell) => {
                let end = find_end(evs, pos + 1, false);
                proof {
                    lemma_find_end(evs, pos + 1, false);
                }
                match render_from(fresh(), evs.subrange(pos + 1, end), 0) {
                    Err(e) => Err(e),
                    Ok(cw) => table_scan(
                        evs,
                        if end < evs.len() { end + 1 } else { evs.len() as int },
                        rows,
                        row.push(cell_spans(cw.lines)),
                    ),
                }
            },
            MarkdownEvent::End(MarkdownTagEnd::TableHead) => table_scan(evs, pos + 1, rows.push(row), seq![]),
            MarkdownEvent::End(MarkdownTagEnd::TableRow) => table_scan(evs, pos + 1, rows.push(row), seq![]),
            MarkdownEvent::End(MarkdownTagEnd::Table) => Ok((rows, pos + 1)),
            _ => table_scan(evs, pos + 1, rows, row),
        }
    }
}

pub proof fn lemma_find_end(evs: Seq<MarkdownEvent>, from: int, in_code: bool)
    requires
        0 <= from,
    ensures
        from <= evs.len() ==> from <= find_end(evs, from, in_code) <= evs.len(),
        from > evs.len() ==> find_end(evs, from, in_code) == evs.len(),
        find_end(evs, from, in_code) < evs.len() ==> (if in_code {
            ends_code(evs[find_end(evs, from, in_code)])
        } else {
            ends_cell(evs[find_end(evs, from, in_code)])
        }),
        forall|i: int|
            from <= i < find_end(evs, from, in_code) ==> !(if in_code {
                ends_code(#[trigger] evs[i])
            } else {
                ends_cell(evs[i])
            }),
    decreases evs.len() - from,
{
    if from < evs.len() && !((in_code && ends_code(evs[from])) || (!in_code && ends_cell(evs[from]))) {
        lemma_find_end(evs, from + 1, in_code);
    }
}

/// Where the top-level block starting at `pos` ends: after the event that
/// closes its first event, or after that event alone when it opens nothing.
pub open spec fn block_end(evs: Seq<MarkdownEvent>, pos: int, depth: nat) -> int
    decreases evs.len() - pos,
{
    if pos < 0 || pos >= evs.len() {
        evs.len() as int
    } else {
        let depth = match evs[pos] {
            MarkdownEvent::Start(_) => depth + 1,
            MarkdownEvent::End(_) => if depth > 0 { (depth - 1) as nat } else { 0 },
            _ => depth,
        };
        if depth == 0 {
            pos + 1
        } else {
            block_end(evs, pos + 1, depth)
        }
    }
}

/// The blocks of an event stream from `pos` on, each rendered on its own;
/// a block that fails to render is the last one given.
pub open spec fn blocks_from(evs: Seq<MarkdownEvent>, pos: int) -> Seq<Result<Seq<LineV>, Seq<char>>>
    decreases evs.len() - pos,
{
    if pos < 0 || pos >= evs.len() {
        seq![]
    } else {
        let end = block_end(evs, pos, 0);
        proof {
            lemma_block_end(evs, pos, 0);
        }
        match render_from(fresh(), evs.subrange(pos, end), 0) {
            Err(e) => seq![Err(e)],
            Ok(w) => seq![Ok(w.lines)] + blocks_from(evs, end),
        }
    }
}

pub proof fn lemma_block_end(evs: Seq<MarkdownEvent>, pos: int, depth: nat)
    requires
        0 <= pos < evs.len(),
    ensures
        pos < block_end(evs, pos, depth) <= evs.len(),
    decreases evs.len() - pos,
{
    let d = match evs[pos] {
        MarkdownEvent::Start(_) => depth + 1,
        MarkdownEvent::End(_) => if depth > 0 { (depth - 1) as nat } else { 0 },
        _ => depth,
    };
    if pos + 1 < evs.len() {
        lemma_block_end(evs, pos + 1, d);
    } else {
        assert(block_end(evs, pos + 1, d) == evs.len());
    }
}

/// The pieces of `s` between its line feeds, as `pieces` says.
fn split_pieces(s: &str) -> (ps: Vec<String>)
    ensures
        ps@.map_values(|p: String| p@) == pieces(s@),
{
    let cs = chars_of(s);
    let mut ps: Vec<String> = Vec::new();
    ps.push(String::new());
    let mut k: usize = 0;
    assert(ps@.map_values(|p: String| p@) =~= pieces(cs@.take(0)));
    while k < cs.len()
        invariant
            k <= cs@.len(),
            cs@ == s@,
            ps@.len() > 0,
            ps@.map_values(|p: String| p@) == pieces(cs@.take(k as int)),
        decreases cs.len() - k,
    {
        let ghost before = ps@.map_values(|p: String| p@);
        assert(cs@.take(k + 1).drop_last() =~= cs@.take(k as int));
        assert(cs@.take(k + 1).last() == cs@[k as int]);
        if cs[k] == '\n' {
            ps.push(String::new());
            assert(ps@.map_values(|p: String| p@) =~= before.push(seq![]));
        } else {
            let mut last = ps.pop().unwrap();
            push_char(&mut last, cs[k]);
            ps.push(last);
            assert(ps@.map_values(|p: String| p@) =~= before.update(before.len() - 1, before.last().push(cs@[k as int])));
        }
        k += 1;
    }
    assert(cs@.take(k as int) =~= s@);
    ps
}

/// Renders events into logical lines.
struct Writer {
    lines: Vec<LogicalLine>,
    current: Vec<Segment>,
    styles: Vec<TextStyle>,
    link: Option<String>,
    prefixes: Vec<String>,
    lists: Vec<Option<u64>>,
}

impl Writer {
    spec fn view(&self) -> W {
        W {
            lines: lines_view(self.lines@),
            current: row_of(self.current@),
            styles: self.styles@,
            link: link_view(self.link),
            prefixes: self.prefixes@.map_values(|p: String| p@),
            lists: self.lists@,
        }
    }

    fn new() -> (r: Self)
        ensures
            r.view() == fresh(),
    {
        let r = Writer {
            lines: Vec::new(),
            current: Vec::new(),
            styles: Vec::new(),
            link: None,
            prefixes: Vec::new(),
            lists: Vec::new(),
        };
        assert(r.view().lines =~= Seq::<LineV>::empty());
        assert(r.view().current =~= Seq::<Seg>::empty());
        assert(r.view().prefixes =~= Seq::<Seq<char>>::empty());
        r
    }

    fn style(&self) -> (s: TextStyle)
        ensures
            s == style_of(self.view()),
    {
        let n = self.styles.len();
        if n == 0 {
            plain()
        } else {
            self.styles[n - 1]
        }
    }

    fn styled(&mut self, s: TextStyle)
        ensures
            final(self).view() == styled(old(self).view(), s),
    {
        let p = patch(self.style(), s);
        self.styles.push(p);
    }

    fn unstyled(&mut self)
        ensures
            final(self).view() == unstyled(old(self).view()),
    {
        let _ = self.styles.pop();
    }

    fn drop_prefix(&mut self)
        ensures
            final(self).view() == drop_prefix(old(self).view()),
    {
        let ghost before = self.view();
        let _ = self.prefixes.pop();
        assert(self.view().prefixes =~= drop_prefix(before).prefixes);
    }

    fn prefix_text(&self) -> (p: String)
        ensures
            p@ == prefix(self.view()),
    {
        let ghost pv = self.prefixes@.map_values(|p: String| p@);
        let mut out = String::new();
        let mut i: usize = 0;
        assert(pv.take(0) =~= Seq::<Seq<char>>::empty());
        while i < self.prefixes.len()
            invariant
                i <= pv.len(),
                pv == self.prefixes@.map_values(|p: String| p@),
                out@ == concat(pv.take(i as int)),
            decreases self.prefixes.len() - i,
        {
            push_str(&mut out, self.prefixes[i].as_str());
            proof {
                lemma_concat_push(pv.take(i as int), pv[i as int]);
                assert(pv.take(i + 1) =~= pv.take(i as int).push(pv[i as int]));
            }
            i += 1;
        }
        assert(pv.take(i as int) =~= pv);
        out
    }

    fn newline(&mut self, blank: bool)
        ensures
            final(self).view() == newline(old(self).view(), blank),
    {
        if self.current.len() > 0 || blank {
            let ghost before = self.view();
            let continuation = self.prefix_text();
            let mut spans: Vec<Segment> = Vec::new();
            std::mem::swap(&mut spans, &mut self.current);
            self.lines.push(LogicalLine { spans, continuation, clip: false });
            assert(self.view().lines =~= newline(before, blank).lines);
            assert(self.view().current =~= Seq::<Seg>::empty());
        }
    }

    fn push_piece(&mut self, piece: &str)
        ensures
            final(self).view() == push_piece(old(self).view(), piece@),
    {
        if self.current.len() == 0 {
            let p = self.prefix_text();
            let ghost empty = row_of(self.current@);
            assert(empty =~= Seq::<Seg>::empty());
            append_segment(&mut self.current, Segment { text: p, style: plain(), link: None });
        }
        let style = self.style();
        let link = copy_link(&self.link);
        let seg = Segment { text: piece.to_owned(), style, link };
        append_segment(&mut self.current, seg);
    }

    fn push_text(&mut self, t: &str)
        ensures
            final(self).view() == push_text(old(self).view(), t@),
    {
        let safe = safe_text(t);
        let ps = split_pieces(safe.as_str());
        let ghost pv = ps@.map_values(|p: String| p@);
        let mut i: usize = 0;
        assert(pv.skip(0) =~= pv);
        while i < ps.len()
            invariant
                i <= pv.len(),
                pv == ps@.map_values(|p: String| p@),
                push_text(old(self).view(), t@) == push_pieces(self.view(), pv.skip(i as int), i == 0),
            decreases ps.len() - i,
        {
            if i > 0 {
                self.newline(false);
            }
            assert(pv.skip(i as int)[0] == ps@[i as int]@);
            assert(pv.skip(i as int).drop_first() =~= pv.skip(i + 1));
            self.push_piece(ps[i].as_str());
            i += 1;
        }
    }
}

/// `n` spaces.
fn spaces_text(n: usize) -> (s: String)
    ensures
        s@ == spaces(n as nat),
{
    let mut s = String::new();
    let mut i: usize = 0;
    while i < n
        invariant
            i <= n,
            s@ == spaces(i as nat),
        decreases n - i,
    {
        push_char(&mut s, ' ');
        assert(s@ =~= spaces((i + 1) as nat));
        i += 1;
    }
    s
}

/// The first whitespace-separated word of `s`.
fn first_word_text(s: &str) -> (w: String)
    ensures
        w@ == first_word(s@),
{
    let cs = chars_of(s);
    let mut i: usize = 0;
    assert(cs@.skip(0) =~= cs@);
    while i < cs.len() && char_is_white_space(cs[i])
        invariant
            i <= cs@.len(),
            cs@ == s@,
            first_word(s@) == first_word(cs@.skip(i as int)),
        decreases cs.len() - i,
    {
        assert(cs@.skip(i as int).drop_first() =~= cs@.skip(i + 1));
        i += 1;
    }
    let mut w = String::new();
    let mut j: usize = i;
    assert(w@ + word_prefix(cs@.skip(i as int)) =~= word_prefix(cs@.skip(i as int)));
    while j < cs.len() && !char_is_white_space(cs[j])
        invariant
            i <= j <= cs@.len(),
            cs@ == s@,
            first_word(s@) == first_word(cs@.skip(i as int)),
            (i < cs@.len() ==> !is_white_space(cs@[i as int])),
            word_prefix(cs@.skip(i as int)) == w@ + word_prefix(cs@.skip(j as int)),
        decreases cs.len() - j,
    {
        assert(cs@.skip(j as int).drop_first() =~= cs@.skip(j + 1));
        let ghost before = w@;
        push_char(&mut w, cs[j]);
        assert(before + word_prefix(cs@.skip(j as int)) =~= w@ + word_prefix(cs@.skip(j + 1)));
        j += 1;
    }
    assert(w@ + word_prefix(cs@.skip(j as int)) =~= w@);
    w
}

/// `s` split after each line feed, as `inclusive_lines` says.
fn split_inclusive(s: &str) -> (ls: Vec<String>)
    ensures
        ls@.map_values(|l: String| l@) == inclusive_lines(s@),
{
    let cs = chars_of(s);
    let mut ls: Vec<String> = Vec::new();
    let mut open = false;
    let mut k: usize = 0;
    assert(ls@.map_values(|l: String| l@) =~= inclusive_lines(cs@.take(0)));
    while k < cs.len()
        invariant
            k <= cs@.len(),
            cs@ == s@,
            ls@.map_values(|l: String| l@) == inclusive_lines(cs@.take(k as int)),
            open == (ls@.len() > 0 && ls@.last()@.last() != '\n'),
            ls@.len() > 0 ==> ls@.last()@.len() > 0,
        decreases cs.len() - k,
    {
        let ghost before = ls@.map_values(|l: String| l@);
        assert(cs@.take(k + 1).drop_last() =~= cs@.take(k as int));
        assert(cs@.take(k + 1).last() == cs@[k as int]);
        if open {
            let mut last = ls.pop().unwrap();
            push_char(&mut last, cs[k]);
            ls.push(last);
            assert(ls@.map_values(|l: String| l@) =~= before.update(before.len() - 1, before.last().push(cs@[k as int])));
        } else {
            let mut one = String::new();
            push_char(&mut one, cs[k]);
            ls.push(one);
            assert(ls@.map_values(|l: String| l@) =~= before.push(seq![cs@[k as int]]));
        }
        open = cs[k] != '\n';
        k += 1;
    }
    assert(cs@.take(k as int) =~= s@);
    ls
}

/// `s` without its trailing line feeds.
fn trim_newlines_text(s: &str) -> (t: String)
    ensures
        t@ == trim_newlines(s@),
{
    let cs = chars_of(s);
    let mut n = cs.len();
    assert(cs@.take(n as int) =~= cs@);
    while n > 0 && cs[n - 1] == '\n'
        invariant
            n <= cs@.len(),
            cs@ == s@,
            trim_newlines(s@) == trim_newlines(cs@.take(n as int)),
        decreases n,
    {
        assert(cs@.take(n as int).drop_last() =~= cs@.take(n - 1));
        n -= 1;
    }
    let mut t = String::new();
    let mut i: usize = 0;
    while i < n
        invariant
            i <= n <= cs@.len(),
            t@ == cs@.take(i as int),
        decreases n - i,
    {
        push_char(&mut t, cs[i]);
        assert(t@ =~= cs@.take(i + 1));
        i += 1;
    }
    t
}

/// The style of a highlighted region.
fn region_style_of(r: &Region) -> (s: TextStyle)
    ensures
        s == region_style(super::highlight::region_view(*r)),
{
    let f = r.3;
    TextStyle {
        fg: Some(Color::Rgb(r.0, r.1, r.2)),
        modifiers: (if f & 1 != 0 { BOLD } else { 0 }) | (if f & 4 != 0 { ITALIC } else { 0 }) | (if f & 2 != 0 {
            UNDERLINED
        } else {
            0
        }),
    }
}

impl Writer {
    fn start_item(&mut self)
        ensures
            final(self).view() == start_item(old(self).view()),
    {
        self.newline(false);
        let ghost w0 = self.view();
        let n = self.lists.len();
        let mut marker = String::new();
        if n > 0 && self.lists[n - 1].is_some() {
            let top = self.lists.pop().unwrap();
            let v = top.unwrap();
            push_decimal(&mut marker, v);
            push_str(&mut marker, ". ");
            let next = if v == u64::MAX { v } else { v + 1 };
            self.lists.push(Some(next));
            assert(self.lists@ =~= item_marker(w0.lists).1);
        } else {
            push_str(&mut marker, "• ");
        }
        assert(marker@ == item_marker(w0.lists).0);
        self.push_text(marker.as_str());
        let w = crate::unicode::width(marker.as_str());
        let ghost before = self.view();
        self.prefixes.push(spaces_text(w));
        assert(self.view().prefixes =~= before.prefixes.push(spaces(display_width(marker@))));
    }

    fn step(&mut self, e: &MarkdownEvent)
        ensures
            final(self).view() == step(old(self).view(), *e),
    {
        match e {
            MarkdownEvent::Start(MarkdownTag::Heading) => {
                self.newline(false);
                self.styled(TextStyle { fg: Some(Color::LightCyan), modifiers: BOLD });
            },
            MarkdownEvent::End(MarkdownTagEnd::Heading) => {
                self.newline(false);
                self.unstyled();
            },
            MarkdownEvent::End(MarkdownTagEnd::Paragraph) => self.newline(false),
            MarkdownEvent::Start(MarkdownTag::Emphasis) => self.styled(TextStyle { fg: None, modifiers: ITALIC }),
            MarkdownEvent::Start(MarkdownTag::Strong) => self.styled(TextStyle { fg: None, modifiers: BOLD }),
            MarkdownEvent::Start(MarkdownTag::Strikethrough) => self.styled(TextStyle { fg: None, modifiers: CROSSED_OUT }),
            MarkdownEvent::End(MarkdownTagEnd::Emphasis) => self.unstyled(),
            MarkdownEvent::End(MarkdownTagEnd::Strong) => self.unstyled(),
            MarkdownEvent::End(MarkdownTagEnd::Strikethrough) => self.unstyled(),
            MarkdownEvent::Start(MarkdownTag::Link(dest)) => {
                self.link = Some(dest.clone());
                self.styled(TextStyle { fg: Some(Color::LightBlue), modifiers: UNDERLINED });
            },
            MarkdownEvent::End(MarkdownTagEnd::Link) => {
                self.link = None;
                self.unstyled();
            },
            MarkdownEvent::Start(MarkdownTag::Image) => {
                self.styled(TextStyle { fg: None, modifiers: DIM });
                self.push_text("[img] ");
            },
            MarkdownEvent::End(MarkdownTagEnd::Image) => self.unstyled(),
            MarkdownEvent::Start(MarkdownTag::BlockQuote) => {
                self.newline(false);
                let ghost before = self.view();
                self.prefixes.push("│ ".to_owned());
                assert(self.view().prefixes =~= before.prefixes.push("│ "@));
            },
            MarkdownEvent::End(MarkdownTagEnd::BlockQuote) => {
                self.newline(false);
                self.drop_prefix();
            },
            MarkdownEvent::Start(MarkdownTag::List(start)) => {
                self.newline(false);
                self.lists.push(*start);
            },
            MarkdownEvent::End(MarkdownTagEnd::List) => {
                self.newline(false);
                let _ = self.lists.pop();
            },
            MarkdownEvent::Start(MarkdownTag::Item) => self.start_item(),
            MarkdownEvent::End(MarkdownTagEnd::Item) => {
                self.newline(false);
                self.drop_prefix();
            },
            MarkdownEvent::TaskListMarker(checked) => {
                if *checked {
                    self.push_text("[x] ");
                } else {
                    self.push_text("[ ] ");
                }
            },
            MarkdownEvent::Code(t) => {
                self.styled(TextStyle { fg: Some(Color::LightBlue), modifiers: 0 });
                self.push_text(t.as_str());
                self.unstyled();
            },
            MarkdownEvent::Text(t) => self.push_text(t.as_str()),
            MarkdownEvent::Literal(t) => self.push_text(t.as_str()),
            MarkdownEvent::SoftBreak => self.push_text(" "),
            MarkdownEvent::HardBreak => self.newline(true),
            MarkdownEvent::Rule => {
                self.newline(false);
                self.push_text("────");
                self.newline(false);
            },
            _ => {},
        }
    }

    /// Renders a code block's text.
    fn code(&mut self, kind: &CodeKind, text: &str, assets: &SyntaxAssets) -> (r: Result<(), String>)
        ensures
            match r {
                Ok(_) => code(old(self).view(), *kind, text@) == Ok::<W, Seq<char>>(final(self).view()),
                Err(e) => code(old(self).view(), *kind, text@) == Err::<W, Seq<char>>(e@),
            },
    {
        let language = match kind {
            CodeKind::Fenced(info) => first_word_text(info.as_str()),
            CodeKind::Indented => String::new(),
        };
        let ls = split_inclusive(text);
        let ghost lv = ls@.map_values(|l: String| l@);
        match CodeHighlighter::start(assets, language.as_str(), "Solarized (light)") {
            None => {
                let mut i: usize = 0;
                assert(lv.skip(0) =~= lv);
                while i < ls.len()
                    invariant
                        i <= lv.len(),
                        lv == ls@.map_values(|l: String| l@),
                        plain_code(old(self).view(), lv) == plain_code(self.view(), lv.skip(i as int)),
                    decreases ls.len() - i,
                {
                    assert(lv.skip(i as int)[0] == ls@[i as int]@);
                    assert(lv.skip(i as int).drop_first() =~= lv.skip(i + 1));
                    let t = trim_newlines_text(ls[i].as_str());
                    self.push_text(t.as_str());
                    self.newline(true);
                    i += 1;
                }
                assert(lv.skip(i as int) =~= Seq::<Seq<char>>::empty());
                Ok(())
            },
            Some(mut h) => {
                let ghost theme = code_theme();
                let ghost mut done: Seq<Seq<(u8, u8, u8, u8, Seq<char>)>> = seq![];
                let mut i: usize = 0;
                assert(lv.take(0) =~= Seq::<Seq<char>>::empty());
                while i < ls.len()
                    invariant
                        i <= lv.len(),
                        lv == ls@.map_values(|l: String| l@),
                        h.language() == language@,
                        h.theme() == theme,
                        h.earlier() == lv.take(i as int),
                        syntax_known(language@) && theme_known(theme),
                        theme == code_theme(),
                        lv == inclusive_lines(text@),
                        language@ == (match *kind {
                            CodeKind::Fenced(info) => first_word(info@),
                            CodeKind::Indented => seq![],
                        }),
                        highlight_prefix(language@, theme, lv, i as nat) == Ok::<
                            Seq<Seq<(u8, u8, u8, u8, Seq<char>)>>,
                            Seq<char>,
                        >(done),
                        self.view() == highlighted_code(old(self).view(), done),
                    decreases ls.len() - i,
                {
                    assert(lv.take(i + 1).drop_last() =~= lv.take(i as int));
                    assert(lv[i as int] == ls@[i as int]@);
                    let line = match highlight_line(&mut h, ls[i].as_str(), assets) {
                        Err(e) => {
                            proof {
                                assert(((i + 1) as nat - 1) as nat == i as nat);
                                assert(highlight_prefix(language@, theme, lv, (i + 1) as nat) == Err::<
                                    Seq<Seq<(u8, u8, u8, u8, Seq<char>)>>,
                                    Seq<char>,
                                >(e@));
                                lemma_highlight_error_stays(language@, theme, lv, (i + 1) as nat, lv.len());
                            }
                            return Err(e);
                        },
                        Ok(line) => line,
                    };
                    let ghost rv = line@.map_values(|x: Region| super::highlight::region_view(x));
                    let ghost start = self.view();
                    let mut j: usize = 0;
                    assert(rv.skip(0) =~= rv);
                    while j < line.len()
                        invariant
                            j <= rv.len(),
                            rv == line@.map_values(|x: Region| super::highlight::region_view(x)),
                            regions(start, rv) == regions(self.view(), rv.skip(j as int)),
                        decreases line.len() - j,
                    {
                        assert(rv.skip(j as int)[0] == super::highlight::region_view(line@[j as int]));
                        assert(rv.skip(j as int).drop_first() =~= rv.skip(j + 1));
                        let r = &line[j];
                        self.styled(region_style_of(r));
                        let t = trim_newlines_text(r.4.as_str());
                        self.push_text(t.as_str());
                        self.unstyled();
                        j += 1;
                    }
                    assert(rv.skip(j as int) =~= Seq::<(u8, u8, u8, u8, Seq<char>)>::empty());
                    self.newline(true);
                    proof {
                        lemma_highlighted_code_push(old(self).view(), done, rv);
                        done = done.push(rv);
                    }
                    i += 1;
                    assert(h.earlier() == lv.take(i as int));
                }
                assert(lv.take(i as int) =~= lv);
                Ok(())
            },
        }
    }
}

pub open spec fn cells_view(cells: Seq<Vec<Segment>>) -> Seq<Seq<Seg>> {
    cells.map_values(|c: Vec<Segment>| row_of(c@))
}

pub open spec fn table_view(rows: Seq<Vec<Vec<Segment>>>) -> Seq<Seq<Seq<Seg>>> {
    rows.map_values(|r: Vec<Vec<Segment>>| cells_view(r@))
}

pub open spec fn widths_view(ws: Seq<usize>) -> Seq<nat> {
    ws.map_values(|w: usize| w as nat)
}

/// `n` copies of `c`.
fn repeat_char(c: char, n: usize) -> (s: String)
    ensures
        s@ == Seq::new(n as nat, |i: int| c),
{
    let mut s = String::new();
    let mut i: usize = 0;
    while i < n
        invariant
            i <= n,
            s@ == Seq::new(i as nat, |k: int| c),
        decreases n - i,
    {
        push_char(&mut s, c);
        assert(s@ =~= Seq::new((i + 1) as nat, |k: int| c));
        i += 1;
    }
    s
}

fn sat_add(a: usize, b: usize) -> (r: usize)
    ensures
        r == sat((a + b) as nat),
{
    if b > usize::MAX - a {
        usize::MAX
    } else {
        a + b
    }
}

/// The position of the first code block end (or cell end) in `[from, hi)`,
/// or `hi`.
fn find_end_in(evs: &Vec<MarkdownEvent>, lo: usize, hi: usize, from: usize, in_code: bool) -> (r: usize)
    requires
        lo <= from <= hi <= evs@.len(),
    ensures
        from <= r <= hi,
        r - lo == find_end(evs@.subrange(lo as int, hi as int), from - lo, in_code),
{
    let ghost sub = evs@.subrange(lo as int, hi as int);
    let mut i = from;
    while i < hi
        invariant
            lo <= from <= i <= hi <= evs@.len(),
            sub == evs@.subrange(lo as int, hi as int),
            find_end(sub, from - lo, in_code) == find_end(sub, i - lo, in_code),
        decreases hi - i,
    {
        assert(sub[i - lo] == evs@[i as int]);
        let hit = if in_code {
            matches!(evs[i], MarkdownEvent::End(MarkdownTagEnd::CodeBlock))
        } else {
            matches!(evs[i], MarkdownEvent::End(MarkdownTagEnd::TableCell))
        };
        if hit {
            return i;
        }
        i += 1;
    }
    i
}

/// The text of the text events in `[from, to)`.
fn code_text_in(evs: &Vec<MarkdownEvent>, lo: usize, hi: usize, from: usize, to: usize) -> (t: String)
    requires
        lo <= from <= to <= hi <= evs@.len(),
    ensures
        t@ == code_text(evs@.subrange(lo as int, hi as int), from - lo, to - lo),
{
    let ghost sub = evs@.subrange(lo as int, hi as int);
    let mut t = String::new();
    let mut i = from;
    while i < to
        invariant
            lo <= from <= i <= to <= hi <= evs@.len(),
            sub == evs@.subrange(lo as int, hi as int),
            t@ == code_text(sub, from - lo, i - lo),
        decreases to - i,
    {
        assert(sub[i - lo] == evs@[i as int]);
        match &evs[i] {
            MarkdownEvent::Text(x) => push_str(&mut t, x.as_str()),
            _ => {
                assert(t@ =~= t@ + Seq::<char>::empty());
            },
        }
        i += 1;
    }
    t
}

/// A rendered cell's spans, line after line.
fn flatten_cell(lines: Vec<LogicalLine>) -> (spans: Vec<Segment>)
    ensures
        row_of(spans@) == cell_spans(lines_view(lines@)),
{
    let ghost all = lines_view(lines@);
    let mut rest = lines;
    let mut spans: Vec<Segment> = Vec::new();
    assert(row_of(spans@) =~= Seq::<Seg>::empty());
    while rest.len() > 0
        invariant
            cell_spans(all) == row_of(spans@) + cell_spans(lines_view(rest@)),
        decreases rest.len(),
    {
        let ghost rv = lines_view(rest@);
        let ghost before = row_of(spans@);
        let mut l = rest.remove(0);
        assert(rv[0] == line_view(l));
        assert(rv.drop_first() =~= lines_view(rest@));
        let ghost added = row_of(l.spans@);
        spans.append(&mut l.spans);
        assert(row_of(spans@) =~= before + added);
        assert(row_of(spans@) + cell_spans(lines_view(rest@)) =~= before + cell_spans(rv));
    }
    assert(cell_spans(lines_view(rest@)) =~= Seq::<Seg>::empty());
    assert(row_of(spans@) + Seq::<Seg>::empty() =~= row_of(spans@));
    spans
}

/// A cell's width, as `cell_width` says.
fn cell_width_of(cell: &Vec<Segment>) -> (w: usize)
    ensures
        w == cell_width(row_of(cell@)),
{
    let ghost cv = row_of(cell@);
    let mut w: usize = 0;
    let mut i: usize = 0;
    assert(cv.take(0) =~= Seq::<Seg>::empty());
    while i < cell.len()
        invariant
            i <= cv.len(),
            cv == row_of(cell@),
            w == cell_width(cv.take(i as int)),
        decreases cell.len() - i,
    {
        let x = crate::unicode::width(cell[i].text.as_str());
        assert(cv.take(i + 1).drop_last() =~= cv.take(i as int));
        w = sat_add(w, x);
        i += 1;
    }
    assert(cv.take(i as int) =~= cv);
    w
}

/// The widest cell of column `c`.
fn column_width_of(rows: &Vec<Vec<Vec<Segment>>>, c: usize) -> (w: usize)
    ensures
        w == column_width(table_view(rows@), c as int),
{
    let ghost tv = table_view(rows@);
    let mut w: usize = 0;
    let mut i: usize = 0;
    assert(tv.take(0) =~= Seq::<Seq<Seq<Seg>>>::empty());
    while i < rows.len()
        invariant
            i <= tv.len(),
            tv == table_view(rows@),
            w == column_width(tv.take(i as int), c as int),
        decreases rows.len() - i,
    {
        assert(tv.take(i + 1).drop_last() =~= tv.take(i as int));
        assert(tv.take(i + 1).last() == tv[i as int]);
        let here = if c < rows[i].len() {
            assert(tv[i as int][c as int] == row_of(rows@[i as int]@[c as int]@));
            cell_width_of(&rows[i][c])
        } else {
            0
        };
        if here > w {
            w = here;
        }
        i += 1;
    }
    assert(tv.take(i as int) =~= tv);
    w
}

fn widths_of(rows: &Vec<Vec<Vec<Segment>>>, n: usize) -> (ws: Vec<usize>)
    ensures
        widths_view(ws@) == column_widths(table_view(rows@), n as nat),
{
    let mut ws: Vec<usize> = Vec::new();
    let mut c: usize = 0;
    while c < n
        invariant
            c <= n,
            widths_view(ws@) == column_widths(table_view(rows@), c as nat),
        decreases n - c,
    {
        let w = column_width_of(rows, c);
        let ghost before = widths_view(ws@);
        ws.push(w);
        assert(widths_view(ws@) =~= before.push(w as nat));
        assert(before.push(w as nat) =~= column_widths(table_view(rows@), (c + 1) as nat)) by {
            assert forall|k: int| 0 <= k < c + 1 implies before.push(w as nat)[k] == column_widths(
                table_view(rows@),
                (c + 1) as nat,
            )[k] by {
                if k < c {
                    assert(before[k] == column_widths(table_view(rows@), c as nat)[k]);
                }
            }
        }
        c += 1;
    }
    ws
}

/// Appends a cell's spans, bold in the head row.
fn append_all_into(spans: &mut Vec<Segment>, cell: Vec<Segment>, bold: bool)
    ensures
        row_of(final(spans)@) == append_all(row_of(old(spans)@), row_of(cell@), bold),
{
    let ghost cv = row_of(cell@);
    let n = cell.len();
    let mut rest = cell;
    let mut i: usize = 0;
    assert(cv.skip(0) =~= cv);
    while rest.len() > 0
        invariant
            i <= cv.len(),
            n == cv.len(),
            i + rest@.len() == n,
            row_of(rest@) == cv.skip(i as int),
            append_all(row_of(old(spans)@), cv, bold) == append_all(row_of(spans@), cv.skip(i as int), bold),
        decreases rest.len(),
    {
        let ghost rv = row_of(rest@);
        let seg = rest.remove(0);
        assert(rv[0] == seg_of(seg));
        assert(rv.drop_first() =~= row_of(rest@));
        assert(cv.skip(i as int).drop_first() =~= cv.skip(i + 1));
        if bold {
            let Segment { text, style, link } = seg;
            let b = Segment { text, style: TextStyle { fg: style.fg, modifiers: style.modifiers | BOLD }, link };
            append_segment(spans, b);
        } else {
            append_segment(spans, seg);
        }
        i += 1;
    }
    assert(cv.skip(i as int) =~= Seq::<Seg>::empty());
}

/// Appends the spans of one table row's cells.
fn cells_row_into(spans: &mut Vec<Segment>, cells: Vec<Vec<Segment>>, widths: &Vec<usize>, aligns: &Vec<Align>, head: bool)
    ensures
        row_of(final(spans)@) == cells_row(row_of(old(spans)@), cells_view(cells@), 0, widths_view(widths@), aligns@, head),
{
    let ghost cv = cells_view(cells@);
    let ghost wv = widths_view(widths@);
    let n = cells.len();
    let mut rest = cells;
    let mut c: usize = 0;
    assert(cv.skip(0) =~= cv);
    while rest.len() > 0
        invariant
            c <= cv.len(),
            n == cv.len(),
            c + rest@.len() == n,
            wv == widths_view(widths@),
            cells_view(rest@) == cv.skip(c as int),
            cells_row(row_of(old(spans)@), cv, 0, wv, aligns@, head) == cells_row(row_of(spans@), cv, c as int, wv, aligns@, head),
        decreases rest.len(),
    {
        let ghost rv = cells_view(rest@);
        let cell = rest.remove(0);
        assert(rv[0] == row_of(cell@));
        assert(rv.drop_first() =~= cells_view(rest@));
        assert(cv[c as int] == row_of(cell@));
        let width = if c < widths.len() { widths[c] } else { 0 };
        let cw = cell_width_of(&cell);
        let padding = if width > cw { width - cw } else { 0 };
        let align = if c < aligns.len() { aligns[c] } else { Align::Unspecified };
        let left = match align {
            Align::Right => padding,
            Align::Center => padding / 2,
            _ => 0,
        };
        let before_text = repeat_char(' ', sat_add(left, 1));
        assert(before_text@ =~= spaces(sat((left + 1) as nat)));
        append_segment(spans, Segment { text: before_text, style: plain(), link: None });
        append_all_into(spans, cell, head);
        let mut after_text = repeat_char(' ', sat_add(padding - left, 1));
        push_str(&mut after_text, "│");
        assert(after_text@ =~= spaces(sat((padding - left + 1) as nat)) + "│"@);
        append_segment(spans, Segment { text: after_text, style: plain(), link: None });
        c += 1;
    }
    assert(c as int >= cv.len()) by {
        assert(cells_view(rest@).len() == 0);
    }
}

/// The rule under a table's head row.
fn rule_line(pre: &str, widths: &Vec<usize>) -> (s: String)
    ensures
        s@ == rule_text(pre@, widths_view(widths@)),
{
    let ghost parts = widths_view(widths@).map_values(|w: nat| Seq::new(sat(w + 2), |i: int| '─'));
    let mut body = String::new();
    let mut i: usize = 0;
    assert(parts.take(0) =~= Seq::<Seq<char>>::empty());
    while i < widths.len()
        invariant
            i <= widths@.len(),
            parts == widths_view(widths@).map_values(|w: nat| Seq::new(sat(w + 2), |i: int| '─')),
            body@ == joined(parts.take(i as int), "┼"@),
        decreases widths.len() - i,
    {
        let ghost before = body@;
        if i > 0 {
            push_str(&mut body, "┼");
        }
        let dashes = repeat_char('─', sat_add(widths[i], 2));
        push_str(&mut body, dashes.as_str());
        assert(parts.take(i + 1).drop_last() =~= parts.take(i as int));
        assert(parts.take(i + 1).last() =~= dashes@);
        if i == 0 {
            assert(parts.take(1) =~= seq![dashes@]);
            assert(body@ =~= dashes@);
        } else {
            assert(body@ =~= before + "┼"@ + dashes@);
        }
        i += 1;
    }
    assert(parts.take(i as int) =~= parts);
    let mut s = pre.to_owned();
    push_str(&mut s, "├");
    push_str(&mut s, body.as_str());
    push_str(&mut s, "┤");
    s
}

/// A table's lines.
fn table_lines_of(pre: &str, rows: Vec<Vec<Vec<Segment>>>, widths: &Vec<usize>, aligns: &Vec<Align>) -> (ls: Vec<LogicalLine>)
    ensures
        lines_view(ls@) == table_lines(pre@, table_view(rows@), 0, widths_view(widths@), aligns@),
{
    let ghost tv = table_view(rows@);
    let ghost wv = widths_view(widths@);
    let n = rows.len();
    let mut rest = rows;
    let mut out: Vec<LogicalLine> = Vec::new();
    let mut index: usize = 0;
    assert(tv.skip(0) =~= tv);
    assert(lines_view(out@) =~= Seq::<LineV>::empty());
    while rest.len() > 0
        invariant
            index <= tv.len(),
            n == tv.len(),
            index + rest@.len() == n,
            wv == widths_view(widths@),
            table_view(rest@) == tv.skip(index as int),
            table_lines(pre@, tv, 0, wv, aligns@) == lines_view(out@) + table_lines(pre@, tv, index as int, wv, aligns@),
        decreases rest.len(),
    {
        let ghost rv = table_view(rest@);
        let cells = rest.remove(0);
        assert(rv[0] == cells_view(cells@));
        assert(rv.drop_first() =~= table_view(rest@));
        assert(tv[index as int] == cells_view(cells@));
        let ghost before = lines_view(out@);
        let mut first = pre.to_owned();
        push_str(&mut first, "│");
        let mut spans: Vec<Segment> = Vec::new();
        spans.push(Segment { text: first, style: plain(), link: None });
        assert(row_of(spans@) =~= seq![plain_seg(pre@ + "│"@)]);
        cells_row_into(&mut spans, cells, widths, aligns, index == 0);
        let line = LogicalLine { spans, continuation: String::new(), clip: true };
        let ghost lv = line_view(line);
        assert(lv.continuation =~= Seq::<char>::empty());
        out.push(line);
        if index == 0 {
            let text = rule_line(pre, widths);
            let mut rule: Vec<Segment> = Vec::new();
            rule.push(Segment { text, style: plain(), link: None });
            let r = LogicalLine { spans: rule, continuation: String::new(), clip: true };
            assert(line_view(r).spans =~= seq![plain_seg(rule_text(pre@, wv))]);
            assert(line_view(r).continuation =~= Seq::<char>::empty());
            out.push(r);
            assert(lines_view(out@) =~= before + seq![lv, line_view(r)]);
        } else {
            assert(lines_view(out@) =~= before + seq![lv]);
        }
        index += 1;
    }
    assert(table_lines(pre@, tv, index as int, wv, aligns@) =~= Seq::<LineV>::empty()) by {
        assert(table_view(rest@).len() == 0);
    }
    assert(lines_view(out@) + Seq::<LineV>::empty() =~= lines_view(out@));
    out
}

/// Collects a table's rows of rendered cells from `start` up to the end of
/// the table, as `table_scan` says of the events in `[lo, hi)`.
fn table_scan_in(evs: &Vec<MarkdownEvent>, lo: usize, hi: usize, start: usize, assets: &SyntaxAssets) -> (r: Result<(Vec<Vec<Vec<Segment>>>, usize), String>)
    requires
        lo <= start <= hi <= evs@.len(),
    ensures
        match r {
            Ok((rows, next)) => lo <= next <= hi && table_scan(evs@.subrange(lo as int, hi as int), start - lo, seq![], seq![])
                == Ok::<(Seq<Seq<Seq<Seg>>>, int), Seq<char>>((table_view(rows@), next - lo)),
            Err(e) => table_scan(evs@.subrange(lo as int, hi as int), start - lo, seq![], seq![]) == Err::<
                (Seq<Seq<Seq<Seg>>>, int),
                Seq<char>,
            >(e@),
        },
    decreases hi - lo, 0nat,
{
    let ghost sub = evs@.subrange(lo as int, hi as int);
    let mut rows: Vec<Vec<Vec<Segment>>> = Vec::new();
    let mut row: Vec<Vec<Segment>> = Vec::new();
    let mut pos = start;
    assert(table_view(rows@) =~= Seq::<Seq<Seq<Seg>>>::empty());
    assert(cells_view(row@) =~= Seq::<Seq<Seg>>::empty());
    while pos < hi
        invariant
            lo <= start <= pos <= hi <= evs@.len(),
            sub == evs@.subrange(lo as int, hi as int),
            table_scan(sub, start - lo, seq![], seq![]) == table_scan(sub, pos - lo, table_view(rows@), cells_view(row@)),
        decreases hi - pos,
    {
        assert(sub[pos - lo] == evs@[pos as int]);
        match &evs[pos] {
            MarkdownEvent::Start(MarkdownTag::TableCell) => {
                let end = find_end_in(evs, lo, hi, pos + 1, false);
                assert(sub.subrange(pos - lo + 1, end - lo) =~= evs@.subrange(pos + 1, end as int));
                let mut cw = Writer::new();
                match cw.render(evs, pos + 1, end, assets) {
                    Err(e) => {
                        return Err(e);
                    },
                    Ok(_) => {},
                }
                let ghost before = cells_view(row@);
                let ghost cv = cw.view();
                let cell = flatten_cell(cw.lines);
                row.push(cell);
                assert(cells_view(row@) =~= before.push(cell_spans(cv.lines)));
                pos = if end < hi { end + 1 } else { hi };
            },
            MarkdownEvent::End(MarkdownTagEnd::TableHead) | MarkdownEvent::End(MarkdownTagEnd::TableRow) => {
                let ghost before = table_view(rows@);
                let ghost finished = cells_view(row@);
                let mut done: Vec<Vec<Segment>> = Vec::new();
                std::mem::swap(&mut done, &mut row);
                rows.push(done);
                assert(table_view(rows@) =~= before.push(finished));
                assert(cells_view(row@) =~= Seq::<Seq<Seg>>::empty());
                pos += 1;
            },
            MarkdownEvent::End(MarkdownTagEnd::Table) => {
                return Ok((rows, pos + 1));
            },
            _ => {
                pos += 1;
            },
        }
    }
    Ok((rows, hi))
}

impl Writer {
    /// Renders the events in `[lo, hi)`, as `render_from` says.
    fn render(&mut self, evs: &Vec<MarkdownEvent>, lo: usize, hi: usize, assets: &SyntaxAssets) -> (r: Result<(), String>)
        requires
            lo <= hi <= evs@.len(),
        ensures
            match r {
                Ok(_) => render_from(old(self).view(), evs@.subrange(lo as int, hi as int), 0) == Ok::<W, Seq<char>>(
                    final(self).view(),
                ),
                Err(e) => render_from(old(self).view(), evs@.subrange(lo as int, hi as int), 0) == Err::<W, Seq<char>>(
                    e@,
                ),
            },
        decreases hi - lo, 1nat,
    {
        let ghost sub = evs@.subrange(lo as int, hi as int);
        let mut pos = lo;
        while pos < hi
            invariant
                lo <= pos <= hi <= evs@.len(),
                sub == evs@.subrange(lo as int, hi as int),
                render_from(old(self).view(), sub, 0) == render_from(self.view(), sub, pos - lo),
            decreases hi - pos,
        {
            assert(sub[pos - lo] == evs@[pos as int]);
            match &evs[pos] {
                MarkdownEvent::Start(MarkdownTag::CodeBlock(kind)) => {
                    proof {
                        lemma_find_end(sub, pos - lo + 1, true);
                    }
                    self.newline(false);
                    let end = find_end_in(evs, lo, hi, pos + 1, true);
                    let text = code_text_in(evs, lo, hi, pos + 1, end);
                    match self.code(kind, text.as_str(), assets) {
                        Err(e) => {
                            return Err(e);
                        },
                        Ok(_) => {},
                    }
                    pos = if end < hi { end + 1 } else { hi };
                },
                MarkdownEvent::Start(MarkdownTag::Table(aligns)) => {
                    self.newline(false);
                    let scanned = table_scan_in(evs, lo, hi, pos + 1, assets);
                    match scanned {
                        Err(e) => {
                            return Err(e);
                        },
                        Ok((rows, next)) => {
                            let pre = self.prefix_text();
                            let widths = widths_of(&rows, aligns.len());
                            let mut t = table_lines_of(pre.as_str(), rows, &widths, aligns);
                            let ghost before = self.view();
                            let ghost tv = lines_view(t@);
                            self.lines.append(&mut t);
                            assert(self.view().lines =~= before.lines + tv);
                            pos = if pos < next && next <= hi { next } else { hi };
                        },
                    }
                },
                e => {
                    self.step(e);
                    pos += 1;
                },
            }
        }
        self.newline(false);
        Ok(())
    }
}

/// Where the block starting at `pos` ends, as `block_end` says.
fn block_end_at(evs: &Vec<MarkdownEvent>, pos: usize) -> (r: usize)
    requires
        pos < evs@.len(),
    ensures
        r == block_end(evs@, pos as int, 0),
{
    let n = evs.len();
    let mut i = pos;
    let mut depth: usize = 0;
    loop
        invariant
            n == evs@.len(),
            pos <= i < evs@.len(),
            depth <= i - pos,
            block_end(evs@, pos as int, 0) == block_end(evs@, i as int, depth as nat),
        decreases evs@.len() - i,
    {
        let d = match &evs[i] {
            MarkdownEvent::Start(_) => depth + 1,
            MarkdownEvent::End(_) => if depth > 0 { depth - 1 } else { 0 },
            _ => depth,
        };
        if d == 0 {
            return i + 1;
        }
        if i + 1 >= n {
            assert(block_end(evs@, i + 1, d as nat) == evs@.len());
            return n;
        }
        depth = d;
        i += 1;
    }
}

pub open spec fn blocks_view(bs: Seq<Result<Block, String>>) -> Seq<Result<Seq<LineV>, Seq<char>>> {
    bs.map_values(
        |b: Result<Block, String>|
            match b {
                Ok(b) => Ok(lines_view(b.0@)),
                Err(e) => Err(e@),
            },
    )
}

/// Splits Markdown events into top-level blocks and renders each on its
/// own; the first block that fails to render is the last one given.
pub fn blocks(evs: &Vec<MarkdownEvent>, assets: &SyntaxAssets) -> (r: Vec<Result<Block, String>>)
    ensures
        blocks_view(r@) == blocks_from(evs@, 0),
{
    let mut out: Vec<Result<Block, String>> = Vec::new();
    let mut pos: usize = 0;
    assert(blocks_view(out@) =~= Seq::<Result<Seq<LineV>, Seq<char>>>::empty());
    while pos < evs.len()
        invariant
            pos <= evs@.len(),
            blocks_from(evs@, 0) == blocks_view(out@) + blocks_from(evs@, pos as int),
        decreases evs.len() - pos,
    {
        proof {
            lemma_block_end(evs@, pos as int, 0);
        }
        let end = block_end_at(evs, pos);
        let ghost before = blocks_view(out@);
        let mut w = Writer::new();
        match w.render(evs, pos, end, assets) {
            Err(e) => {
                let ghost ev = e@;
                out.push(Err(e));
                assert(blocks_view(out@) =~= before.push(Err(ev)));
                assert(blocks_from(evs@, pos as int) =~= seq![Err::<Seq<LineV>, Seq<char>>(ev)]);
                return out;
            },
            Ok(_) => {
                let ghost lv = w.view().lines;
                out.push(Ok(Block(w.lines)));
                assert(blocks_view(out@) =~= before.push(Ok(lv)));
                assert(blocks_from(evs@, pos as int) =~= seq![Ok::<Seq<LineV>, Seq<char>>(lv)] + blocks_from(evs@, end as int));
            },
        }
        pos = end;
    }
    assert(blocks_from(evs@, pos as int) =~= Seq::<Result<Seq<LineV>, Seq<char>>>::empty());
    assert(blocks_view(out@) + Seq::<Result<Seq<LineV>, Seq<char>>>::empty() =~= blocks_view(out@));
    out
}

} // verus!
