//! Rendered Markdown holds no control characters: whatever the model wrote,
//! decoded entities included, nothing the renderer hands to the terminal can
//! move the cursor or change the terminal's state.

use vstd::prelude::*;

use super::events::{CodeKind, MarkdownEvent, MarkdownTag, MarkdownTagEnd};
use super::highlight::{syntax_known, theme_known};
use super::writer::{
    LineV, W, append_all, block_end, blocks_from, bolded, cell_spans, cell_width, cells_row, code,
    code_style, code_text, code_theme, column_widths, drop_prefix, find_end, first_word, flag_style,
    fresh, highlight_prefix, highlighted_code, inclusive_lines, item_marker, joined, lemma_block_end, lemma_find_end,
    left_padding, newline, pieces, plain_code, plain_seg, prefix, push_pieces, push_piece, push_text,
    region_style, regions, render_from, rule_text, sat, spaces, step, styled, table_lines, table_scan,
    trim_newlines, unstyled,
};
use super::{
    DIM, LogicalLine, Rows, Seg, rows_start, append, indent_prefix, lemma_indent_prefix_leads, line_rows, place_chars,
    place_graphemes, place_unit, seg_of, span_at, span_texts,
};
use super::writer::line_view;
use crate::render::{escape_all, safe_char, safe_seq};
use crate::text::{escape_default, escape_unicode, hex_char, hex_digits, is_control};
use crate::unicode::{concat, display_width, graphemes_of};

verus! {

/// A text without control characters.
pub open spec fn no_controls(s: Seq<char>) -> bool {
    forall|i: int| 0 <= i < s.len() ==> !is_control(#[trigger] s[i])
}

/// A text whose only control characters are line feeds.
pub open spec fn only_line_feeds(s: Seq<char>) -> bool {
    forall|i: int| 0 <= i < s.len() ==> (#[trigger] s[i] == '\n' || !is_control(s[i]))
}

pub open spec fn row_clean(row: Seq<Seg>) -> bool {
    forall|i: int| 0 <= i < row.len() ==> no_controls(#[trigger] row[i].text)
}

pub open spec fn line_clean(l: LineV) -> bool {
    row_clean(l.spans) && no_controls(l.continuation)
}

pub open spec fn lines_clean(ls: Seq<LineV>) -> bool {
    forall|i: int| 0 <= i < ls.len() ==> line_clean(#[trigger] ls[i])
}

pub open spec fn parts_clean(parts: Seq<Seq<char>>) -> bool {
    forall|i: int| 0 <= i < parts.len() ==> no_controls(#[trigger] parts[i])
}

pub open spec fn writer_clean(w: W) -> bool {
    lines_clean(w.lines) && row_clean(w.current) && parts_clean(w.prefixes)
}

proof fn lemma_join(a: Seq<char>, b: Seq<char>)
    requires
        no_controls(a),
        no_controls(b),
    ensures
        no_controls(a + b),
{
    assert forall|i: int| 0 <= i < (a + b).len() implies !is_control(#[trigger] (a + b)[i]) by {
        if i < a.len() {
            assert((a + b)[i] == a[i]);
        } else {
            assert((a + b)[i] == b[i - a.len()]);
        }
    }
}

proof fn lemma_concat_clean(parts: Seq<Seq<char>>)
    requires
        parts_clean(parts),
    ensures
        no_controls(concat(parts)),
    decreases parts.len(),
{
    if parts.len() > 0 {
        assert(parts_clean(parts.drop_last())) by {
            assert forall|i: int| 0 <= i < parts.drop_last().len() implies no_controls(#[trigger] parts.drop_last()[i]) by {
                assert(parts.drop_last()[i] == parts[i]);
            }
        }
        lemma_concat_clean(parts.drop_last());
        assert(no_controls(parts[parts.len() - 1]));
        lemma_join(concat(parts.drop_last()), parts.last());
    }
}

proof fn lemma_hex_clean(n: nat)
    ensures
        no_controls(hex_digits(n)),
    decreases n,
{
    if n >= 16 {
        lemma_hex_clean(n / 16);
        let d = hex_char(n % 16);
        assert(!is_control(d));
        assert(hex_digits(n) == hex_digits(n / 16).push(d));
        lemma_join(hex_digits(n / 16), seq![d]);
        assert(hex_digits(n / 16).push(d) =~= hex_digits(n / 16) + seq![d]);
    } else {
        assert(!is_control(hex_char(n)));
    }
}

proof fn lemma_escape_unicode_clean(c: char)
    ensures
        no_controls(escape_unicode(c)),
{
    lemma_hex_clean(c as u32 as nat);
    lemma_join(seq!['\\', 'u', '{'], hex_digits(c as u32 as nat));
    lemma_join(seq!['\\', 'u', '{'] + hex_digits(c as u32 as nat), seq!['}']);
}

proof fn lemma_escape_all_clean(g: Seq<char>)
    ensures
        no_controls(escape_all(g)),
    decreases g.len(),
{
    if g.len() > 0 {
        lemma_escape_all_clean(g.drop_last());
        lemma_escape_unicode_clean(g.last());
        lemma_join(escape_all(g.drop_last()), escape_unicode(g.last()));
    }
}

proof fn lemma_safe_char(c: char)
    ensures
        only_line_feeds(safe_char(c)),
{
    if c != '\n' && c != '\t' && is_control(c) {
        if c == '\r' {
            assert(escape_default(c) == seq!['\\', 'r']);
        } else {
            assert(escape_default(c) == escape_unicode(c));
            lemma_escape_unicode_clean(c);
        }
    }
}

proof fn lemma_safe_seq(s: Seq<char>)
    ensures
        only_line_feeds(safe_seq(s)),
    decreases s.len(),
{
    if s.len() > 0 {
        lemma_safe_seq(s.drop_last());
        lemma_safe_char(s.last());
        let a = safe_seq(s.drop_last());
        let b = safe_char(s.last());
        assert forall|i: int| 0 <= i < (a + b).len() implies (#[trigger] (a + b)[i] == '\n' || !is_control((a + b)[i])) by {
            if i < a.len() {
                assert((a + b)[i] == a[i]);
            } else {
                assert((a + b)[i] == b[i - a.len()]);
            }
        }
    }
}

proof fn lemma_pieces_clean(s: Seq<char>)
    requires
        only_line_feeds(s),
    ensures
        parts_clean(pieces(s)),
        pieces(s).len() > 0,
    decreases s.len(),
{
    if s.len() > 0 {
        assert(only_line_feeds(s.drop_last())) by {
            assert forall|i: int| 0 <= i < s.drop_last().len() implies (#[trigger] s.drop_last()[i] == '\n' || !is_control(
                s.drop_last()[i],
            )) by {
                assert(s.drop_last()[i] == s[i]);
            }
        }
        lemma_pieces_clean(s.drop_last());
        let p = pieces(s.drop_last());
        if s.last() != '\n' {
            assert(!is_control(s[s.len() - 1]));
            let last = p.last().push(s.last());
            assert(no_controls(p[p.len() - 1]));
            lemma_join(p.last(), seq![s.last()]);
            assert(p.last().push(s.last()) =~= p.last() + seq![s.last()]);
            assert forall|i: int| 0 <= i < pieces(s).len() implies no_controls(#[trigger] pieces(s)[i]) by {
                if i < p.len() - 1 {
                    assert(pieces(s)[i] == p[i]);
                }
            }
        } else {
            assert forall|i: int| 0 <= i < pieces(s).len() implies no_controls(#[trigger] pieces(s)[i]) by {
                if i < p.len() {
                    assert(pieces(s)[i] == p[i]);
                } else {
                    assert(pieces(s)[i] == Seq::<char>::empty());
                }
            }
        }
    }
}

proof fn lemma_append_clean(row: Seq<Seg>, s: Seg)
    requires
        row_clean(row),
        no_controls(s.text),
    ensures
        row_clean(append(row, s)),
{
    if s.text.len() > 0 {
        if row.len() > 0 && row.last().style == s.style && row.last().link == s.link {
            let n = row.len() - 1;
            assert(no_controls(row[n].text));
            lemma_join(row.last().text, s.text);
            let r = append(row, s);
            assert forall|i: int| 0 <= i < r.len() implies no_controls(#[trigger] r[i].text) by {
                if i < n {
                    assert(r[i] == row[i]);
                }
            }
        } else {
            let r = row.push(s);
            assert forall|i: int| 0 <= i < r.len() implies no_controls(#[trigger] r[i].text) by {
                if i < row.len() {
                    assert(r[i] == row[i]);
                }
            }
        }
    }
}

proof fn lemma_push_piece_clean(w: W, piece: Seq<char>)
    requires
        writer_clean(w),
        no_controls(piece),
    ensures
        writer_clean(push_piece(w, piece)),
{
    lemma_concat_clean(w.prefixes);
    let empty: Seq<Seg> = seq![];
    let cur = if w.current.len() == 0 {
        lemma_append_clean(empty, Seg { text: prefix(w), style: super::plain_style(), link: None });
        append(empty, Seg { text: prefix(w), style: super::plain_style(), link: None })
    } else {
        w.current
    };
    lemma_append_clean(cur, Seg { text: piece, style: super::writer::style_of(w), link: w.link });
}

pub proof fn lemma_newline_clean(w: W, blank: bool)
    requires
        writer_clean(w),
    ensures
        writer_clean(newline(w, blank)),
{
    if w.current.len() > 0 || blank {
        lemma_concat_clean(w.prefixes);
        let n = newline(w, blank);
        assert forall|i: int| 0 <= i < n.lines.len() implies line_clean(#[trigger] n.lines[i]) by {
            if i < w.lines.len() {
                assert(n.lines[i] == w.lines[i]);
            }
        }
    }
}

proof fn lemma_push_pieces_clean(w: W, ps: Seq<Seq<char>>, first: bool)
    requires
        writer_clean(w),
        parts_clean(ps),
    ensures
        writer_clean(push_pieces(w, ps, first)),
    decreases ps.len(),
{
    if ps.len() > 0 {
        let w1 = if first {
            w
        } else {
            lemma_newline_clean(w, false);
            newline(w, false)
        };
        assert(no_controls(ps[0]));
        lemma_push_piece_clean(w1, ps[0]);
        assert(parts_clean(ps.drop_first())) by {
            assert forall|i: int| 0 <= i < ps.drop_first().len() implies no_controls(#[trigger] ps.drop_first()[i]) by {
                assert(ps.drop_first()[i] == ps[i + 1]);
            }
        }
        lemma_push_pieces_clean(push_piece(w1, ps[0]), ps.drop_first(), false);
    }
}

pub proof fn lemma_push_text_clean(w: W, t: Seq<char>)
    requires
        writer_clean(w),
    ensures
        writer_clean(push_text(w, t)),
{
    lemma_safe_seq(t);
    lemma_pieces_clean(safe_seq(t));
    lemma_push_pieces_clean(w, pieces(safe_seq(t)), true);
}

proof fn lemma_spaces_clean(n: nat)
    ensures
        no_controls(spaces(n)),
{
}

proof fn lemma_prefix_pushed(w: W, p: Seq<char>)
    requires
        writer_clean(w),
        no_controls(p),
    ensures
        writer_clean(W { prefixes: w.prefixes.push(p), ..w }),
{
    let ps = w.prefixes.push(p);
    assert forall|i: int| 0 <= i < ps.len() implies no_controls(#[trigger] ps[i]) by {
        if i < w.prefixes.len() {
            assert(ps[i] == w.prefixes[i]);
        }
    }
}

proof fn lemma_prefix_dropped(w: W)
    requires
        writer_clean(w),
    ensures
        writer_clean(drop_prefix(w)),
{
    if w.prefixes.len() > 0 {
        let ps = w.prefixes.drop_last();
        assert forall|i: int| 0 <= i < ps.len() implies no_controls(#[trigger] ps[i]) by {
            assert(ps[i] == w.prefixes[i]);
        }
    }
}

proof fn lemma_step_clean(w: W, e: MarkdownEvent)
    requires
        writer_clean(w),
    ensures
        writer_clean(step(w, e)),
{
    lemma_newline_clean(w, false);
    lemma_newline_clean(w, true);
    let n = newline(w, false);
    match e {
        MarkdownEvent::Start(MarkdownTag::Image) => {
            lemma_push_text_clean(styled(w, flag_style(DIM)), "[img] "@);
        },
        MarkdownEvent::Start(MarkdownTag::BlockQuote) => {
            reveal_strlit("│ ");
            lemma_prefix_pushed(n, "│ "@);
        },
        MarkdownEvent::End(MarkdownTagEnd::BlockQuote) => {
            lemma_prefix_dropped(n);
        },
        MarkdownEvent::End(MarkdownTagEnd::Item) => {
            lemma_prefix_dropped(n);
        },
        MarkdownEvent::Start(MarkdownTag::Item) => {
            let (marker, lists) = item_marker(n.lists);
            let m = W { lists, ..n };
            lemma_push_text_clean(m, marker);
            lemma_prefix_pushed(push_text(m, marker), spaces(display_width(marker)));
        },
        MarkdownEvent::TaskListMarker(checked) => {
            lemma_push_text_clean(w, if checked { "[x] "@ } else { "[ ] "@ });
        },
        MarkdownEvent::Code(t) => {
            lemma_push_text_clean(styled(w, code_style()), t@);
        },
        MarkdownEvent::Text(t) => {
            lemma_push_text_clean(w, t@);
        },
        MarkdownEvent::Literal(t) => {
            lemma_push_text_clean(w, t@);
        },
        MarkdownEvent::SoftBreak => {
            lemma_push_text_clean(w, " "@);
        },
        MarkdownEvent::Rule => {
            lemma_push_text_clean(n, "────"@);
            lemma_newline_clean(push_text(n, "────"@), false);
        },
        _ => {},
    }
}

proof fn lemma_plain_code_clean(w: W, lines: Seq<Seq<char>>)
    requires
        writer_clean(w),
    ensures
        writer_clean(plain_code(w, lines)),
    decreases lines.len(),
{
    if lines.len() > 0 {
        let t = trim_newlines(lines[0]);
        lemma_push_text_clean(w, t);
        lemma_newline_clean(push_text(w, t), true);
        lemma_plain_code_clean(newline(push_text(w, t), true), lines.drop_first());
    }
}

proof fn lemma_regions_clean(w: W, rs: Seq<(u8, u8, u8, u8, Seq<char>)>)
    requires
        writer_clean(w),
    ensures
        writer_clean(regions(w, rs)),
    decreases rs.len(),
{
    if rs.len() > 0 {
        let s = styled(w, region_style(rs[0]));
        let t = trim_newlines(rs[0].4);
        lemma_push_text_clean(s, t);
        lemma_regions_clean(unstyled(push_text(s, t)), rs.drop_first());
    }
}

proof fn lemma_highlighted_code_clean(w: W, lines: Seq<Seq<(u8, u8, u8, u8, Seq<char>)>>)
    requires
        writer_clean(w),
    ensures
        writer_clean(highlighted_code(w, lines)),
    decreases lines.len(),
{
    if lines.len() > 0 {
        lemma_regions_clean(w, lines[0]);
        lemma_newline_clean(regions(w, lines[0]), true);
        lemma_highlighted_code_clean(newline(regions(w, lines[0]), true), lines.drop_first());
    }
}

proof fn lemma_code_clean(w: W, kind: CodeKind, text: Seq<char>)
    requires
        writer_clean(w),
    ensures
        code(w, kind, text) matches Ok(v) ==> writer_clean(v),
{
    let language = match kind {
        CodeKind::Fenced(info) => first_word(info@),
        CodeKind::Indented => seq![],
    };
    let lines = inclusive_lines(text);
    if syntax_known(language) && theme_known(code_theme()) {
        match highlight_prefix(language, code_theme(), lines, lines.len()) {
            Err(_) => {},
            Ok(regions) => lemma_highlighted_code_clean(w, regions),
        }
    } else {
        lemma_plain_code_clean(w, lines);
    }
}

/// Every cell of every table row is clean.
pub open spec fn table_clean(rows: Seq<Seq<Seq<Seg>>>) -> bool {
    forall|r: int| 0 <= r < rows.len() ==> cells_clean(#[trigger] rows[r])
}

pub open spec fn cells_clean(cells: Seq<Seq<Seg>>) -> bool {
    forall|c: int| 0 <= c < cells.len() ==> row_clean(#[trigger] cells[c])
}

proof fn lemma_cell_spans_clean(lines: Seq<LineV>)
    requires
        lines_clean(lines),
    ensures
        row_clean(cell_spans(lines)),
    decreases lines.len(),
{
    if lines.len() > 0 {
        assert(line_clean(lines[0]));
        assert(lines_clean(lines.drop_first())) by {
            assert forall|i: int| 0 <= i < lines.drop_first().len() implies line_clean(#[trigger] lines.drop_first()[i]) by {
                assert(lines.drop_first()[i] == lines[i + 1]);
            }
        }
        lemma_cell_spans_clean(lines.drop_first());
        let a = lines[0].spans;
        let b = cell_spans(lines.drop_first());
        assert forall|i: int| 0 <= i < (a + b).len() implies no_controls(#[trigger] (a + b)[i].text) by {
            if i < a.len() {
                assert((a + b)[i] == a[i]);
            } else {
                assert((a + b)[i] == b[i - a.len()]);
            }
        }
    }
}

proof fn lemma_append_all_clean(row: Seq<Seg>, spans: Seq<Seg>, bold: bool)
    requires
        row_clean(row),
        row_clean(spans),
    ensures
        row_clean(append_all(row, spans, bold)),
    decreases spans.len(),
{
    if spans.len() > 0 {
        assert(no_controls(spans[0].text));
        let s = if bold { bolded(spans[0]) } else { spans[0] };
        lemma_append_clean(row, s);
        assert(row_clean(spans.drop_first())) by {
            assert forall|i: int| 0 <= i < spans.drop_first().len() implies no_controls(#[trigger] spans.drop_first()[i].text) by {
                assert(spans.drop_first()[i] == spans[i + 1]);
            }
        }
        lemma_append_all_clean(append(row, s), spans.drop_first(), bold);
    }
}

proof fn lemma_cells_row_clean(
    spans: Seq<Seg>,
    cells: Seq<Seq<Seg>>,
    c: int,
    widths: Seq<nat>,
    aligns: Seq<super::events::Align>,
    head: bool,
)
    requires
        row_clean(spans),
        cells_clean(cells),
    ensures
        row_clean(cells_row(spans, cells, c, widths, aligns, head)),
    decreases cells.len() - c,
{
    if 0 <= c < cells.len() {
        let width = if c < widths.len() { widths[c] } else { 0 };
        let cw = cell_width(cells[c]);
        let padding: nat = if width > cw { (width - cw) as nat } else { 0 };
        let left = left_padding(if c < aligns.len() { aligns[c] } else { super::events::Align::Unspecified }, padding);
        let before = plain_seg(spaces(sat(left + 1)));
        lemma_append_clean(spans, before);
        let s1 = append(spans, before);
        assert(row_clean(cells[c]));
        lemma_append_all_clean(s1, cells[c], head);
        let s2 = append_all(s1, cells[c], head);
        reveal_strlit("│");
        lemma_join(spaces(sat((padding - left + 1) as nat)), "│"@);
        let after = plain_seg(spaces(sat((padding - left + 1) as nat)) + "│"@);
        lemma_append_clean(s2, after);
        lemma_cells_row_clean(append(s2, after), cells, c + 1, widths, aligns, head);
    }
}

proof fn lemma_joined_clean(parts: Seq<Seq<char>>, sep: Seq<char>)
    requires
        parts_clean(parts),
        no_controls(sep),
    ensures
        no_controls(joined(parts, sep)),
    decreases parts.len(),
{
    if parts.len() > 1 {
        assert(parts_clean(parts.drop_last())) by {
            assert forall|i: int| 0 <= i < parts.drop_last().len() implies no_controls(#[trigger] parts.drop_last()[i]) by {
                assert(parts.drop_last()[i] == parts[i]);
            }
        }
        lemma_joined_clean(parts.drop_last(), sep);
        lemma_join(joined(parts.drop_last(), sep), sep);
        assert(no_controls(parts[parts.len() - 1]));
        lemma_join(joined(parts.drop_last(), sep) + sep, parts.last());
    } else if parts.len() == 1 {
        assert(no_controls(parts[0]));
    }
}

proof fn lemma_rule_clean(pre: Seq<char>, widths: Seq<nat>)
    requires
        no_controls(pre),
    ensures
        no_controls(rule_text(pre, widths)),
{
    let parts = widths.map_values(|w: nat| Seq::new(sat(w + 2), |i: int| '─'));
    assert(parts_clean(parts));
    reveal_strlit("├");
    reveal_strlit("┼");
    reveal_strlit("┤");
    lemma_joined_clean(parts, "┼"@);
    lemma_join(pre, "├"@);
    lemma_join(pre + "├"@, joined(parts, "┼"@));
    lemma_join(pre + "├"@ + joined(parts, "┼"@), "┤"@);
}

proof fn lemma_table_lines_clean(pre: Seq<char>, rows: Seq<Seq<Seq<Seg>>>, index: int, widths: Seq<nat>, aligns: Seq<super::events::Align>)
    requires
        no_controls(pre),
        table_clean(rows),
    ensures
        lines_clean(table_lines(pre, rows, index, widths, aligns)),
    decreases rows.len() - index,
{
    if 0 <= index < rows.len() {
        reveal_strlit("│");
        lemma_join(pre, "│"@);
        let first: Seq<Seg> = seq![plain_seg(pre + "│"@)];
        assert(row_clean(first));
        assert(cells_clean(rows[index]));
        lemma_cells_row_clean(first, rows[index], 0, widths, aligns, index == 0);
        let line = LineV { spans: cells_row(first, rows[index], 0, widths, aligns, index == 0), continuation: seq![], clip: true };
        assert(line_clean(line));
        lemma_rule_clean(pre, widths);
        let rule = LineV { spans: seq![plain_seg(rule_text(pre, widths))], continuation: seq![], clip: true };
        assert(row_clean(rule.spans));
        assert(line_clean(rule));
        let here = if index == 0 { seq![line, rule] } else { seq![line] };
        assert(lines_clean(here));
        lemma_table_lines_clean(pre, rows, index + 1, widths, aligns);
        let rest = table_lines(pre, rows, index + 1, widths, aligns);
        assert forall|i: int| 0 <= i < (here + rest).len() implies line_clean(#[trigger] (here + rest)[i]) by {
            if i < here.len() {
                assert((here + rest)[i] == here[i]);
            } else {
                assert((here + rest)[i] == rest[i - here.len()]);
            }
        }
    }
}

proof fn lemma_lines_joined(a: Seq<LineV>, b: Seq<LineV>)
    requires
        lines_clean(a),
        lines_clean(b),
    ensures
        lines_clean(a + b),
{
    assert forall|i: int| 0 <= i < (a + b).len() implies line_clean(#[trigger] (a + b)[i]) by {
        if i < a.len() {
            assert((a + b)[i] == a[i]);
        } else {
            assert((a + b)[i] == b[i - a.len()]);
        }
    }
}

/// Rendering keeps the renderer clean from any clean state on.
proof fn lemma_render_clean(w: W, evs: Seq<MarkdownEvent>, pos: int)
    requires
        writer_clean(w),
    ensures
        render_from(w, evs, pos) matches Ok(v) ==> writer_clean(v),
    decreases evs.len(), evs.len() - pos,
{
    if pos < 0 || pos >= evs.len() {
        lemma_newline_clean(w, false);
    } else {
        match evs[pos] {
            MarkdownEvent::Start(MarkdownTag::CodeBlock(kind)) => {
                let end = find_end(evs, pos + 1, true);
                lemma_find_end(evs, pos + 1, true);
                lemma_newline_clean(w, false);
                lemma_code_clean(newline(w, false), kind, code_text(evs, pos + 1, end));
                match code(newline(w, false), kind, code_text(evs, pos + 1, end)) {
                    Err(_) => {},
                    Ok(v) => lemma_render_clean(v, evs, if end < evs.len() { end + 1 } else { evs.len() as int }),
                }
            },
            MarkdownEvent::Start(MarkdownTag::Table(aligns)) => {
                lemma_newline_clean(w, false);
                let n = newline(w, false);
                lemma_table_scan_clean(evs, pos + 1, seq![], seq![]);
                match table_scan(evs, pos + 1, seq![], seq![]) {
                    Err(_) => {},
                    Ok((rows, next)) => {
                        lemma_concat_clean(n.prefixes);
                        let t = table_lines(prefix(n), rows, 0, column_widths(rows, aligns@.len()), aligns@);
                        lemma_table_lines_clean(prefix(n), rows, 0, column_widths(rows, aligns@.len()), aligns@);
                        lemma_lines_joined(n.lines, t);
                        let next = if pos < next <= evs.len() { next } else { evs.len() as int };
                        lemma_render_clean(W { lines: n.lines + t, ..n }, evs, next);
                    },
                }
            },
            e => {
                lemma_step_clean(w, e);
                lemma_render_clean(step(w, e), evs, pos + 1);
            },
        }
    }
}

/// Collecting a table keeps its rows clean.
proof fn lemma_table_scan_clean(evs: Seq<MarkdownEvent>, pos: int, rows: Seq<Seq<Seq<Seg>>>, row: Seq<Seq<Seg>>)
    requires
        table_clean(rows),
        cells_clean(row),
    ensures
        table_scan(evs, pos, rows, row) matches Ok((r, _)) ==> table_clean(r),
    decreases evs.len(), evs.len() - pos,
{
    if 0 <= pos < evs.len() {
        match evs[pos] {
            MarkdownEvent::Start(MarkdownTag::TableCell) => {
                let end = find_end(evs, pos + 1, false);
                lemma_find_end(evs, pos + 1, false);
                assert(writer_clean(fresh()));
                lemma_render_clean(fresh(), evs.subrange(pos + 1, end), 0);
                match render_from(fresh(), evs.subrange(pos + 1, end), 0) {
                    Err(_) => {},
                    Ok(cw) => {
                        lemma_cell_spans_clean(cw.lines);
                        let row2 = row.push(cell_spans(cw.lines));
                        assert(cells_clean(row2)) by {
                            assert forall|c: int| 0 <= c < row2.len() implies row_clean(#[trigger] row2[c]) by {
                                if c < row.len() {
                                    assert(row2[c] == row[c]);
                                }
                            }
                        }
                        lemma_table_scan_clean(evs, if end < evs.len() { end + 1 } else { evs.len() as int }, rows, row2);
                    },
                }
            },
            MarkdownEvent::End(MarkdownTagEnd::TableHead) | MarkdownEvent::End(MarkdownTagEnd::TableRow) => {
                let rows2 = rows.push(row);
                assert(table_clean(rows2)) by {
                    assert forall|r: int| 0 <= r < rows2.len() implies cells_clean(#[trigger] rows2[r]) by {
                        if r < rows.len() {
                            assert(rows2[r] == rows[r]);
                        }
                    }
                }
                lemma_table_scan_clean(evs, pos + 1, rows2, seq![]);
            },
            MarkdownEvent::End(MarkdownTagEnd::Table) => {},
            _ => lemma_table_scan_clean(evs, pos + 1, rows, row),
        }
    }
}

/// Rendered Markdown holds no control characters: every segment of every
/// line of every block, and every hanging indent, is free of them, whatever
/// text, code or link labels the events carry.
pub proof fn lemma_blocks_hold_no_controls(evs: Seq<MarkdownEvent>, pos: int)
    ensures
        forall|k: int|
            0 <= k < blocks_from(evs, pos).len() ==> (#[trigger] blocks_from(evs, pos)[k] matches Ok(lines)
                ==> lines_clean(lines)),
    decreases evs.len() - pos,
{
    if 0 <= pos < evs.len() {
        let end = block_end(evs, pos, 0);
        lemma_block_end(evs, pos, 0);
        assert(writer_clean(fresh()));
        lemma_render_clean(fresh(), evs.subrange(pos, end), 0);
        lemma_blocks_hold_no_controls(evs, end);
        let rest = blocks_from(evs, end);
        match render_from(fresh(), evs.subrange(pos, end), 0) {
            Err(_) => {},
            Ok(v) => {
                let all = blocks_from(evs, pos);
                assert forall|k: int| 0 <= k < all.len() implies (#[trigger] all[k] matches Ok(lines) ==> lines_clean(
                    lines,
                )) by {
                    if k > 0 {
                        assert(all[k] == rest[k - 1]);
                    }
                }
            },
        }
    }
}


/// Every part of clean joined text is clean.
proof fn lemma_parts_of_clean(parts: Seq<Seq<char>>)
    requires
        no_controls(concat(parts)),
    ensures
        parts_clean(parts),
    decreases parts.len(),
{
    if parts.len() > 0 {
        let a = concat(parts.drop_last());
        let b = parts.last();
        assert forall|i: int| 0 <= i < a.len() implies !is_control(#[trigger] a[i]) by {
            assert((a + b)[i] == a[i]);
        }
        assert forall|i: int| 0 <= i < b.len() implies !is_control(#[trigger] b[i]) by {
            assert((a + b)[i + a.len()] == b[i]);
        }
        lemma_parts_of_clean(parts.drop_last());
        assert forall|i: int| 0 <= i < parts.len() implies no_controls(#[trigger] parts[i]) by {
            if i < parts.len() - 1 {
                assert(parts[i] == parts.drop_last()[i]);
            }
        }
    }
}

/// Rows in progress, all of them clean.
spec fn rows_state_clean(st: Rows) -> bool {
    &&& forall|i: int| 0 <= i < st.rows.len() ==> row_clean(#[trigger] st.rows[i])
    &&& row_clean(st.row)
}

proof fn lemma_place_unit_clean(
    st: Rows,
    unit: Seq<char>,
    style: super::TextStyle,
    link: Option<Seq<char>>,
    cont: Seq<char>,
    width: nat,
    clip: bool,
)
    requires
        rows_state_clean(st),
        no_controls(unit),
        no_controls(cont),
        concat(graphemes_of(cont)) == cont,
    ensures
        rows_state_clean(place_unit(st, unit, style, link, cont, width, clip)),
{
    let seg = Seg { text: unit, style, link };
    if !st.stopped && !(st.columns + display_width(unit) > width && clip) {
        if st.columns + display_width(unit) > width {
            let p = indent_prefix(graphemes_of(cont), 0, display_width(unit), width);
            lemma_indent_prefix_leads(graphemes_of(cont), 0, display_width(unit), width);
            assert forall|i: int| 0 <= i < p.len() implies !is_control(#[trigger] p[i]) by {
                assert(p[i] == cont.take(p.len() as int)[i]);
            }
            let lead = Seg { text: p, style: super::plain_style(), link: None };
            lemma_append_clean(seq![], lead);
            let first = append(seq![], lead);
            lemma_append_clean(first, seg);
            let rows2 = st.rows.push(st.row);
            assert forall|i: int| 0 <= i < rows2.len() implies row_clean(#[trigger] rows2[i]) by {
                if i < st.rows.len() {
                    assert(rows2[i] == st.rows[i]);
                }
            }
        } else {
            lemma_append_clean(st.row, seg);
        }
    }
}

proof fn lemma_place_chars_clean(
    st: Rows,
    cs: Seq<char>,
    style: super::TextStyle,
    link: Option<Seq<char>>,
    cont: Seq<char>,
    width: nat,
    clip: bool,
)
    requires
        rows_state_clean(st),
        no_controls(cs),
        no_controls(cont),
        concat(graphemes_of(cont)) == cont,
    ensures
        rows_state_clean(place_chars(st, cs, style, link, cont, width, clip)),
    decreases cs.len(),
{
    if cs.len() > 0 {
        assert(!is_control(cs[0]));
        assert(no_controls(seq![cs[0]]));
        lemma_place_unit_clean(st, seq![cs[0]], style, link, cont, width, clip);
        assert(no_controls(cs.drop_first())) by {
            assert forall|i: int| 0 <= i < cs.drop_first().len() implies !is_control(#[trigger] cs.drop_first()[i]) by {
                assert(cs.drop_first()[i] == cs[i + 1]);
            }
        }
        lemma_place_chars_clean(
            place_unit(st, seq![cs[0]], style, link, cont, width, clip),
            cs.drop_first(),
            style,
            link,
            cont,
            width,
            clip,
        );
    }
}

proof fn lemma_place_graphemes_clean(st: Rows, gs: Seq<Seq<char>>, offset: nat, line: LogicalLine, width: nat)
    requires
        rows_state_clean(st),
        parts_clean(gs),
        no_controls(line.continuation@),
        concat(graphemes_of(line.continuation@)) == line.continuation@,
    ensures
        rows_state_clean(place_graphemes(st, gs, offset, line, width)),
    decreases gs.len(),
{
    if gs.len() > 0 {
        let span = seg_of(line.spans@[span_at(line.spans@, offset)]);
        let g = gs[0];
        assert(no_controls(g));
        if display_width(g) > width && !line.clip {
            lemma_escape_all_clean(g);
            lemma_place_chars_clean(st, escape_all(g), span.style, span.link, line.continuation@, width, line.clip);
        } else {
            lemma_place_unit_clean(st, g, span.style, span.link, line.continuation@, width, line.clip);
        }
        let next = if display_width(g) > width && !line.clip {
            place_chars(st, escape_all(g), span.style, span.link, line.continuation@, width, line.clip)
        } else {
            place_unit(st, g, span.style, span.link, line.continuation@, width, line.clip)
        };
        assert(parts_clean(gs.drop_first())) by {
            assert forall|i: int| 0 <= i < gs.drop_first().len() implies no_controls(#[trigger] gs.drop_first()[i]) by {
                assert(gs.drop_first()[i] == gs[i + 1]);
            }
        }
        lemma_place_graphemes_clean(next, gs.drop_first(), offset + g.len(), line, width);
    }
}

/// A clean line lays out into clean rows: no row segment holds a control
/// character, whether it carries the line's text, an escape of a grapheme
/// too wide for the row, or a run of the hanging indent.
pub(crate) proof fn lemma_line_rows_clean(line: LogicalLine, width: nat)
    requires
        line_clean(line_view(line)),
        concat(graphemes_of(line.continuation@)) == line.continuation@,
        concat(graphemes_of(concat(span_texts(line.spans@)))) == concat(span_texts(line.spans@)),
    ensures
        forall|r: int| 0 <= r < line_rows(line, width).len() ==> row_clean(#[trigger] line_rows(line, width)[r]),
{
    let texts = span_texts(line.spans@);
    assert forall|i: int| 0 <= i < texts.len() implies no_controls(#[trigger] texts[i]) by {
        assert(line_view(line).spans[i] == seg_of(line.spans@[i]));
        assert(line_view(line).spans[i].text == texts[i]);
        assert(no_controls(line_view(line).spans[i].text));
    }
    lemma_concat_clean(texts);
    lemma_parts_of_clean(graphemes_of(concat(texts)));
    let start = rows_start();
    lemma_place_graphemes_clean(start, graphemes_of(concat(texts)), 0, line, width);
    let st = place_graphemes(start, graphemes_of(concat(texts)), 0, line, width);
    let all = st.rows.push(st.row);
    assert forall|r: int| 0 <= r < all.len() implies row_clean(#[trigger] all[r]) by {
        if r < st.rows.len() {
            assert(all[r] == st.rows[r]);
        }
    }
}

} // verus!
