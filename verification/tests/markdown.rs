use minuet::markdown::parse::markdown_blocks;
use minuet::markdown::{
    link_destination, Block, Color, LogicalLine, Segment, TextStyle, BOLD, CROSSED_OUT, ITALIC,
};
use unicode_width::UnicodeWidthStr;

type Row = Vec<Segment>;

fn render(source: &str, width: u16) -> Vec<Row> {
    markdown_blocks(source)
        .into_iter()
        .flat_map(|block| block.unwrap().rows(width))
        .collect()
}

fn text(rows: &[Row]) -> Vec<String> {
    rows.iter().map(|row| row.iter().map(|s| s.text.as_str()).collect()).collect()
}

fn has(style: TextStyle, flag: u16) -> bool {
    style.modifiers & flag != 0
}

fn check_structure_styles_and_destinations() {
    let source = "# Title\n\n**bold** *italic* ~~gone~~ `code`\n\n[**same**][ref] and [same](https://other.test)\n\n[ref]: https://example.test/a\n";
    assert_eq!(markdown_blocks(source).len(), 3);
    let rows = render(source, 80);
    assert_eq!(text(&rows), ["Title", "bold italic gone code", "same and same"]);
    assert!(has(rows[0][0].style, BOLD));
    for (word, modifier) in [("bold", BOLD), ("italic", ITALIC), ("gone", CROSSED_OUT)] {
        assert!(rows[1].iter().any(|s| s.text == word && has(s.style, modifier)));
    }
    let links: Vec<_> = rows[2].iter().filter_map(|s| s.link.as_deref()).collect();
    assert_eq!(links, ["https://example.test/a", "https://other.test"]);
    assert!(has(rows[2][0].style, BOLD));
}

#[test]
fn markdown_blocks_preserve_structure_styles_and_reference_destinations() {
    check_structure_styles_and_destinations();
}

#[test]
fn tests_blocks_preserve_structure_styles_and_reference_destinations() {
    check_structure_styles_and_destinations();
}

fn check_unicode_and_link_wrapping() {
    let source = "[中文e\u{301}👩‍💻结束](https://example.test)";
    let rows = render(source, 5);
    assert_eq!(text(&rows).concat(), "中文e\u{301}👩‍💻结束");
    for row in &rows {
        assert!(row.iter().map(|s| s.text.width()).sum::<usize>() <= 5);
        assert!(row.iter().all(|s| s.link.as_deref() == Some("https://example.test")));
    }
    let narrow = text(&render("中", 1)).concat();
    assert_eq!(narrow, "\\u{4e2d}");
    assert_eq!(text(&render("**e**\u{301}后", 2)), ["e\u{301}", "后"]);
}

#[test]
fn markdown_wraps_unicode_and_link_labels_without_losing_content_or_target() {
    check_unicode_and_link_wrapping();
}

#[test]
fn tests_wraps_unicode_and_link_labels_without_losing_content_or_target() {
    check_unicode_and_link_wrapping();
}

fn check_hanging_indents() {
    assert_eq!(
        text(&render("- abcdefghij\n- [x] done", 8)),
        ["• abcdef", "  ghij", "• [x] do", "  ne"]
    );
    assert_eq!(
        text(&render("> quote\n>\n> 3. outer\n>    - inner", 80)),
        ["│ quote", "│ 3. outer", "│    • inner"]
    );
    assert_eq!(text(&render("- first\n\n  second", 80)), ["• first", "  second"]);
}

#[test]
fn markdown_lists_quotes_and_code_keep_hanging_indents() {
    check_hanging_indents();
}

#[test]
fn tests_lists_quotes_and_code_keep_hanging_indents() {
    check_hanging_indents();
}

#[test]
fn markdown_code_highlighting_preserves_blank_lines_indentation_and_unclosed_fences() {
    let rows = render("```rust\nfn main() {\n\n    println!(\"hi\");\n}", 80);
    assert_eq!(text(&rows), ["fn main() {", "", "    println!(\"hi\");", "}"]);
    let mut colors: Vec<Color> = Vec::new();
    for s in rows.iter().flatten() {
        if let Some(c) = s.style.fg {
            if !colors.contains(&c) {
                colors.push(c);
            }
        }
    }
    assert!(colors.len() >= 3, "code must have distinct token colors");
    assert_eq!(text(&render("```unknown-xyz\n  x\n\n```", 80)), ["  x", ""]);
}

fn check_tables() {
    let source = "| Key | Value |\n| :-- | --: |\n| [中](https://example.test) | 12345 |\n\nAfter the table";
    let rows = render(source, 80);
    assert_eq!(
        text(&rows),
        ["│ Key │ Value │", "├─────┼───────┤", "│ 中  │ 12345 │", "After the table"]
    );
    assert!(rows[2].iter().any(|s| s.text == "中" && s.link.is_some()));
    assert_eq!(
        text(&render(source, 7)),
        ["│ Key │", "├─────┼", "│ 中  │", "After t", "he tabl", "e"]
    );
    assert_eq!(text(&render("|中x|\n|--|\n|值|", 3)), ["│ ", "├──", "│ "]);
}

#[test]
fn markdown_tables_align_cells_preserve_links_and_clip_only_at_the_right_edge() {
    check_tables();
}

#[test]
fn tests_tables_align_cells_preserve_links_and_clip_only_at_the_right_edge() {
    check_tables();
}

fn check_controls() {
    let rows = render("Hi &#27;[2J\u{1b}]0;title\u{7} **bold** ![alt](image.png)", 200);
    let text = text(&rows).concat();
    assert!(text.contains("\\u{1b}[2J\\u{1b}]0;title\\u{7}"));
    assert!(text.contains("bold [img] alt"));
    assert!(!text.chars().any(char::is_control));
}

#[test]
fn markdown_controls_are_sanitized_after_markdown_entities_are_decoded() {
    check_controls();
}

#[test]
fn tests_controls_are_sanitized_after_markdown_entities_are_decoded() {
    check_controls();
}

fn check_large_answer() {
    let source = format!("```\n{}```", "x\n".repeat(65_536));
    let rows = render(&source, 1);
    assert_eq!(rows.iter().filter(|row| row.iter().any(|s| s.text == "x")).count(), 65_536);
}

#[test]
fn markdown_large_answer_is_not_limited_to_u16_rows_or_terminal_height() {
    check_large_answer();
}

#[test]
fn tests_large_answer_is_not_limited_to_u16_rows_or_terminal_height() {
    check_large_answer();
}

#[test]
fn ordered_lists_count_on_and_rules_stand_alone() {
    assert_eq!(text(&render("7. a\n8. b\n\n---\n\nend", 80)), ["7. a", "8. b", "────", "end"]);
}

#[test]
fn tables_center_and_pad_cells() {
    assert_eq!(
        text(&render("| a | b |\n| :-: | --- |\n| xxxxx | y |", 80)),
        ["│   a   │ b │", "├───────┼───┤", "│ xxxxx │ y │"]
    );
}

fn plain_segment(text: &str) -> Segment {
    Segment { text: text.to_owned(), style: TextStyle { fg: None, modifiers: 0 }, link: None }
}

#[test]
fn rows_wrap_with_continuation_and_escape_overwide_graphemes() {
    let line = LogicalLine { spans: vec![plain_segment("abcdef")], continuation: "> ".to_owned(), clip: false };
    let rows = Block(vec![line]).rows(4);
    assert_eq!(text(&rows), ["abcd", "> ef"]);
    let wide = LogicalLine { spans: vec![plain_segment("中")], continuation: String::new(), clip: false };
    assert_eq!(text(&Block(vec![wide]).rows(0)), ["\\", "u", "{", "4", "e", "2", "d", "}"]);
    let clipped = LogicalLine { spans: vec![plain_segment("abcdef")], continuation: String::new(), clip: true };
    assert_eq!(text(&Block(vec![clipped]).rows(3)), ["abc"]);
}

#[test]
fn rows_shorten_the_indent_to_leave_room_for_text() {
    let line = LogicalLine { spans: vec![plain_segment("abcdef")], continuation: "    ".to_owned(), clip: false };
    let rows = text(&Block(vec![line]).rows(3));
    assert_eq!(rows, ["abc", "  d", "  e", "  f"]);
    let kept: String = rows.iter().enumerate().map(|(i, r)| if i == 0 { r.as_str() } else { r.trim_start() }).collect();
    assert_eq!(kept, "abcdef");
}

#[test]
fn rows_join_segments_with_equal_style_and_link() {
    let line = LogicalLine { spans: vec![plain_segment("ab"), plain_segment("cd")], continuation: String::new(), clip: false };
    let rows = Block(vec![line]).rows(80);
    assert_eq!(rows.len(), 1);
    assert_eq!(rows[0], vec![plain_segment("abcd")]);
}

#[test]
fn link_destinations_percent_encode_controls() {
    assert_eq!(link_destination("https://example.test/\u{1b}X\u{7}"), "https://example.test/%1BX%07");
    assert_eq!(link_destination("a\u{85}b"), "a%C2%85b");
    assert_eq!(link_destination("plain/ü"), "plain/ü");
}
