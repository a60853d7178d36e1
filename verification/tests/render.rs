use minuet::render::{OutputTail, Status, Tone, elapsed, preview_lines, safe_text};

#[test]
fn render_displays_unterminated_fragments_and_preserves_combining_boundaries() {
    let mut tail = OutputTail::default();
    assert_eq!(tail.push("开始e", 5), Vec::<String>::new());
    assert_eq!(tail.text, "开始e");
    assert_eq!(tail.push("\u{301}后\n", 5), vec!["开始e\u{301}", "后"]);
    assert_eq!(tail.text, "");
}

#[test]
fn render_rewraps_pending_output_after_resize_without_losing_text() {
    let mut tail = OutputTail::default();
    tail.push("中文abc", 12);
    assert_eq!(tail.push("", 4), vec!["中文"]);
    assert_eq!(tail.text, "abc");
}

#[test]
fn renders_controls_as_text_in_both_output_modes() {
    assert_eq!(safe_text("a\x1b[2J\r\nb\t"), "a\\u{1b}[2J\\r\nb    ");
}

#[test]
fn mod_displays_unterminated_fragments_and_preserves_combining_boundaries() {
    let mut tail = OutputTail::default();
    assert_eq!(tail.push("开始e", 5), Vec::<String>::new());
    assert_eq!(tail.text, "开始e");
    assert_eq!(tail.push("\u{301}后\n", 5), vec!["开始e\u{301}", "后"]);
    assert_eq!(tail.text, "");
}

#[test]
fn mod_rewraps_pending_output_after_resize_without_losing_text() {
    let mut tail = OutputTail::default();
    tail.push("中文abc", 12);
    assert_eq!(tail.push("", 4), vec!["中文"]);
    assert_eq!(tail.text, "abc");
}

#[test]
fn renders_controls_as_text() {
    assert_eq!(safe_text("a\x1b[2J\r\nb\t"), "a\\u{1b}[2J\\r\nb    ");
}

#[test]
fn preview_keeps_only_the_latest_rows() {
    let text = "old\n中文e\u{301}\nlatest";
    let preview = preview_lines(text, 20, 2);
    assert_eq!(preview, ["中文e\u{301}", "latest"]);
    assert_eq!(preview_lines(text, 20, 1), ["latest"]);
    assert!(preview_lines(text, 20, 0).is_empty());
    assert!(preview_lines("", 20, 6).is_empty());
}

#[test]
fn elapsed_labels_switch_units_at_minutes_and_hours() {
    for (seconds, label) in [
        (0, "0s"),
        (59, "59s"),
        (60, "1m 00s"),
        (3599, "59m 59s"),
        (3600, "1h 00m 00s"),
        (3661, "1h 01m 01s"),
    ] {
        assert_eq!(elapsed(seconds), label);
    }
}

#[test]
fn status_line_keeps_the_waiting_time_beside_a_safe_label() {
    let status = Status { label: "Waiting\x07", elapsed_ms: 61_150 };
    assert_eq!(status.text(), "⠙ 1m 01s · Waiting\\u{7}");
    let start = Status { label: "Waiting for model…", elapsed_ms: 0 };
    assert!(start.text().starts_with("⠋ 0s · "));
}

#[test]
fn a_glyph_wider_than_the_row_is_kept_as_its_escape() {
    let mut tail = OutputTail { text: String::new(), tone: Tone::Meta, indent: 2 };
    let rows = tail.push("中", 1);
    assert_eq!(rows.concat() + &tail.text, "\\u{4e2d}");
    assert_eq!(tail.tone, Tone::Meta);
    assert_eq!(tail.indent, 2);
}

#[test]
fn safe_text_is_piecewise_and_stable() {
    let a = "a\u{1b}[2J\tb\n";
    let b = "c\r\u{7}d";
    let whole = format!("{a}{b}");
    assert_eq!(safe_text(&whole), format!("{}{}", safe_text(a), safe_text(b)));
    assert_eq!(safe_text(&safe_text(&whole)), safe_text(&whole));
    assert_eq!(safe_text(&whole).matches('\n').count(), whole.matches('\n').count());
    assert!(safe_text(&whole).chars().all(|c| c == '\n' || !c.is_control()));
}
