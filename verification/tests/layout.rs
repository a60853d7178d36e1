use minuet::editor::{grapheme_boundaries, step_target};
use minuet::layout::InputLayout;

fn lines(text: &str) -> Vec<String> {
    text.split('\n').map(str::to_owned).collect()
}

#[test]
fn wraps_graphemes_and_places_the_cursor_after_full_width_text() {
    let text = lines("中e\u{301}👩‍💻");
    let end = (0, text[0].chars().count());
    let layout = InputLayout::new(&text, end, 7);
    assert_eq!(layout.lines(), &["中e\u{301}👩‍💻", ""]);
    assert_eq!(layout.cursor(), (1, 0));
    let boundaries = grapheme_boundaries(&text[0]);
    let left = step_target(&boundaries, end.1, true).unwrap();
    let layout = InputLayout::new(&text, (0, left), 7);
    assert_eq!(layout.cursor(), (0, 3));
}

#[test]
fn manual_newlines_tabs_and_narrow_width_preserve_content() {
    let text = lines("中\tX\nlast");
    let end = (1, 4);
    let layout = InputLayout::new(&text, end, 10);
    assert_eq!(layout.lines(), &["中  X", "last"]);
    assert_eq!(layout.cursor(), (1, 4));
    let narrow = InputLayout::new(&text, end, 1);
    assert!(narrow.lines().concat().starts_with("\\u{4e2d}"));
    assert_eq!(narrow.cursor().1, 0);
}

#[test]
fn height_is_capped_at_eight_rows() {
    let text = lines("1\n2\n3\n4\n5\n6\n7\n8\n9");
    assert_eq!(InputLayout::new(&text, (0, 0), 20).height(), 8);
    assert_eq!(InputLayout::new(&lines(""), (0, 0), 20).height(), 1);
    assert_eq!(InputLayout::new(&lines(""), (0, 0), 20).prefix(), 2);
    assert_eq!(InputLayout::new(&lines(""), (0, 0), 2).prefix(), 1);
}
