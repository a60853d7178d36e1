use minuet::editor::{
    Action, action_for,
    EditCommand, EditorEvent, KeyName, Modifiers, decide, delete_span, grapheme_boundaries, join_lines,
    sanitize_paste, step_target, vertical_target,
};

const NONE: Modifiers = Modifiers { control: false, alt: false, shift: false, other: false };

fn key(key: KeyName, modifiers: Modifiers) -> EditorEvent {
    EditorEvent::Key { key, modifiers, release: false }
}

#[test]
fn enter_submits_and_busy_input_only_allows_exit() {
    assert_eq!(decide(&key(KeyName::Enter, NONE), false), EditCommand::Submit);
    let shift = Modifiers { shift: true, ..NONE };
    let control = Modifiers { control: true, ..NONE };
    assert_eq!(decide(&key(KeyName::Enter, shift), false), EditCommand::InsertNewline);
    assert_eq!(decide(&key(KeyName::Char('o'), control), false), EditCommand::InsertNewline);
    assert_eq!(decide(&key(KeyName::Char('x'), NONE), true), EditCommand::Ignore);
    assert_eq!(decide(&key(KeyName::Char('c'), control), true), EditCommand::Exit);
    let release = EditorEvent::Key { key: KeyName::Enter, modifiers: NONE, release: true };
    assert_eq!(decide(&release, false), EditCommand::Ignore);
    assert_eq!(decide(&key(KeyName::Char('A'), shift), false), EditCommand::InsertChar('A'));
    assert_eq!(decide(&key(KeyName::Tab, NONE), false), EditCommand::InsertChar('\t'));
}

#[test]
fn paste_is_one_safe_edit() {
    assert_eq!(
        decide(&EditorEvent::Paste("a\r\nb\rc\x1b\t".into()), false),
        EditCommand::Insert("a\nb\nc\\u{1b}\t".into())
    );
    assert_eq!(sanitize_paste("\r\r\n"), "\n\n");
    assert_eq!(join_lines(&["a".into(), "".into(), "b".into()]), "a\n\nb");
}

#[test]
fn cursor_moves_and_deletions_cover_whole_graphemes() {
    let b = grapheme_boundaries("a中e\u{301}👩‍💻");
    assert_eq!(b, [0, 1, 2, 4, 7]);
    assert_eq!(step_target(&b, 7, true), Some(4));
    assert_eq!(step_target(&b, 0, true), None);
    assert_eq!(step_target(&b, 2, false), Some(4));
    assert_eq!(vertical_target(&b, 3), 2);
    assert_eq!(delete_span(&b, 7, true), Some((4, 7)));
    assert_eq!(delete_span(&b, 2, false), Some((2, 4)));
    assert_eq!(delete_span(&b, 7, false), None);
}

#[test]
fn commands_come_to_actions() {
    let lines = vec!["one".to_owned(), "two".to_owned()];
    assert_eq!(action_for(&EditCommand::Submit, &lines), Action::Submit("one\ntwo".to_owned()));
    assert_eq!(action_for(&EditCommand::Exit, &lines), Action::Exit);
    assert_eq!(action_for(&EditCommand::InsertNewline, &lines), Action::Edit);
}
