use minuet::command::{EffortChange, Line, chat_stdout, classify, effort_change, entry, help_text, trim_text};

#[test]
fn prompts_keep_their_whitespace_and_only_slash_lines_are_commands() {
    let prompt = "  中文\n    code\n";
    assert_eq!(classify(prompt), Line::Prompt(prompt.into()));
    assert_eq!(classify(" \t\n"), Line::Empty);
    assert_eq!(
        classify(" /model  effort\t 'vendor depth $HOME' "),
        Line::Words(vec!["/model".into(), "effort".into(), "vendor depth $HOME".into()])
    );
    assert!(matches!(classify("/model effort 'unterminated"), Line::Notice { is_error: true, .. }));
}

#[test]
fn help_entries_and_footer() {
    assert_eq!(entry("/help", Some("Show available commands".into())), "/help — Show available commands");
    assert_eq!(entry("<NAME>", None), "<NAME>");
    assert!(help_text("Commands:").ends_with("Use /<command> --help for subcommands and arguments."));
}

#[test]
fn effort_values_are_opaque_except_clear() {
    assert_eq!(effort_change(None), EffortChange::Show);
    assert_eq!(effort_change(Some("clear".into())), EffortChange::Clear);
    assert_eq!(effort_change(Some("high".into())), EffortChange::Assign("high".into()));
}

#[test]
fn chat_output_gets_one_final_newline() {
    assert_eq!(chat_stdout("done"), "done\n");
    assert_eq!(chat_stdout("done\n"), "done\n");
    assert_eq!(chat_stdout(""), "");
    assert_eq!(trim_text("\u{3000} a b \n"), "a b");
}
