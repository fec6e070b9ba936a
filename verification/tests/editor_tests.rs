use hey::{
    completion_strings, Command, CommandCompleter, EditorConfig, EditorPrompt, InputPart,
    LineValidation, PromptHighlighter, PromptValidator, ReedlineEditMode, StyleColor,
};

#[test]
fn parse_line_of_a_plain_message() {
    let h = PromptHighlighter::new();
    let parts = h.parse_line("hello world");
    assert_eq!(parts.len(), 2);
    assert_eq!(parts[0], (InputPart::MessageText, "hello ".to_string()));
    assert_eq!(parts[1], (InputPart::MessageText, "world".to_string()));
}

#[test]
fn parse_line_of_a_valid_command() {
    let h = PromptHighlighter::new();
    let parts = h.parse_line("/exit now please");
    assert_eq!(parts.len(), 4);
    assert_eq!(parts[0], (InputPart::Slash, "/".to_string()));
    assert_eq!(parts[1], (InputPart::ValidCommand(Command::Exit), "exit ".to_string()));
    assert_eq!(parts[2], (InputPart::ValidArgument, "now ".to_string()));
    assert_eq!(parts[3], (InputPart::ValidArgument, "please".to_string()));
}

#[test]
fn parse_line_of_an_invalid_command() {
    let h = PromptHighlighter::new();
    let parts = h.parse_line("/bogus arg");
    assert_eq!(parts.len(), 3);
    assert_eq!(parts[0], (InputPart::Slash, "/".to_string()));
    assert_eq!(parts[1], (InputPart::InvalidCommand, "bogus ".to_string()));
    assert_eq!(parts[2], (InputPart::InvalidArgument, "arg".to_string()));
}

#[test]
fn parse_line_with_leading_whitespace() {
    let h = PromptHighlighter::new();
    let parts = h.parse_line("  /x");
    assert_eq!(parts.len(), 4);
    assert_eq!(parts[0], (InputPart::Whitespace, " ".to_string()));
    assert_eq!(parts[1], (InputPart::Whitespace, " ".to_string()));
    assert_eq!(parts[2], (InputPart::Slash, "/".to_string()));
    assert_eq!(parts[3], (InputPart::ValidCommand(Command::Exit), "x".to_string()));
}

#[test]
fn parse_line_empty() {
    let h = PromptHighlighter::new();
    assert!(h.parse_line("").is_empty());
}

#[test]
fn part_styles() {
    assert_eq!(InputPart::MessageText.style().foreground, Some(StyleColor::Green));
    assert_eq!(InputPart::ValidCommand(Command::Save).style().foreground, Some(StyleColor::Cyan));
    assert_eq!(InputPart::InvalidCommand.style().foreground, Some(StyleColor::Yellow));
    assert_eq!(InputPart::ValidArgument.style().foreground, Some(StyleColor::Blue));
    assert_eq!(InputPart::InvalidArgument.style().background, Some(StyleColor::Red));
    assert_eq!(InputPart::Whitespace.style().foreground, None);
}

#[test]
fn completer_offers_matching_commands() {
    let c = CommandCompleter::new(completion_strings());
    let suggestions = c.complete("/e", 2);
    assert_eq!(suggestions.len(), 1);
    assert_eq!(suggestions[0].value, "/exit");
    assert_eq!(suggestions[0].span_start, 0);
    assert_eq!(suggestions[0].span_end, 2);
}

#[test]
fn completer_needs_a_slash() {
    let c = CommandCompleter::new(completion_strings());
    assert!(c.complete("ex", 2).is_empty());
    assert!(c.complete("", 0).is_empty());
}

#[test]
fn completer_matches_several() {
    let c = CommandCompleter::new(completion_strings());
    let suggestions = c.complete("/s", 2);
    let values: Vec<String> = suggestions.into_iter().map(|s| s.value).collect();
    assert_eq!(values, ["/save", "/s"]);
}

#[test]
fn validator_wants_substance() {
    let v = PromptValidator::new();
    assert_eq!(v.validate(""), LineValidation::Incomplete);
    assert_eq!(v.validate("   "), LineValidation::Incomplete);
    assert_eq!(v.validate(" x "), LineValidation::Complete);
}

#[test]
fn prompt_indicators() {
    let p = EditorPrompt::new();
    assert_eq!(p.indicator(), "> ");
    assert_eq!(p.history_search_indicator(), "? ");
}

#[test]
fn editor_config_resolves_edit_mode() {
    let mut config = hey::Config::default();
    let ec = EditorConfig::from_config(&config, None);
    assert_eq!(ec.edit_mode, ReedlineEditMode::Emacs);
    assert!(ec.use_kitty_keyboard_enhancement);
    assert!(ec.history_file_path.is_none());

    config.edit_mode = "vi".to_string();
    assert_eq!(EditorConfig::from_config(&config, None).edit_mode, ReedlineEditMode::Vi);
    config.edit_mode = "VIM".to_string();
    assert_eq!(EditorConfig::from_config(&config, None).edit_mode, ReedlineEditMode::Vi);
    config.edit_mode = "something-else".to_string();
    assert_eq!(EditorConfig::from_config(&config, None).edit_mode, ReedlineEditMode::Emacs);

    let with_history = EditorConfig::from_config(&config, Some("/tmp/h.txt".to_string()));
    assert_eq!(with_history.history_file_path.as_deref(), Some("/tmp/h.txt"));
}
