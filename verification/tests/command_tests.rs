use hey::{all_commands, classify_input, completion_strings, parse_command, Command, Input};

#[test]
fn parses_each_command_word() {
    assert_eq!(parse_command("/exit"), Some(Command::Exit));
    assert_eq!(parse_command("/quit"), Some(Command::Exit));
    assert_eq!(parse_command("/q"), Some(Command::Exit));
    assert_eq!(parse_command("/x"), Some(Command::Exit));
    assert_eq!(parse_command("/clear"), Some(Command::Clear));
    assert_eq!(parse_command("/c"), Some(Command::Clear));
    assert_eq!(parse_command("/reset"), Some(Command::Reset));
    assert_eq!(parse_command("/model"), Some(Command::SelectModel));
    assert_eq!(parse_command("/theme"), Some(Command::SelectTheme));
    assert_eq!(parse_command("/save"), Some(Command::Save));
    assert_eq!(parse_command("/load"), Some(Command::Load));
    assert_eq!(parse_command("/history"), Some(Command::History));
    assert_eq!(parse_command("/help"), Some(Command::Help));
    assert_eq!(parse_command("/h"), Some(Command::Help));
}

#[test]
fn parsing_folds_ascii_case() {
    assert_eq!(parse_command("/EXIT"), Some(Command::Exit));
    assert_eq!(parse_command("/Save"), Some(Command::Save));
    assert_eq!(parse_command("/hIsToRy"), Some(Command::History));
}

#[test]
fn parsing_trims_and_tolerates_arguments() {
    assert_eq!(parse_command("  /save  "), Some(Command::Save));
    assert_eq!(parse_command("/save my file"), Some(Command::Save));
    assert_eq!(parse_command("/ exit"), Some(Command::Exit));
}

#[test]
fn bare_slash_asks_for_help() {
    assert_eq!(parse_command("/"), Some(Command::Help));
    assert_eq!(parse_command("  /  "), Some(Command::Help));
}

#[test]
fn unknown_word_is_the_invalid_command() {
    assert_eq!(parse_command("/bogus"), Some(Command::Invalid));
    assert_eq!(parse_command("/exitt"), Some(Command::Invalid));
}

#[test]
fn non_slash_input_is_no_command() {
    assert_eq!(parse_command("hello"), None);
    assert_eq!(parse_command(""), None);
    assert_eq!(parse_command("   "), None);
    assert_eq!(parse_command("a /exit"), None);
}

#[test]
fn command_strings_match_their_commands() {
    assert_eq!(Command::Exit.strings(), ["exit", "quit", "q", "x"]);
    assert_eq!(Command::History.strings(), ["history"]);
    assert!(Command::Invalid.strings().is_empty());
}

#[test]
fn all_commands_lists_every_variant_once() {
    let all = all_commands();
    assert_eq!(all.len(), 10);
    assert_eq!(all[0], Command::Exit);
    assert_eq!(all[9], Command::Invalid);
}

#[test]
fn completion_strings_carry_the_slash() {
    let words = completion_strings();
    assert_eq!(words.len(), 19);
    assert_eq!(words[0], "/exit");
    assert!(words.iter().all(|w| w.starts_with('/')));
}

#[test]
fn classify_blank_input_as_invalid() {
    assert!(matches!(classify_input(""), Input::Invalid));
    assert!(matches!(classify_input("   "), Input::Invalid));
}

#[test]
fn classify_commands_and_messages() {
    assert!(matches!(classify_input("/clear"), Input::Command(Command::Clear)));
    assert!(matches!(classify_input(" /q "), Input::Command(Command::Exit)));
    match classify_input("  hi there  ") {
        Input::Message(m) => assert_eq!(m, "hi there"),
        _ => panic!("expected a message"),
    }
}
