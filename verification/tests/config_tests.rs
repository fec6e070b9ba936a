use hey::{Config, ConfigToml, Conversation, Role};

#[test]
fn default_config_values() {
    let c = Config::default();
    assert_eq!(c.system_prompt, "You are a helpful assistant.");
    assert_eq!(c.model, "gpt-4o");
    assert_eq!(c.max_tokens, 2048);
    assert!(!c.enter_repl);
    assert!(!c.animations);
    assert!(c.bracketed_paste);
    assert!(c.ansi_colors);
    assert_eq!(c.edit_mode, "emacs");
    assert!(c.syntax_highlighting);
    assert_eq!(c.theme, "ansi");
    assert_eq!(c.wrap_width, 100);
}

#[test]
fn from_toml_uses_defaults_for_missing_values() {
    let c = Config::from_toml(ConfigToml::default(), None);
    assert_eq!(c.system_prompt, "You are a helpful assistant.");
    assert_eq!(c.model, "gpt-4o");
    assert_eq!(c.wrap_width, 100);
    assert_eq!(c.theme, "ansi");
}

#[test]
fn from_toml_takes_file_values() {
    let mut t = ConfigToml::default();
    t.model = Some("o3".to_string());
    t.max_tokens = Some(512);
    t.theme = Some("rgb".to_string());
    t.wrap_width = Some(0);
    t.system_prompt = Some("Be terse.".to_string());
    let c = Config::from_toml(t, None);
    assert_eq!(c.model, "o3");
    assert_eq!(c.max_tokens, 512);
    assert_eq!(c.theme, "rgb");
    assert_eq!(c.wrap_width, 0);
    assert_eq!(c.system_prompt, "Be terse.");
}

#[test]
fn command_line_prompt_takes_precedence() {
    let mut t = ConfigToml::default();
    t.system_prompt = Some("from file".to_string());
    let c = Config::from_toml(t, Some("from flag".to_string()));
    assert_eq!(c.system_prompt, "from flag");
}

#[test]
fn conversation_starts_with_the_system_message() {
    let c = Conversation::new("sys".to_string());
    assert_eq!(c.messages.len(), 1);
    assert_eq!(c.messages[0].role, Role::System);
    assert_eq!(c.messages[0].content, "sys");
}

#[test]
fn conversation_appends_and_resets() {
    let mut c = Conversation::new("sys".to_string());
    c.add_user_message("hi".to_string());
    c.add_assistant_message("yo".to_string());
    assert_eq!(c.messages.len(), 3);
    assert_eq!(c.messages[1].role, Role::User);
    assert_eq!(c.messages[2].role, Role::Assistant);
    c.reset();
    assert_eq!(c.messages.len(), 1);
    assert_eq!(c.messages[0].role, Role::System);
}

#[test]
fn transcript_lists_the_exchange() {
    let mut c = Conversation::new("sys".to_string());
    c.add_user_message("hi".to_string());
    c.add_assistant_message("yo".to_string());
    assert_eq!(c.transcript(), "User: hi\nAssistant: yo\n");
}

#[test]
fn transcript_of_a_fresh_conversation_is_empty() {
    let c = Conversation::new("sys".to_string());
    assert_eq!(c.transcript(), "");
}
