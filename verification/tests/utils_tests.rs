use hey::{default_model_index, filename_from_title, model_options, separator_line};

#[test]
fn separator_has_the_requested_width() {
    let s = separator_line(5);
    assert_eq!(s.chars().count(), 5);
    assert!(s.chars().all(|c| c == '─'));
    assert_eq!(separator_line(0), "");
}

#[test]
fn model_options_list() {
    let models = model_options();
    assert_eq!(models.len(), 6);
    assert_eq!(models[0], "gpt-3.5-turbo");
    assert_eq!(models[1], "gpt-4o");
}

#[test]
fn default_model_index_finds_the_model() {
    let models = model_options();
    assert_eq!(default_model_index(&models, "gpt-4o"), 1);
    assert_eq!(default_model_index(&models, "o3"), 5);
    assert_eq!(default_model_index(&models, "not-a-model"), 0);
}

#[test]
fn filenames_fold_and_get_their_ending() {
    assert_eq!(filename_from_title("My Chat"), "my_chat.json");
    assert_eq!(filename_from_title("  Already.json  "), "already.json");
    assert_eq!(filename_from_title("A B C"), "a_b_c.json");
    assert_eq!(filename_from_title(""), "conversation.json");
    assert_eq!(filename_from_title("   "), "conversation.json");
}
