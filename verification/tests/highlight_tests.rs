use hey::{render_line, theme_names, Highlighter};

#[test]
fn unknown_theme_is_refused() {
    assert!(Highlighter::new("no-such-theme").is_none());
    assert!(Highlighter::new("").is_none());
}

#[test]
fn known_themes_are_offered() {
    let names = theme_names();
    assert_eq!(names.len(), 4);
    for name in names {
        assert!(Highlighter::new(&name).is_some());
    }
}

#[test]
fn ansi_plain_text_stays_plain() {
    let mut h = Highlighter::new("ansi").unwrap();
    assert_eq!(h.highlight_line("hello world"), "hello world");
}

#[test]
fn ansi_heading_is_blue() {
    let mut h = Highlighter::new("ansi").unwrap();
    assert_eq!(h.highlight_line("# Title"), "\x1b[34m# Title\x1b[0m");
}

#[test]
fn ansi_inline_code_is_green() {
    let mut h = Highlighter::new("ansi").unwrap();
    assert_eq!(h.highlight_line("a `b` c"), "a \x1b[32m`b`\x1b[0m c");
}

#[test]
fn fence_toggles_code_block() {
    let mut h = Highlighter::new("ansi").unwrap();
    assert_eq!(h.highlight_line("```rust"), "\x1b[32m```rust\x1b[0m");
    assert_eq!(h.highlight_line("let x = 1;"), "\x1b[32mlet x = 1;\x1b[0m");
    assert_eq!(h.highlight_line("# not a heading here"), "\x1b[32m# not a heading here\x1b[0m");
    assert_eq!(h.highlight_line("```"), "\x1b[32m```\x1b[0m");
    assert_eq!(h.highlight_line("plain again"), "plain again");
}

#[test]
fn newlines_are_stripped_before_styling() {
    let mut h = Highlighter::new("ansi").unwrap();
    assert_eq!(h.highlight_line("# Title\n"), "\x1b[34m# Title\x1b[0m");
}

#[test]
fn malformed_input_still_yields_styled_output() {
    let mut h = Highlighter::new("ansi").unwrap();
    // An unterminated code fence at stream end: the block simply never
    // closes, and every following line still renders.
    assert_eq!(h.highlight_line("```"), "\x1b[32m```\x1b[0m");
    assert_eq!(h.highlight_line("dangling"), "\x1b[32mdangling\x1b[0m");
    // An unterminated inline code span runs to the end of its line.
    let mut h2 = Highlighter::new("ansi").unwrap();
    assert_eq!(h2.highlight_line("a `oops"), "a \x1b[32m`oops\x1b[0m");
}

#[test]
fn rgb_theme_paints_true_color() {
    let mut h = Highlighter::new("rgb").unwrap();
    assert_eq!(h.highlight_line("# T"), "\x1b[38;2;255;215;0m# T\x1b[0m");
    assert_eq!(h.highlight_line("hi"), "\x1b[38;2;230;230;230mhi\x1b[0m");
}

#[test]
fn render_line_reattaches_the_newline() {
    let mut h = Highlighter::new("ansi").unwrap();
    assert_eq!(render_line("Hello, world!\n", &mut h, 100), "Hello, world!\n");
    assert_eq!(render_line("tail without end", &mut h, 100), "tail without end");
}

#[test]
fn render_line_wraps_to_width() {
    let mut h = Highlighter::new("ansi").unwrap();
    assert_eq!(render_line("foo bar baz\n", &mut h, 7), "foo bar\nbaz\n");
}

#[test]
fn render_line_units_escape_and_characters() {
    let mut h = Highlighter::new("ansi").unwrap();
    let units = render_line_units_helper("# Hi\n", &mut h);
    // ESC[34m, '#', ' ', 'H', 'i', ESC[0m, '\n'
    assert_eq!(units.len(), 7);
    assert!(!units[0].1);
    assert_eq!(units[0].0, "\x1b[34m");
    assert!(units[1].1);
    assert_eq!(units[6].0, "\n");
    assert!(units[6].1);
}

fn render_line_units_helper(line: &str, h: &mut Highlighter) -> Vec<(String, bool)> {
    hey::render_line_units(line, h, 100).into_iter().map(|u| (u.text, u.delay)).collect()
}
