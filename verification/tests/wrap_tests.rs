use hey::wrap_line;

#[test]
fn width_zero_disables_wrapping() {
    let line = "anything at  all, even   odd spacing";
    assert_eq!(wrap_line(line, 0), line);
}

#[test]
fn wraps_at_word_boundaries() {
    assert_eq!(wrap_line("foo bar baz", 7), "foo bar\nbaz");
    assert_eq!(wrap_line("foo bar baz", 11), "foo bar baz");
    assert_eq!(wrap_line("foo bar baz", 3), "foo\nbar\nbaz");
}

#[test]
fn long_word_passes_through_whole() {
    assert_eq!(wrap_line("abcdefgh", 3), "abcdefgh");
    assert_eq!(wrap_line("a abcdefgh b", 3), "a\nabcdefgh\nb");
}

#[test]
fn whitespace_is_normalized_to_breaks() {
    assert_eq!(wrap_line("a  b", 10), "a b");
    assert_eq!(wrap_line("  lead and trail  ", 100), "lead and trail");
    assert_eq!(wrap_line("", 10), "");
    assert_eq!(wrap_line("   ", 10), "");
}

#[test]
fn escapes_take_no_columns() {
    let line = "\x1b[31mred\x1b[0m word";
    assert_eq!(wrap_line(line, 8), "\x1b[31mred\x1b[0m word");
    assert_eq!(wrap_line(line, 7), "\x1b[31mred\x1b[0m\nword");
}

#[test]
fn wrapped_lines_fit_the_width() {
    let text = "the quick brown fox jumps over the lazy dog";
    for width in [1u32, 4, 9, 15, 80] {
        let wrapped = wrap_line(text, width);
        for part in wrapped.split('\n') {
            let fits = part.chars().count() <= width as usize;
            let single_long_word = !part.contains(' ') && part.chars().count() > width as usize;
            assert!(fits || single_long_word);
        }
        let unwrapped: String = wrapped.replace('\n', " ");
        assert_eq!(unwrapped, text);
    }
}
