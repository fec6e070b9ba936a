use hey::{render_line, Highlighter, StreamRenderer};

fn render_chunked(text: &str, cuts: &[usize]) -> String {
    let mut renderer = StreamRenderer::new();
    let mut highlighter = Highlighter::new("ansi").unwrap();
    let mut screen = String::new();
    let mut pos = 0;
    for &cut in cuts {
        let chunk = &text[pos..cut];
        pos = cut;
        for line in renderer.on_chunk(chunk) {
            screen.push_str(&render_line(&line, &mut highlighter, 20));
        }
    }
    for line in renderer.on_chunk(&text[pos..]) {
        screen.push_str(&render_line(&line, &mut highlighter, 20));
    }
    if let Some(rest) = renderer.finish() {
        screen.push_str(&render_line(&rest, &mut highlighter, 20));
    }
    screen
}

#[test]
fn screen_content_is_chunking_invariant() {
    let text = "# Head\n```\ncode line\n```\nplain tail";
    let whole = render_chunked(text, &[]);
    let split_a = render_chunked(text, &[1, 2, 9, 10, 15, 30]);
    let split_b = render_chunked(text, &[8, 16, 24]);
    assert_eq!(whole, split_a);
    assert_eq!(whole, split_b);
    assert!(!whole.is_empty());
}

#[test]
fn stream_scenario_hello_world() {
    let mut r = StreamRenderer::new();
    assert!(r.on_chunk("Hel").is_empty());
    assert!(r.on_chunk("lo, wor").is_empty());
    let lines = r.on_chunk("ld!\n");
    assert_eq!(lines.len(), 1);
    assert_eq!(lines[0], "Hello, world!\n");
    assert!(r.on_chunk("Second line, no newline").is_empty());
    let rem = r.finish().unwrap();
    assert_eq!(rem, "Second line, no newline");
    assert_eq!(r.response(), "Hello, world!\nSecond line, no newline");
}

#[test]
fn stream_scenario_empty_stream() {
    let mut r = StreamRenderer::new();
    assert!(r.finish().is_none());
    assert_eq!(r.response(), "");
}

#[test]
fn stream_scenario_three_lines_in_one_chunk() {
    let mut r = StreamRenderer::new();
    let lines = r.on_chunk("a\nb\nc\n");
    assert_eq!(lines.len(), 3);
    assert_eq!(lines[0], "a\n");
    assert_eq!(lines[1], "b\n");
    assert_eq!(lines[2], "c\n");
    assert!(r.finish().is_none());
    assert_eq!(r.response(), "a\nb\nc\n");
}

#[test]
fn stream_empty_chunk_is_a_no_op() {
    let mut r = StreamRenderer::new();
    assert!(r.on_chunk("").is_empty());
    assert!(r.on_chunk("x").is_empty());
    assert!(r.on_chunk("").is_empty());
    assert_eq!(r.finish().unwrap(), "x");
    assert_eq!(r.response(), "x");
}

#[test]
fn split_boundary_invariance_concrete() {
    let text = "first line\nsecond\nand a tail";
    let mut one = StreamRenderer::new();
    let mut lines_one: Vec<String> = one.on_chunk(text);
    if let Some(rem) = one.finish() {
        lines_one.push(rem);
    }

    let mut many = StreamRenderer::new();
    let mut lines_many: Vec<String> = Vec::new();
    for piece in ["fir", "st li", "ne\nsec", "", "ond\na", "nd a tail"] {
        lines_many.extend(many.on_chunk(piece));
    }
    if let Some(rem) = many.finish() {
        lines_many.push(rem);
    }

    assert_eq!(lines_one, lines_many);
    assert_eq!(one.response(), many.response());
    assert_eq!(one.response(), text);
}

#[test]
fn stream_no_trailing_newline_flushes_whole_text() {
    let mut r = StreamRenderer::new();
    assert!(r.on_chunk("no newline at all").is_empty());
    assert_eq!(r.finish().unwrap(), "no newline at all");
}
