use hey::ResponseBuffer;

#[test]
fn empty_buffer_yields_nothing() {
    let mut b = ResponseBuffer::new();
    assert!(b.get_line_with_ending().is_none());
    assert!(b.get_remaining().is_none());
}

#[test]
fn append_then_pop_single_line() {
    let mut b = ResponseBuffer::new();
    b.append("hello\n");
    let line = b.get_line_with_ending().unwrap();
    assert_eq!(line, "hello\n");
    assert!(b.get_line_with_ending().is_none());
    assert!(b.get_remaining().is_none());
}

#[test]
fn pop_keeps_tail_without_newline() {
    let mut b = ResponseBuffer::new();
    b.append("one\ntwo");
    assert_eq!(b.get_line_with_ending().unwrap(), "one\n");
    assert!(b.get_line_with_ending().is_none());
    assert_eq!(b.get_remaining().unwrap(), "two");
    assert!(b.get_remaining().is_none());
}

#[test]
fn line_split_across_fragments() {
    let mut b = ResponseBuffer::new();
    b.append("hel");
    assert!(b.get_line_with_ending().is_none());
    b.append("lo\nwor");
    assert_eq!(b.get_line_with_ending().unwrap(), "hello\n");
    b.append("ld");
    assert!(b.get_line_with_ending().is_none());
    assert_eq!(b.get_remaining().unwrap(), "world");
}

#[test]
fn empty_fragment_changes_nothing() {
    let mut b = ResponseBuffer::new();
    b.append("abc");
    b.append("");
    assert!(b.get_line_with_ending().is_none());
    assert_eq!(b.get_remaining().unwrap(), "abc");
}

#[test]
fn line_completeness_round_trip() {
    let fragments = ["Hel", "lo\nwo", "", "rld\nand mo", "re"];
    let mut b = ResponseBuffer::new();
    let mut out = String::new();
    let mut joined = String::new();
    for f in fragments {
        joined.push_str(f);
        b.append(f);
        while let Some(line) = b.get_line_with_ending() {
            assert!(line.ends_with('\n'));
            out.push_str(&line);
        }
    }
    if let Some(rem) = b.get_remaining() {
        assert!(!rem.contains('\n'));
        out.push_str(&rem);
    }
    assert_eq!(out, joined);
}

#[test]
fn multiple_newlines_in_one_fragment() {
    let mut b = ResponseBuffer::new();
    b.append("a\nb\nc\n");
    assert_eq!(b.get_line_with_ending().unwrap(), "a\n");
    assert_eq!(b.get_line_with_ending().unwrap(), "b\n");
    assert_eq!(b.get_line_with_ending().unwrap(), "c\n");
    assert!(b.get_line_with_ending().is_none());
    assert!(b.get_remaining().is_none());
}
