use todo_list::text::decode;
use todo_list::text::split_lines;
use todo_list::text::str_eq;
use todo_list::text::NEWLINE;

#[test]
fn newline_is_line_feed() {
    assert_eq!(NEWLINE, b'\n');
}

#[test]
fn str_eq_same() {
    assert!(str_eq("", ""));
    assert!(str_eq("a", "a"));
    assert!(str_eq("buy milk", "buy milk"));
    assert!(str_eq("牛乳", "牛乳"));
}

#[test]
fn str_eq_different() {
    assert!(!str_eq("a", "b"));
    assert!(!str_eq("a", ""));
    assert!(!str_eq("", "a"));
    assert!(!str_eq("a", "ab"));
    assert!(!str_eq("ab", "a"));
    assert!(!str_eq("a", "A"));
    assert!(!str_eq("a", " a"));
    assert!(!str_eq("牛乳", "牛肉"));
}

#[test]
fn split_empty_is_one_empty_line() {
    let bytes: &[u8] = b"";
    let empty: &[u8] = b"";
    assert_eq!(split_lines(bytes), vec![empty]);
}

#[test]
fn split_without_newline_is_one_line() {
    let bytes: &[u8] = b"[ ] a";
    assert_eq!(split_lines(bytes), vec![bytes]);
}

#[test]
fn split_at_each_newline() {
    let bytes: &[u8] = b"ab\nc\n\nde";
    let want: Vec<&[u8]> = vec![b"ab", b"c", b"", b"de"];
    assert_eq!(split_lines(bytes), want);
}

#[test]
fn split_trailing_newline_opens_an_empty_line() {
    let bytes: &[u8] = b"ab\n";
    let want: Vec<&[u8]> = vec![b"ab", b""];
    assert_eq!(split_lines(bytes), want);
}

#[test]
fn split_leading_newline() {
    let bytes: &[u8] = b"\nab";
    let want: Vec<&[u8]> = vec![b"", b"ab"];
    assert_eq!(split_lines(bytes), want);
}

#[test]
fn split_only_newlines() {
    let bytes: &[u8] = b"\n\n";
    let want: Vec<&[u8]> = vec![b"", b"", b""];
    assert_eq!(split_lines(bytes), want);
}

#[test]
fn split_keeps_carriage_return() {
    let bytes: &[u8] = b"ab\r\ncd";
    let want: Vec<&[u8]> = vec![b"ab\r", b"cd"];
    assert_eq!(split_lines(bytes), want);
}

#[test]
fn split_lines_hold_no_newline() {
    let bytes: &[u8] = b"a\nbc\n\n\nd\n";
    let lines = split_lines(bytes);
    assert_eq!(lines.len(), 6);
    for line in lines {
        assert!(!line.contains(&NEWLINE));
    }
}

#[test]
fn decode_well_formed_text() {
    assert_eq!(decode(b"abc"), Some("abc"));
    assert_eq!(decode(b""), Some(""));
    assert_eq!(decode("牛乳".as_bytes()), Some("牛乳"));
    assert_eq!(decode(&[0xE7, 0x89, 0x9B]), Some("牛"));
}

#[test]
fn decode_rejects_ill_formed_bytes() {
    assert_eq!(decode(&[0xFF]), None);
    assert_eq!(decode(&[b'a', 0x80]), None);
    assert_eq!(decode(&[0xE7, 0x89]), None);
    assert_eq!(decode(&[0xC0, 0x80]), None);
    assert_eq!(decode(&[0xED, 0xA0, 0x80]), None);
}
