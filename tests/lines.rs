use lit::output_lines::Lines;

fn lines(s: &str) -> Vec<String> {
    let mut lines: Lines = s.to_owned().into();
    let mut out = Vec::new();
    while let Some(l) = lines.next() {
        out.push(l);
    }
    out
}

#[test]
fn trivial_lines_works_correctly() {
    assert_eq!(lines("hello\nworld\nfoo"), &["hello", "world", "foo"]);
}

#[test]
fn lines_ignores_directives() {
    assert_eq!(lines("; RUN: cat %file\nhello\n; CHECK: foo\nfoo"), &["hello", "foo"]);
}

#[test]
fn lines_can_peek() {
    let mut lines: Lines = "hello\nworld\nfoo".to_owned().into();
    assert_eq!(lines.next(), Some("hello".to_owned()));
    assert_eq!(lines.peek(), Some("world".to_owned()));
    assert_eq!(lines.next(), Some("world".to_owned()));
    assert_eq!(lines.peek(), Some("foo".to_owned()));
    assert_eq!(lines.next(), Some("foo".to_owned()));
}

#[test]
fn lines_keep_a_trailing_empty_line() {
    assert_eq!(lines("a\n"), &["a", ""]);
}
