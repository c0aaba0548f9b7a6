use lit::util::{decorate_with_line_numbers, indent, indent_ext, truncate_to_max_lines, TruncateDirection};

#[test]
fn indent_trims_and_indents_each_line() {
    assert_eq!(indent("a\n  b  \nc", 1), "  a\n  b\n  c\n");
    assert_eq!(indent_ext("x\ny", 2, "-"), "--x\n--y\n");
    assert_eq!(indent("", 3), "\n");
}

#[test]
fn line_numbers_are_padded() {
    let text = (1..=10).map(|i| format!("l{}", i)).collect::<Vec<_>>().join("\n");
    let d = decorate_with_line_numbers(&text, 1);
    let lines: Vec<&str> = d.lines().collect();
    assert_eq!(lines[0], "1 |      l1");
    assert_eq!(lines[9], "10|      l10");
    assert_eq!(decorate_with_line_numbers("a\nb", 98), "98 |      a\n99 |      b");
}

#[test]
fn truncation_keeps_the_requested_end() {
    let text = "1\n2\n3\n4";
    assert_eq!(truncate_to_max_lines(text, 2, TruncateDirection::Bottom), "1\n2\n\n... (truncated)");
    assert_eq!(truncate_to_max_lines(text, 2, TruncateDirection::Top), "... (truncated)\n\n3\n4");
    assert_eq!(truncate_to_max_lines(text, 4, TruncateDirection::Top), "1\n2\n3\n4");
    assert_eq!(truncate_to_max_lines(text, 0, TruncateDirection::Bottom), "\n\n... (truncated)");
}
