use lit::model::{CommandKind, PatternComponent, TestFilePath, TextPattern};
use lit::parse::{possible_command, test_file, text_pattern};

#[test]
fn parse_parses_single_text() {
    assert_eq!(text_pattern("hello world").to_string(), "hello world");
}

#[test]
fn parse_correctly_escapes_text() {
    assert_eq!(text_pattern("hello\\(\\)").to_string(), "hello\\(\\)");
}

#[test]
fn parse_correctly_picks_up_single_regex() {
    assert_eq!(text_pattern("[[\\d]]").to_string(), "[[\\d]]");
}

#[test]
fn parse_correctly_picks_up_regex_between_text() {
    assert_eq!(text_pattern("1[[\\d]]3").to_string(), "1[[\\d]]3");
}

#[test]
fn parse_correctly_picks_up_named_regex() {
    assert_eq!(text_pattern("[[num:\\d]]").to_string(), "[[num:\\d]]");
}

#[test]
fn parses_constant() {
    assert_eq!(text_pattern("@constant").to_string(), "@constant");
}

#[test]
fn can_parse_run() {
    let d = possible_command("; RUN: foo", 0);
    match d {
        Some(Ok(c)) => assert_eq!(c.kind, CommandKind::Run(lit::model::Invocation { original_command: "foo".to_owned() })),
        other => panic!("expected a RUN command: {:?}", other),
    }
}

#[test]
fn components_of_a_mixed_pattern() {
    let p = text_pattern("id=[[N:\\d+]] $$N @k [[a[b]c]] x");
    assert_eq!(
        p.components,
        vec![
            PatternComponent::Text("id=".to_owned()),
            PatternComponent::NamedRegex { name: "N".to_owned(), regex: "\\d+".to_owned() },
            PatternComponent::Text(" ".to_owned()),
            PatternComponent::Variable("N".to_owned()),
            PatternComponent::Text(" ".to_owned()),
            PatternComponent::Constant("k".to_owned()),
            PatternComponent::Text(" ".to_owned()),
            PatternComponent::Regex("a[b]c".to_owned()),
            PatternComponent::Text(" x".to_owned()),
        ]
    );
}

#[test]
fn a_colon_after_a_non_identifier_keeps_the_regex_plain() {
    let p = text_pattern("[[1a:b]]");
    assert_eq!(p.components, vec![PatternComponent::Regex("1a:b".to_owned())]);
}

#[test]
fn dollars_and_at_without_a_name_are_text() {
    let p = text_pattern("cost $$ @ 5$");
    assert_eq!(p.components, vec![PatternComponent::Text("cost $$ @ 5$".to_owned())]);
}

#[test]
fn empty_pattern_has_no_components() {
    assert_eq!(text_pattern("").components, vec![]);
}

#[test]
fn unterminated_regex_runs_to_the_end() {
    let p = text_pattern("a[[b");
    assert_eq!(p.components, vec![PatternComponent::Text("a".to_owned()), PatternComponent::Regex("b".to_owned())]);
}

#[test]
fn round_trip_of_rendered_patterns() {
    for s in ["hello world", "id=[[N:\\d+]] $$N @k", "[[[a-z]]]$$po foo", "$$$x", "@@a", "x[[ab", "cost $$ @ 5$"] {
        let p = text_pattern(s);
        let again = text_pattern(&p.to_string());
        assert_eq!(p, again, "round trip of {:?}", s);
    }
}

fn path() -> TestFilePath {
    TestFilePath { absolute: "/t/a.txt".to_owned(), relative: "a.txt".to_owned() }
}

#[test]
fn test_file_keeps_commands_in_line_order() {
    let tf = test_file(path(), "; RUN: echo hello\nnothing here\n; CHECK: hello\n// XFAIL:\n; CHECK-NEXT: [[x]]\n").unwrap();
    let lines: Vec<u32> = tf.commands.iter().map(|c| c.line_number).collect();
    assert_eq!(lines, vec![1, 3, 4, 5]);
    assert_eq!(tf.commands[0].kind, CommandKind::Run(lit::model::Invocation { original_command: "echo hello".to_owned() }));
    assert_eq!(tf.commands[1].kind, CommandKind::Check(TextPattern { components: vec![PatternComponent::Text("hello".to_owned())] }));
    assert_eq!(tf.commands[2].kind, CommandKind::XFail);
    assert_eq!(tf.commands[3].kind, CommandKind::CheckNext(TextPattern { components: vec![PatternComponent::Regex("x".to_owned())] }));
}

#[test]
fn unknown_directive_is_an_error() {
    let r = test_file(path(), "; RUN: true\n; FOO: bar\n");
    assert_eq!(r, Err("could not parse command: command 'FOO' not known".to_owned()));
}

#[test]
fn run_tail_is_kept_verbatim_but_trimmed() {
    match possible_command("# RUN:   a  b   ", 7) {
        Some(Ok(c)) => {
            assert_eq!(c.line_number, 7);
            assert_eq!(c.kind, CommandKind::Run(lit::model::Invocation { original_command: "a  b".to_owned() }));
        },
        other => panic!("unexpected: {:?}", other),
    }
}

#[test]
fn lines_without_directives_are_not_commands() {
    assert!(possible_command("just text: lower case", 1).is_none());
    assert!(lit::parse::is_directive("x CHECK: y"));
    assert!(!lit::parse::is_directive("CHECK y"));
}

#[test]
fn check_commands_compare_by_rendering() {
    let one = CommandKind::Check(TextPattern { components: vec![PatternComponent::Text("ab".to_owned())] });
    let two = CommandKind::Check(TextPattern {
        components: vec![PatternComponent::Text("a".to_owned()), PatternComponent::Text("b".to_owned())],
    });
    assert_eq!(one, two);
    let next = CommandKind::CheckNext(TextPattern { components: vec![PatternComponent::Text("ab".to_owned())] });
    assert_ne!(one, next);
    assert_ne!(one, CommandKind::XFail);
}
