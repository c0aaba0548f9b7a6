use lit::config::Config;
use lit::evaluator::TestRunState;
use lit::model::{PatternComponent, TestFailReason, TestResultKind, TextPattern};
use lit::parse::text_pattern;
use lit::vars::Variables;

const EMOJI_SMILEY: char = '\u{1F600}';
const EMOJI_JOY: char = '\u{1F602}';

fn fixture_program_prints_whitespace_emoji_and_hello_world() -> TestRunState {
    let mut test_state = TestRunState::new(Variables::new());
    test_state.append_program_output(&format!("  \n{}\nhello \nworld", EMOJI_SMILEY));
    test_state
}

fn fixture_program_prints_unicode_emoji() -> TestRunState {
    let mut test_state = TestRunState::new(Variables::new());
    test_state.append_program_output(&format!("  {}\n  {} smiles.\n\t{}\njoy{}.", EMOJI_SMILEY, EMOJI_SMILEY, EMOJI_JOY, EMOJI_SMILEY));
    test_state
}

fn fixture_program_prints_periodic_table_in_order() -> TestRunState {
    const ELEMENTS: &'static [&'static str] = &[
        "Hydrogen", "Helium", "Lithium", "Beryllium", "Boron", "Carbon",
        "Nitrogen", "Oxygen", "Fluorine", "Neon", "Sodium", "Magnesium",
    ];

    let mut test_state = TestRunState::new(Variables::new());
    test_state.append_program_output(&ELEMENTS.join(", is an element.\n"));
    test_state
}

fn text(s: &str) -> TextPattern {
    PatternComponent::Text(s.to_owned()).into()
}

#[test]
fn check_next_works_standalone_in_very_basic_scenario() {
    let mut test_state = fixture_program_prints_whitespace_emoji_and_hello_world();
    let config = Config::default();

    assert!(test_state.unprocessed_output_stream().starts_with("  "));

    let r = test_state.check_next(&text(&EMOJI_SMILEY.to_string()), &config);
    assert!(!r.is_erroneous(), "{:?}", r);
    assert_eq!(test_state.unprocessed_output_stream(), "hello \nworld");

    let res = test_state.check_next(&text("world"), &config);
    match res {
        TestResultKind::Fail { reason, hint } => {
            match reason {
                TestFailReason::CheckFailed(..) => {
                    assert_eq!(test_state.unprocessed_output_stream(), "hello \nworld",
                               "errors should not consume any of the underlying stream");
                    assert_eq!(hint, Some("found a match for \'world\', but it does not appear on the next line, as required by the CHECK-NEXT directive".to_owned()));
                },
                r => panic!("unexpected test failure reason: {:?}", r),
            }
        },
        _ => panic!("unexpected failure reason: {:?}", res),
    }

    let r = test_state.check_next(&text("hello"), &config);
    assert!(!r.is_erroneous(), "{:?}", r);
    assert_eq!(test_state.unprocessed_output_stream(), "world");
}

#[test]
fn check_next_can_handle_multibyte_unicode_chars() {
    let mut test_state = fixture_program_prints_unicode_emoji();
    let config = Config::default();

    assert!(test_state.unprocessed_output_stream().starts_with("  "));

    let r = test_state.check_next(&text(&EMOJI_SMILEY.to_string()), &config);
    assert!(!r.is_erroneous(), "{:?}", r);
    assert!(test_state.unprocessed_output_stream().starts_with(&format!("  {} smiles.\n", EMOJI_SMILEY)));

    let r = test_state.check_next(&text(&EMOJI_SMILEY.to_string()), &config);
    assert!(!r.is_erroneous(), "{:?}", r);
    assert!(test_state.unprocessed_output_stream().starts_with("\t"));

    let r = test_state.check_next(&text(&EMOJI_JOY.to_string()), &config);
    assert!(!r.is_erroneous(), "{:?}", r);
    assert_eq!(test_state.unprocessed_output_stream(), format!("joy{}.", EMOJI_SMILEY));

    let r = test_state.check_next(&text(&format!("{}.", EMOJI_SMILEY)), &config);
    assert!(!r.is_erroneous(), "{:?}", r);
    assert_eq!(test_state.unprocessed_output_stream(), "");
}

#[test]
fn check_next_rejects_matches_not_on_next_line() {
    let mut test_state = fixture_program_prints_periodic_table_in_order();
    let config = Config::default();

    assert!(test_state.unprocessed_output_stream().starts_with("Hydrogen, is an element.\nHelium, is an element.\n"));

    let r = test_state.check_next(&text("Hydrogen"), &config);
    assert!(!r.is_erroneous(), "{:?}", r);
    assert!(test_state.unprocessed_output_stream().starts_with("Helium"));

    let res = test_state.check_next(&text("Lithium"), &config);
    match res {
        TestResultKind::Fail { reason, hint } => {
            match reason {
                TestFailReason::CheckFailed(..) => {
                    assert!(test_state.unprocessed_output_stream().starts_with("Helium"),
                            "errors should not consume any of the underlying stream");
                    assert_eq!(hint, Some("found a match for \'Lithium\', but it does not appear on the next line, as required by the CHECK-NEXT directive".to_owned()));
                },
                r => panic!("unexpected test failure reason: {:?}", r),
            }
        },
        _ => panic!("unexpected failure reason: {:?}", res),
    }
}

#[test]
fn check_with_nonexistent_regex_produces_failure() {
    let mut test_state = fixture_program_prints_periodic_table_in_order();
    let config = Config::default();

    assert!(test_state.unprocessed_output_stream().starts_with("Hydrogen, is an element.\nHelium, is an element.\n"));

    let r = test_state.check(&text("Helium"), &config);
    assert!(!r.is_erroneous(), "{:?}", r);

    let res = test_state.check(&text("nonexistent"), &config);

    if let TestResultKind::Fail { reason, hint } = res {
        match reason {
            TestFailReason::CheckFailed(failure_info) => {
                assert!(failure_info.successfully_checked_text().ends_with("Helium, is an element.\n"));
                assert!(failure_info.remaining_text().starts_with("Lithium, is an element.\n"));
                assert_eq!(hint, None);
            },
            r => panic!("unexpected failure reason: {:?}", r),
        }
    } else {
        panic!("expected the pattern to fail: {:?}", res);
    }
}

#[test]
fn cursor_moves_by_utf8_bytes() {
    let mut st = fixture_program_prints_unicode_emoji();
    let config = Config::default();
    let r = st.check(&text("nothing like this"), &config);
    match r {
        TestResultKind::Fail { reason: TestFailReason::CheckFailed(info), .. } => {
            assert_eq!(info.successfully_checked_until_byte_index, 0);
        },
        other => panic!("unexpected: {:?}", other),
    }
    assert!(!st.check_next(&text(&EMOJI_SMILEY.to_string()), &config).is_erroneous());
    let r = st.check(&text("nothing like this"), &config);
    match r {
        TestResultKind::Fail { reason: TestFailReason::CheckFailed(info), .. } => {
            // "  " + smiley (4 bytes) + "\n"
            assert_eq!(info.successfully_checked_until_byte_index, 7);
            assert_eq!(info.successfully_checked_text(), format!("  {}\n", EMOJI_SMILEY));
            assert_eq!(info.successfully_checked_upto_line_number(), 2);
        },
        other => panic!("unexpected: {:?}", other),
    }
    assert_eq!(st.unprocessed_output_bytes(), format!("  {} smiles.\n\t{}\njoy{}.", EMOJI_SMILEY, EMOJI_JOY, EMOJI_SMILEY).into_bytes());
}

#[test]
fn captures_become_variables() {
    let mut st = TestRunState::new(Variables::new());
    st.append_program_output("id=42\nid=42 again");
    let config = Config::default();
    assert_eq!(st.check(&text_pattern("id=[[N:\\d+]]"), &config), TestResultKind::Pass);
    assert_eq!(st.variables().get("N"), Some("42".to_owned()));
    assert_eq!(st.check(&text_pattern("id=$$N again"), &config), TestResultKind::Pass);
    assert_eq!(st.unprocessed_output_stream(), "");
}

#[test]
fn captured_value_matches_as_literal_text() {
    let mut st = TestRunState::new(Variables::new());
    st.append_program_output("v=a.c\nabc\na.c");
    let config = Config::default();
    assert_eq!(st.check(&text_pattern("v=[[X:\\S+]]"), &config), TestResultKind::Pass);
    assert_eq!(st.check_next(&text_pattern("$$X"), &config).is_erroneous(), true);
    assert_eq!(st.check(&text_pattern("$$X"), &config), TestResultKind::Pass);
    assert_eq!(st.unprocessed_output_stream(), "");
}

#[test]
fn empty_pattern_passes_and_consumes_the_line() {
    let mut st = TestRunState::new(Variables::new());
    st.append_program_output("  first line\nsecond");
    let config = Config::default();
    let empty = TextPattern { components: vec![] };
    assert_eq!(st.check(&empty, &config), TestResultKind::Pass);
    assert_eq!(st.unprocessed_output_stream(), "second");
    assert_eq!(st.check_next(&empty, &config), TestResultKind::Pass);
    assert_eq!(st.unprocessed_output_stream(), "");
}

#[test]
fn metacharacters_in_text_match_only_themselves() {
    let mut st = TestRunState::new(Variables::new());
    st.append_program_output("axb\na.b\n");
    let config = Config::default();
    assert_eq!(st.check(&text("a.b"), &config), TestResultKind::Pass);
    assert_eq!(st.unprocessed_output_stream(), "");
    let mut st = TestRunState::new(Variables::new());
    st.append_program_output("aaa\n(a+)\n");
    assert_eq!(st.check(&text("(a+)"), &config), TestResultKind::Pass);
    assert_eq!(st.unprocessed_output_stream(), "");
}

#[test]
fn cursor_never_moves_back_and_stays_on_failure() {
    let mut st = fixture_program_prints_periodic_table_in_order();
    let config = Config::default();
    let mut last = st.unprocessed_output_stream().len();
    for name in ["Helium", "Boron", "Neon"] {
        assert_eq!(st.check(&text(name), &config), TestResultKind::Pass);
        let now = st.unprocessed_output_stream().len();
        assert!(now < last);
        last = now;
    }
    assert!(st.check(&text("Hydrogen"), &config).is_erroneous());
    assert_eq!(st.unprocessed_output_stream().len(), last);
}

#[test]
fn invalid_regex_is_an_error() {
    let mut st = TestRunState::new(Variables::new());
    st.append_program_output("x");
    let r = st.check(&text_pattern("[[(]]"), &Config::default());
    assert_eq!(r, TestResultKind::Error { message: "the pattern compiles to an invalid regex: '('".to_owned() });
}

#[test]
fn unbound_variable_in_check_is_an_error() {
    let mut st = TestRunState::new(Variables::new());
    st.append_program_output("x");
    let r = st.check(&text_pattern("$$nope"), &Config::default());
    assert_eq!(r, TestResultKind::Error { message: "no variable or constant named 'nope' is defined".to_owned() });
}

#[test]
fn stderr_is_kept_but_not_checked() {
    let mut st = TestRunState::new(Variables::new());
    st.append_program_output("out");
    st.append_program_stderr("err");
    assert!(st.check(&text("err"), &Config::default()).is_erroneous());
}

#[test]
fn empty_pattern_leaves_variables_alone() {
    let mut vars = Variables::new();
    vars.insert("k".to_owned(), "v".to_owned());
    let mut st = TestRunState::new(vars);
    st.append_program_output("line\n");
    assert_eq!(st.check(&TextPattern { components: vec![] }, &Config::default()), TestResultKind::Pass);
    assert_eq!(st.variables().names(), vec!["k".to_owned()]);
}

#[test]
fn literal_too_large_for_the_engine_is_an_error() {
    let long: String = std::iter::repeat("abcdefgh").take(200_000).collect();
    let mut st = TestRunState::new(Variables::new());
    st.append_program_output("short");
    match st.check(&text(&long), &Config::default()) {
        TestResultKind::Error { message } => assert!(message.starts_with("the pattern compiles to an invalid regex: 'abcdefgh")),
        other => panic!("unexpected: {:?}", other),
    }
    assert_eq!(st.unprocessed_output_stream(), "short");
}
