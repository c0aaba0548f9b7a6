use lit::parse;
use lit::resolve;
use lit::vars::Variables;

fn variables() -> Variables {
    let mut v = Variables::new();
    v.insert("po".to_owned(), "polonium".to_owned());
    v.insert("name".to_owned(), "bob".to_owned());
    v
}

fn matcher(s: &str) -> String {
    resolve::text_pattern(&parse::text_pattern(s), &variables()).unwrap()
}

#[test]
fn matcher_parses_single_text() {
    assert_eq!(matcher("hello world"), "hello world");
}

#[test]
fn matcher_correctly_escapes_text() {
    assert_eq!(matcher("hello()").as_str(), "hello\\(\\)");
}

#[test]
fn matcher_correctly_picks_up_single_regex() {
    assert_eq!(matcher("[[\\d]]").as_str(), "\\d");
}

#[test]
fn matcher_correctly_picks_up_regex_between_text() {
    assert_eq!(matcher("1[[\\d]]3").as_str(), "1\\d3");
}

#[test]
fn matcher_correctly_picks_up_named_regex() {
    assert_eq!(matcher("[[num:\\d]]").as_str(), "(?P<num>\\d)");
}

#[test]
fn matcher_correctly_picks_up_single_variable() {
    assert_eq!(matcher("$$po").as_str(), "polonium");
}

#[test]
fn matcher_correctly_picks_up_variable_between_junk() {
    assert_eq!(matcher("[[[a-z]]]$$po foo").as_str(), "[a-z]polonium foo");
}

#[test]
fn matcher_correctly_picks_up_variable_at_end() {
    assert_eq!(matcher("goodbye $$name").as_str(), "goodbye bob");
}

#[test]
fn resolve_correctly_picks_up_single_variable() {
    assert_eq!(matcher("$$po").as_str(), "polonium");
}

#[test]
fn resolve_correctly_picks_up_variable_between_junk() {
    assert_eq!(matcher("[[[a-z]]]$$po foo").as_str(), "[a-z]polonium foo");
}

#[test]
fn resolve_correctly_picks_up_variable_at_end() {
    assert_eq!(matcher("goodbye $$name").as_str(), "goodbye bob");
}

fn resolve_invocation(s: &str) -> String {
    let mut consts = Variables::new();
    consts.insert("cc".to_owned(), "clang++".to_owned());
    let words: Vec<&str> = s.split_whitespace().collect();
    let invocation = parse::invocation(&words).unwrap();
    resolve::invocation(&invocation, &consts).unwrap()
}

#[test]
fn resolve_no_constants_is_nop() {
    assert_eq!(resolve_invocation("hello world"), "hello world");
}

#[test]
fn resolve_only_const() {
    assert_eq!(resolve_invocation("@cc"), "clang++");
}

#[test]
fn resolve_junk_then_const() {
    assert_eq!(resolve_invocation("foo bar! @cc"), "foo bar! clang++");
}

#[test]
fn resolve_junk_then_const_then_junk() {
    assert_eq!(resolve_invocation("hello @cc world"), "hello clang++ world");
}

#[test]
fn variable_values_are_escaped() {
    let mut v = Variables::new();
    v.insert("x".to_owned(), "a.b(c)".to_owned());
    let r = resolve::text_pattern(&parse::text_pattern("$$x"), &v).unwrap();
    assert_eq!(r, "a\\.b\\(c\\)");
}

#[test]
fn constants_resolve_like_variables() {
    let r = resolve::text_pattern(&parse::text_pattern("@po!"), &variables()).unwrap();
    assert_eq!(r, "polonium!");
}

#[test]
fn unbound_variable_is_an_error() {
    let r = resolve::text_pattern(&parse::text_pattern("a $$missing b"), &variables());
    assert_eq!(r, Err("no variable or constant named 'missing' is defined".to_owned()));
}

#[test]
fn escape_covers_every_meta_character() {
    let r = resolve::text_pattern(&parse::text_pattern("()[]{}|.*+?\\^$"), &variables()).unwrap();
    assert_eq!(r, "\\(\\)\\[\\]\\{\\}\\|\\.\\*\\+\\?\\\\\\^\\$");
}
