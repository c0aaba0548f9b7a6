use lit::model::Invocation;
use lit::vars::Variables;

fn basic_constants() -> Variables {
    let mut m = Variables::new();
    m.insert("cc".to_owned(), "clang++".to_owned());
    m
}

fn resolve(s: &str, consts: &Variables) -> String {
    let words: Vec<&str> = s.split_whitespace().collect();
    let invocation = Invocation::parse(&words).unwrap();
    invocation.resolve(consts).unwrap()
}

#[test]
fn tool_no_constants_is_nop() {
    assert_eq!(resolve("hello world", &basic_constants()), "hello world");
}

#[test]
fn tool_only_const() {
    assert_eq!(resolve("@cc", &basic_constants()), "clang++");
}

#[test]
fn tool_junk_then_const() {
    assert_eq!(resolve("foo bar! @cc", &basic_constants()), "foo bar! clang++");
}

#[test]
fn tool_junk_then_const_then_junk() {
    assert_eq!(resolve("hello @cc world", &basic_constants()), "hello clang++ world");
}

#[test]
fn invocation_words_are_joined_by_single_spaces() {
    let words: Vec<&str> = "  echo   a\tb ".split_whitespace().collect();
    let invocation = Invocation::parse(&words).unwrap();
    assert_eq!(invocation.original_command, "echo a b");
}

#[test]
fn unknown_constant_in_command_is_an_error() {
    let words: Vec<&str> = "run @nope".split_whitespace().collect();
    let invocation = Invocation::parse(&words).unwrap();
    let r = invocation.resolve(&basic_constants());
    assert_eq!(r, Err("no variable or constant named 'nope' is defined".to_owned()));
}

#[test]
fn constant_names_stop_at_other_characters() {
    let words: Vec<&str> = "x@cc.o @cc2".split_whitespace().collect();
    let invocation = Invocation::parse(&words).unwrap();
    assert_eq!(invocation.resolve(&basic_constants()).unwrap(), "xclang++.o clang++2");
}
