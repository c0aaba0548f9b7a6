use lit::config::{parse_constant_definition, Config};
use lit::paths::{compute, least_specific_parent_test_search_directory_path, most_common_test_path_ancestor};

fn config_with(paths: &[&str]) -> Config {
    Config {
        test_paths: paths.iter().map(|p| p.to_string()).collect(),
        ..Config::default()
    }
}

#[test]
fn test_compute() {
    let config = config_with(&[
        "/home/foo/projects/cool-project/tests/",
        "/home/foo/projects/cool-project/tests/run-pass/",
        "/home/foo/projects/cool-project/tests/run-fail/",
    ]);

    assert_eq!(compute("/home/foo/projects/cool-project/tests/run-pass/test1.txt", &config),
        Some("run-pass/test1.txt".to_owned()));
}

#[test]
fn test_least_specific_parent_test_search_directory_path_when_all_test_paths_are_directories() {
    let config = config_with(&[
        "/home/foo/projects/cool-project/tests/",
        "/home/foo/projects/cool-project/tests/run-pass/",
        "/home/foo/projects/cool-project/tests/run-fail/",
    ]);

    assert_eq!(least_specific_parent_test_search_directory_path(
            "/home/foo/projects/cool-project/tests/run-pass/test1.txt", &config),
        Some("/home/foo/projects/cool-project/tests/".to_owned()));
}

#[test]
fn test_least_specific_parent_test_search_directory_path_when_one_test_path_directory() {
    let config = config_with(&[
        "/home/foo/projects/cool-project/tests/",
    ]);

    assert_eq!(least_specific_parent_test_search_directory_path(
            "/home/foo/projects/cool-project/tests/run-pass/test1.txt", &config),
        Some("/home/foo/projects/cool-project/tests/".to_owned()));
}

#[test]
fn test_most_common_test_path_ancestor_when_all_paths_are_absolute() {
    let config = config_with(&[
        "/home/foo/projects/cool-project/tests/run-pass/test1.txt",
        "/home/foo/projects/cool-project/tests/run-pass/test2.txt",
        "/home/foo/projects/cool-project/tests/run-fail/test3.txt",
    ]);

    assert_eq!(most_common_test_path_ancestor(
            "/home/foo/projects/cool-project/tests/run-pass/test1.txt", &config),
        Some("/home/foo/projects/cool-project/tests".to_owned()));
}

#[test]
fn test_most_common_test_path_ancestor_when_all_paths_absolute_on_different_drives() {
    let config = config_with(&[
        "C:/tests/run-pass/test1.txt",
        "C:/tests/run-pass/test2.txt",
        "Z:/tests/run-fail/test3.txt",
        "Z:/tests/run-fail/test4.txt",
    ]);

    assert_eq!(most_common_test_path_ancestor("C:/tests/run-pass/test2.txt", &config), None);
}

#[test]
fn compute_falls_back_to_the_common_ancestor() {
    let config = config_with(&[
        "/p/tests/run-pass/a.txt",
        "/p/tests/run-fail/b.txt",
    ]);
    assert_eq!(compute("/p/tests/run-pass/c.txt", &config), Some("run-pass/c.txt".to_owned()));
}

#[test]
fn compute_without_any_anchor_is_none() {
    let config = config_with(&["/elsewhere/"]);
    assert_eq!(compute("/p/t.txt", &config), None);
}

#[test]
fn least_specific_prefers_the_first_of_equal_depth() {
    let config = config_with(&["/a/b/", "/a/", "/a//"]);
    assert_eq!(least_specific_parent_test_search_directory_path("/a/b/c.txt", &config), Some("/a/".to_owned()));
}

#[test]
fn extensions_are_matched_exactly() {
    let mut config = Config::default();
    config.add_extension("txt");
    config.add_search_path("tests/");
    assert!(config.is_extension_supported("txt"));
    assert!(!config.is_extension_supported("tx"));
    assert_eq!(config.test_paths, vec!["tests/".to_owned()]);
    assert_eq!(config.shell, "bash");
}

#[test]
fn constant_definitions_split_at_the_equals_sign() {
    assert_eq!(parse_constant_definition(" cc = clang++ "), Ok(("cc".to_owned(), "clang++".to_owned())));
    assert_eq!(parse_constant_definition("a=b=c"), Err("constant definition must have exactly one equals sign but got 'a=b=c'".to_owned()));
    assert_eq!(parse_constant_definition("a="), Err("constant definitions must include both a <NAME> and a <VALUE>, separated by equals".to_owned()));
}

#[test]
fn variable_names_are_listed_once() {
    let mut v = lit::vars::Variables::new();
    v.insert("a".to_owned(), "1".to_owned());
    v.insert("b".to_owned(), "2".to_owned());
    v.insert("a".to_owned(), "3".to_owned());
    let mut names = v.names();
    names.sort();
    assert_eq!(names, vec!["a".to_owned(), "b".to_owned()]);
    assert_eq!(v.get("a"), Some("3".to_owned()));
    let mut w = lit::vars::Variables::new();
    w.insert("x_tempfile_y".to_owned(), "/tmp/1".to_owned());
    w.insert("other".to_owned(), "/tmp/2".to_owned());
    assert_eq!(w.tempfile_paths(), vec!["/tmp/1".to_owned()]);
}
