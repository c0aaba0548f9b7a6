use lit::config::Config;
use lit::model::{CommandKind, TestFailReason, TestFilePath, TestResultKind, TestSuiteDetails};
use lit::parse::test_file;
use lit::run::{execute_tests, file_result, suite_passed, suite_status, trim_output, Instance, ProgramExecution};

fn path() -> TestFilePath {
    TestFilePath { absolute: "/tests/sample.txt".to_owned(), relative: "sample.txt".to_owned() }
}

fn finished(stdout: &str) -> ProgramExecution {
    ProgramExecution::Finished { stdout: stdout.to_owned(), stderr: String::new(), success: true, exit_code: Some(0) }
}

fn run_file(body: &str, config: &Config, outputs: Vec<ProgramExecution>) -> lit::model::TestResult {
    let tf = test_file(path(), body).unwrap();
    let reports = execute_tests(&tf, config, outputs);
    file_result(&tf, reports)
}

#[test]
fn happy_path_passes() {
    let r = run_file("; RUN: echo hello\n; CHECK: hello", &Config::default(), vec![finished("hello\n")]);
    assert_eq!(r.overall_result, TestResultKind::Pass);
    assert_eq!(r.individual_run_results.len(), 1);
    assert_eq!(r.individual_run_results[0].2 .0, "echo hello");
}

#[test]
fn check_next_rejection_fails_with_hint() {
    let out = "Hydrogen, is an element.\nHelium, is an element.\nLithium, is an element.\n";
    let r = run_file("; RUN: x\n; CHECK: Hydrogen\n; CHECK-NEXT: Lithium", &Config::default(), vec![finished(out)]);
    match r.overall_result {
        TestResultKind::Fail { reason: TestFailReason::CheckFailed(info), hint: Some(h) } => {
            assert!(h.contains("does not appear on the next line"));
            assert!(info.remaining_text().starts_with("Helium"));
        },
        other => panic!("unexpected: {:?}", other),
    }
}

#[test]
fn capture_propagation_passes() {
    let r = run_file("; RUN: x\n; CHECK: id=[[N:\\d+]]\n; CHECK: id=$$N again", &Config::default(), vec![finished("id=42\nid=42 again")]);
    assert_eq!(r.overall_result, TestResultKind::Pass);
}

#[test]
fn constants_interpolate_into_run_lines() {
    let mut config = Config::default();
    config.constants.insert("cc".to_owned(), "echo".to_owned());
    let tf = test_file(path(), "; RUN: @cc ok\n; CHECK: ok").unwrap();
    let inv = tf.run_command_invocations();
    let line = Instance::new(inv[0].clone()).command_line(&tf, &config).unwrap();
    assert_eq!(line.0, "echo ok");
    let r = file_result(&tf, execute_tests(&tf, &config, vec![finished("ok\n")]));
    assert_eq!(r.overall_result, TestResultKind::Pass);
}

#[test]
fn file_variable_is_the_absolute_path() {
    let tf = test_file(path(), "; RUN: cat @file").unwrap();
    let line = Instance::new(tf.run_command_invocations()[0].clone()).command_line(&tf, &Config::default()).unwrap();
    assert_eq!(line.0, "cat /tests/sample.txt");
}

#[test]
fn missing_shell_is_an_error() {
    let mut config = Config::default();
    config.shell = "definitely-not-a-shell".to_owned();
    let r = run_file("; RUN: echo hi\n; CHECK: hi", &config, vec![ProgramExecution::ShellNotFound]);
    assert_eq!(r.overall_result, TestResultKind::Error { message: "shell 'definitely-not-a-shell' does not exist".to_owned() });
}

#[test]
fn xfail_with_check_failure_is_expected() {
    let r = run_file("; XFAIL:\n; RUN: echo x\n; CHECK: y", &Config::default(), vec![finished("x\n")]);
    assert_eq!(r.overall_result, TestResultKind::ExpectedFailure);
    assert_eq!(r.individual_run_results[0].0, TestResultKind::ExpectedFailure);
}

#[test]
fn xfail_with_pass_is_unexpected() {
    let r = run_file("; XFAIL:\n; RUN: echo x\n; CHECK: x", &Config::default(), vec![finished("x\n")]);
    assert_eq!(r.overall_result, TestResultKind::UnexpectedPass);
    assert!(r.overall_result.is_erroneous());
}

#[test]
fn file_without_runs_is_skipped() {
    let r = run_file("; CHECK: x\n; XFAIL:", &Config::default(), vec![]);
    assert_eq!(r.overall_result, TestResultKind::Skip);
    assert!(r.individual_run_results.is_empty());
}

#[test]
fn unicode_locality_passes() {
    let out = "  \u{1F600}\n  \u{1F600} smiles.\n\t\u{1F923}\njoy\u{1F600}.";
    let r = run_file("; RUN: x\n; CHECK-NEXT: \u{1F600}\n; CHECK-NEXT: \u{1F600}\n; CHECK-NEXT: \u{1F923}\n; CHECK-NEXT: \u{1F600}.", &Config::default(), vec![finished(out)]);
    assert_eq!(r.overall_result, TestResultKind::Pass);
}

#[test]
fn nonzero_exit_is_unsuccessful_execution() {
    let exec = ProgramExecution::Finished { stdout: String::new(), stderr: "boom".to_owned(), success: false, exit_code: Some(3) };
    let r = run_file("; RUN: false\n; CHECK: x", &Config::default(), vec![exec]);
    assert_eq!(r.overall_result, TestResultKind::Fail {
        reason: TestFailReason::UnsuccessfulExecution { program_command_line: "false".to_owned(), exit_status: 3 },
        hint: None,
    });
    if let TestResultKind::Fail { reason, .. } = &r.overall_result {
        assert_eq!(reason.human_detail_message(&Config::default()), "command 'false' exited with code '3'");
        assert_eq!(reason.human_summary(), "unsuccessful program execution whilst running test");
    }
}

#[test]
fn launch_failure_is_an_error() {
    let r = run_file("; RUN: x", &Config::default(), vec![ProgramExecution::LaunchFailed("denied".to_owned())]);
    assert_eq!(r.overall_result, TestResultKind::Error { message: "denied".to_owned() });
}

#[test]
fn first_erroneous_run_decides() {
    let r = run_file("; RUN: a\n; RUN: b\n; CHECK: yes", &Config::default(), vec![finished("yes"), finished("no")]);
    assert!(matches!(r.overall_result, TestResultKind::Fail { .. }));
    assert_eq!(r.individual_run_results[0].0, TestResultKind::Pass);
}

#[test]
fn captures_do_not_cross_runs() {
    let r = run_file("; RUN: a\n; RUN: b\n; CHECK: [[X:\\w+]]\n; CHECK: $$X", &Config::default(), vec![finished("a\na"), finished("b\nb")]);
    assert_eq!(r.overall_result, TestResultKind::Pass);
}

#[test]
fn stdout_lines_are_right_trimmed() {
    assert_eq!(trim_output("a  \n b\t\n\nc \n"), "a\n b\n\nc");
    let r = run_file("; RUN: x\n; CHECK-NEXT: a\n; CHECK-NEXT: b", &Config::default(), vec![finished("a   \nb  \n")]);
    assert_eq!(r.overall_result, TestResultKind::Pass);
}

#[test]
fn tempfiles_are_listed_after_success_only() {
    let body = "; RUN: x\n; CHECK: [[my_tempfile:\\S+]]";
    let tf = test_file(path(), body).unwrap();
    let reports = execute_tests(&tf, &Config::default(), vec![finished("/tmp/abc")]);
    assert_eq!(reports[0].tempfiles, vec!["/tmp/abc".to_owned()]);
    let mut keep = Config::default();
    keep.cleanup_temporary_files = false;
    let reports = execute_tests(&tf, &keep, vec![finished("/tmp/abc")]);
    assert!(reports[0].tempfiles.is_empty());
}

#[test]
fn result_labels() {
    assert_eq!(TestResultKind::Pass.human_label_pluralized(), "Passes");
    assert_eq!(TestResultKind::Skip.human_label_pluralized(), "Skipped tests");
    assert_eq!(TestResultKind::ExpectedFailure.human_label_pluralized(), "Expected failures");
    assert!(!TestResultKind::ExpectedFailure.is_erroneous());
    assert!(TestResultKind::Error { message: String::new() }.is_erroneous());
}

#[test]
fn suite_status_and_outcome() {
    assert_eq!(suite_status(true), "successful\n");
    assert_eq!(suite_status(false), "failed\n");
    let pass = run_file("; RUN: x\n; CHECK: x", &Config::default(), vec![finished("x")]);
    let skip = run_file("nothing", &Config::default(), vec![]);
    assert!(suite_passed(&vec![pass, skip]));
    let fail = run_file("; RUN: x\n; CHECK: y", &Config::default(), vec![finished("x")]);
    assert!(!suite_passed(&vec![fail]));
    let d = TestSuiteDetails { number_of_test_files: 2 };
    assert_eq!(d.number_of_test_files, 2);
}

#[test]
fn check_failure_detail_message() {
    let mut config = Config::default();
    config.truncate_output_context_to_number_of_lines = None;
    let r = run_file("; RUN: x\n; CHECK: a\n; CHECK: zzz", &config, vec![finished("a\nb\n")]);
    match &r.overall_result {
        TestResultKind::Fail { reason, .. } => {
            let m = reason.human_detail_message(&config);
            assert_eq!(m, "expected text 'zzz' but that was not found\n\n<successfully checked output>:\n\n  1|      a\n\n</successfully checked output>\n\n<remaining unchecked output>:\n\n  2|      b\n\n</remaining unchecked output>\n");
        },
        other => panic!("unexpected: {:?}", other),
    }
}

#[test]
fn commands_report_their_kind() {
    let tf = test_file(path(), "; XFAIL: whatever").unwrap();
    assert_eq!(tf.commands[0].kind, CommandKind::XFail);
    assert!(tf.is_expected_failure());
    assert_eq!(tf.variables().get("file"), Some("/tests/sample.txt".to_owned()));
}

#[test]
fn execute_tests_marks_each_run_with_xfail() {
    let tf = test_file(path(), "; XFAIL:\n; RUN: echo x\n; CHECK: y").unwrap();
    let reports = execute_tests(&tf, &Config::default(), vec![finished("x\n")]);
    assert_eq!(reports.len(), 1);
    assert_eq!(reports[0].result, TestResultKind::ExpectedFailure);
    assert!(!reports[0].result.is_erroneous());
    assert!(matches!(reports[0].raw_result, TestResultKind::Fail { .. }));
    let tf = test_file(path(), "; XFAIL:\n; RUN: echo x\n; CHECK: x").unwrap();
    let reports = execute_tests(&tf, &Config::default(), vec![finished("x\n")]);
    assert_eq!(reports[0].result, TestResultKind::UnexpectedPass);
    assert_eq!(reports[0].raw_result, TestResultKind::Pass);
}

#[test]
fn execute_tests_reports_command_line_and_output() {
    let tf = test_file(path(), "; RUN: echo hello\n; CHECK: hello").unwrap();
    let reports = execute_tests(&tf, &Config::default(), vec![finished("hello\n")]);
    assert_eq!(reports[0].result, TestResultKind::Pass);
    assert_eq!(reports[0].command_line.0, "echo hello");
    assert_eq!(reports[0].invocation.original_command, "echo hello");
    assert_eq!(reports[0].output.stdout, "hello\n");
    let reports = execute_tests(&tf, &Config::default(), vec![ProgramExecution::ShellNotFound]);
    assert_eq!(reports[0].output, lit::model::ProgramOutput::empty());
}

#[test]
fn unreadable_file_becomes_an_error_result() {
    let r = lit::run::error_result(path(), "could not read".to_owned());
    assert_eq!(r.overall_result, TestResultKind::Error { message: "could not read".to_owned() });
    assert!(r.individual_run_results.is_empty());
}
