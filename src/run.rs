//! Running test files: what each `RUN` yields once its program has run, and
//! what a whole file yields.

use vstd::prelude::*;
use crate::config::Config;
use crate::evaluator::{check_step, reports, CheckOutcome, TestRunState};
use crate::model::{
    erroneous, has_xfail, is_run, CommandKind, CommandLine, ComponentView, Invocation, KindView,
    ProgramOutput, ResultView, TestFailReason, TestFile, TestResult, TestResultKind,
};
use crate::resolve::command_from;
use crate::text::{
    chars_of, join_lines, lines, lines_of, push_str, string_from, string_of, trim_end,
    trim_end_bound, utf8_len, utf8_len_fits,
};
use crate::vars::{lists_tempfiles, Variables};

verus! {

/// Program output as the checks see it: each line stripped of trailing
/// whitespace, and the lines joined with newlines.
pub open spec fn trimmed_output(s: Seq<char>) -> Seq<char> {
    join_lines(lines_of(s).map_values(|l: Seq<char>| trim_end(l)))
}

/// Trims the program's standard output line by line.
pub fn trim_output(stdout: &str) -> (r: String)
    ensures
        r@ == trimmed_output(stdout@),
{
    let v = chars_of(stdout);
    let ls = lines(&v);
    let ghost all = lines_of(stdout@).map_values(|l: Seq<char>| trim_end(l));
    let mut out = String::new();
    let mut i: usize = 0;
    while i < ls.len()
        invariant
            v@ == stdout@,
            ls@.len() == lines_of(stdout@).len(),
            forall|j: int| 0 <= j < ls@.len() ==> #[trigger] ls@[j]@ == lines_of(stdout@)[j],
            all == lines_of(stdout@).map_values(|l: Seq<char>| trim_end(l)),
            i <= ls@.len(),
            out@ == join_lines(all.take(i as int)),
        decreases ls@.len() - i,
    {
        let e = trim_end_bound(&ls[i], 0, ls[i].len());
        let l = string_of(&ls[i], 0, e);
        proof {
            assert(ls@[i as int]@.subrange(0, ls@[i as int]@.len() as int) =~= ls@[i as int]@);
            assert(all.take(i + 1).drop_last() =~= all.take(i as int));
        }
        if i > 0 {
            out.push('\n');
        }
        push_str(&mut out, l.as_str());
        proof {
            if i == 0 {
                assert(out@ =~= all.take(1)[0]);
            }
        }
        i = i + 1;
    }
    proof {
        assert(all.take(i as int) =~= all);
    }
    out
}

/// What became of the program behind a `RUN`, as the caller observed it.
pub enum ProgramExecution {
    /// The shell could not be found.
    ShellNotFound,
    /// The program could not be launched, for the given reason.
    LaunchFailed(String),
    /// The program ran to its end.
    Finished {
        stdout: String,
        stderr: String,
        /// Whether it exited successfully.
        success: bool,
        /// Its exit code, if it exited with one.
        exit_code: Option<i32>,
    },
}

/// The variables that every `RUN` of a file starts from: the constants, then
/// the file's own variables.
pub open spec fn base_vars(tf: TestFile, config: Config) -> Map<Seq<char>, Seq<char>> {
    config.constants@.union_prefer_right(
        Map::<Seq<char>, Seq<char>>::empty().insert("file"@, tf.path.absolute@),
    )
}

/// The checks of a run, walked in file order over output `out` from cursor
/// `cur`: how the walk ended, the cursor and variables before the check that
/// stopped it (or at the end), and the pattern of that check.
pub open spec fn walk(
    out: Seq<char>,
    cur: int,
    vars: Map<Seq<char>, Seq<char>>,
    ks: Seq<KindView>,
) -> (CheckOutcome, int, Map<Seq<char>, Seq<char>>, Seq<ComponentView>)
    decreases ks.len(),
{
    if ks.len() == 0 {
        (CheckOutcome::Passed, cur, vars, seq![])
    } else {
        let (p, next) = match ks[0] {
            KindView::Check(p) => (p, false),
            KindView::CheckNext(p) => (p, true),
            _ => (seq![], false),
        };
        if ks[0] is Check || ks[0] is CheckNext {
            let (o, c, v) = check_step(out, cur, vars, p, next);
            if o is Passed {
                walk(out, c, v, ks.drop_first())
            } else {
                (o, cur, vars, p)
            }
        } else {
            walk(out, cur, vars, ks.drop_first())
        }
    }
}

/// The kinds of a file's commands.
pub open spec fn kinds(tf: TestFile) -> Seq<KindView> {
    tf.commands@.map_values(|c: crate::model::Command| c.kind@)
}

/// The message for a shell that does not exist.
pub open spec fn missing_shell_message(shell: Seq<char>) -> Seq<char> {
    "shell '"@ + shell + "' does not exist"@
}

/// `r` is the result of a `RUN` whose command line resolved to `cmd` and whose
/// program went as `exec`, before any `XFAIL` is taken into account.
pub open spec fn run_reports(
    r: TestResultKind,
    cmd: Result<Seq<char>, Seq<char>>,
    exec: ProgramExecution,
    tf: TestFile,
    config: Config,
) -> bool {
    match cmd {
        Err(m) => r matches TestResultKind::Error { message } && message@ == m,
        Ok(line) => match exec {
            ProgramExecution::ShellNotFound => r matches TestResultKind::Error { message }
                && message@ == missing_shell_message(config.shell@),
            ProgramExecution::LaunchFailed(m) => r matches TestResultKind::Error { message }
                && message@ == m@,
            ProgramExecution::Finished { stdout, success, exit_code, .. } => if !success {
                r matches TestResultKind::Fail {
                    reason: TestFailReason::UnsuccessfulExecution {
                        program_command_line,
                        exit_status,
                    },
                    hint: None,
                } && program_command_line@ == line && exit_status == match exit_code {
                    Some(c) => c,
                    None => 1i32,
                }
            } else if utf8_len(trimmed_output(stdout@)) > usize::MAX {
                r matches TestResultKind::Error { message } && message@
                    == "the program's output is too large to check"@
            } else {
                let out = trimmed_output(stdout@);
                let (o, c, v, p) = walk(out, 0, base_vars(tf, config), kinds(tf));
                reports(r, o, out, c, p)
            },
        },
    }
}

/// The variables at the end of a run whose checks all passed.
pub open spec fn final_vars(exec: ProgramExecution, tf: TestFile, config: Config) -> Map<
    Seq<char>,
    Seq<char>,
> {
    match exec {
        ProgramExecution::Finished { stdout, .. } => walk(
            trimmed_output(stdout@),
            0,
            base_vars(tf, config),
            kinds(tf),
        ).2,
        _ => base_vars(tf, config),
    }
}

/// `r` reports a `RUN` of invocation `inv` whose program went as `exec`,
/// leaving its result unmarked by `XFAIL`.
pub open spec fn run_report_holds_unmarked(
    r: RunReport,
    inv: Seq<char>,
    exec: ProgramExecution,
    tf: TestFile,
    config: Config,
) -> bool {
    let cmd = command_from(inv, 0, base_vars(tf, config));
    &&& run_reports(r.raw_result, cmd, exec, tf, config)
    &&& r.invocation.original_command@ == inv
    &&& (cmd matches Ok(x) ==> r.command_line.0@ == x)
    &&& (cmd is Err ==> r.command_line.0@.len() == 0)
    &&& match exec {
        ProgramExecution::Finished { stdout, stderr, .. } => if cmd is Ok {
            r.output.stdout@ == stdout@ && r.output.stderr@ == stderr@
        } else {
            r.output.stdout@.len() == 0 && r.output.stderr@.len() == 0
        },
        _ => r.output.stdout@.len() == 0 && r.output.stderr@.len() == 0,
    }
    &&& (config.cleanup_temporary_files && !erroneous(r.raw_result)) ==> lists_tempfiles(
        final_vars(exec, tf, config),
        r.tempfiles@,
    )
    &&& !(config.cleanup_temporary_files && !erroneous(r.raw_result)) ==> r.tempfiles@.len() == 0
}

/// `r` reports a `RUN` of invocation `inv` whose program went as `exec`: as
/// `run_report_holds_unmarked` says, and with its result the unmarked one
/// under the file's `XFAIL` mark.
pub open spec fn run_report_holds(
    r: RunReport,
    inv: Seq<char>,
    exec: ProgramExecution,
    tf: TestFile,
    config: Config,
) -> bool {
    &&& run_report_holds_unmarked(r, inv, exec, tf, config)
    &&& r.result@ == xfail_view(r.raw_result@, has_xfail(tf.commands@))
}

/// What one `RUN` yielded.
pub struct RunReport {
    /// The result, with the file's `XFAIL` mark taken into account.
    pub result: TestResultKind,
    /// The result before the `XFAIL` mark is taken into account.
    pub raw_result: TestResultKind,
    pub invocation: Invocation,
    pub command_line: CommandLine,
    pub output: ProgramOutput,
    /// The temporary files that may now be removed.
    pub tempfiles: Vec<String>,
}

/// A single `RUN` of a test file.
pub struct Instance {
    pub invocation: Invocation,
}

impl Instance {
    pub fn new(invocation: Invocation) -> (r: Instance)
        ensures
            r.invocation == invocation,
    {
        Instance { invocation }
    }

    /// The variables that the run starts from.
    pub fn base_variables(test_file: &TestFile, config: &Config) -> (r: Variables)
        ensures
            r@ == base_vars(*test_file, *config),
    {
        let mut v = config.constants.duplicate();
        let f = test_file.variables();
        v.extend(&f);
        v
    }

    /// The command line to hand to the shell: the invocation with each
    /// `@name` replaced by its value, or the message for an unbound name.
    pub fn command_line(&self, test_file: &TestFile, config: &Config) -> (r: Result<
        CommandLine,
        String,
    >)
        ensures
            match command_from(
                self.invocation.original_command@,
                0,
                base_vars(*test_file, *config),
            ) {
                Ok(x) => r matches Ok(c) && c.0@ == x,
                Err(m) => r matches Err(e) && e@ == m,
            },
    {
        let vars = Self::base_variables(test_file, config);
        match crate::resolve::invocation(&self.invocation, &vars) {
            Ok(s) => Ok(CommandLine(s)),
            Err(e) => Err(e),
        }
    }

    /// The report of this `RUN`, once its program went as `execution`: its
    /// result, before and after the file's `XFAIL` mark, its invocation and
    /// command line, what the program printed, and the temporary files to
    /// remove.
    pub fn run(&self, test_file: &TestFile, config: &Config, execution: ProgramExecution) -> (r:
        RunReport)
        ensures
            run_report_holds(
                r,
                self.invocation.original_command@,
                execution,
                *test_file,
                *config,
            ),
    {
        let mut report = self.run_unmarked(test_file, config, execution);
        let xfail = test_file.is_expected_failure();
        report.result = apply_xfail(report.raw_result.duplicate(), xfail);
        report
    }

    /// The report of this `RUN` with its result not yet marked.
    fn run_unmarked(&self, test_file: &TestFile, config: &Config, execution: ProgramExecution) -> (r:
        RunReport)
        ensures
            run_report_holds_unmarked(
                r,
                self.invocation.original_command@,
                execution,
                *test_file,
                *config,
            ),
    {
        let invocation = Invocation { original_command: self.invocation.original_command.clone() };
        let command_line = match self.command_line(test_file, config) {
            Ok(c) => c,
            Err(message) => {
                return RunReport {
                    result: TestResultKind::Pass,
                    raw_result: TestResultKind::Error { message },
                    invocation,
                    command_line: CommandLine(String::new()),
                    output: ProgramOutput::empty(),
                    tempfiles: Vec::new(),
                };
            },
        };
        match execution {
            ProgramExecution::ShellNotFound => {
                let mut message = string_from("shell '");
                push_str(&mut message, config.shell.as_str());
                push_str(&mut message, "' does not exist");
                RunReport {
                    result: TestResultKind::Pass,
                    raw_result: TestResultKind::Error { message },
                    invocation,
                    command_line,
                    output: ProgramOutput::empty(),
                    tempfiles: Vec::new(),
                }
            },
            ProgramExecution::LaunchFailed(message) => RunReport {
                result: TestResultKind::Pass,
                raw_result: TestResultKind::Error { message },
                invocation,
                command_line,
                output: ProgramOutput::empty(),
                tempfiles: Vec::new(),
            },
            ProgramExecution::Finished { stdout, stderr, success, exit_code } => {
                if !success {
                    let exit_status = match exit_code {
                        Some(c) => c,
                        None => 1i32,
                    };
                    let reason = TestFailReason::UnsuccessfulExecution {
                        program_command_line: command_line.0.clone(),
                        exit_status,
                    };
                    return RunReport {
                        result: TestResultKind::Pass,
                        raw_result: TestResultKind::Fail { reason, hint: None },
                        invocation,
                        command_line,
                        output: ProgramOutput { stdout, stderr },
                        tempfiles: Vec::new(),
                    };
                }
                let trimmed = trim_output(stdout.as_str());
                if !utf8_len_fits(&chars_of(trimmed.as_str())) {
                    return RunReport {
                        result: TestResultKind::Pass,
                        raw_result: TestResultKind::Error { message: string_from("the program's output is too large to check") },
                        invocation,
                        command_line,
                        output: ProgramOutput { stdout, stderr },
                        tempfiles: Vec::new(),
                    };
                }
                let mut state = TestRunState::new(Self::base_variables(test_file, config));
                proof {
                    assert(Seq::<char>::empty() + trimmed@ =~= trimmed@);
                }
                state.append_program_output(trimmed.as_str());
                state.append_program_stderr(stderr.as_str());
                let result = run_test_checks(&mut state, test_file, config);
                let tempfiles = if config.cleanup_temporary_files && !result.is_erroneous() {
                    state.variables().tempfile_paths()
                } else {
                    Vec::new()
                };
                RunReport {
                    result: TestResultKind::Pass,
                    raw_result: result,
                    invocation,
                    command_line,
                    output: ProgramOutput { stdout, stderr },
                    tempfiles,
                }
            },
        }
    }
}

/// Walks the checks of a test file over the state of a run.
pub fn run_test_checks(state: &mut TestRunState, test_file: &TestFile, config: &Config) -> (r:
    TestResultKind)
    requires
        old(state).wf(),
    ensures
        final(state).wf(),
        ({
            let (o, c, v, p) = walk(
                old(state).output(),
                old(state).cursor(),
                old(state).vars(),
                kinds(*test_file),
            );
            &&& reports(r, o, old(state).output(), c, p)
            &&& (o is Passed ==> final(state).vars() == v)
        }),
{
    let ghost out = state.output();
    let ghost ks = kinds(*test_file);
    let ghost target = walk(out, state.cursor(), state.vars(), ks);
    let mut i: usize = 0;
    proof {
        assert(ks.skip(0) =~= ks);
    }
    while i < test_file.commands.len()
        invariant
            state.wf(),
            state.output() == out,
            ks == kinds(*test_file),
            i <= ks.len(),
            ks.len() == test_file.commands@.len(),
            out == old(state).output(),
            target == walk(old(state).output(), old(state).cursor(), old(state).vars(), ks),
            walk(out, state.cursor(), state.vars(), ks.skip(i as int)) == target,
        decreases ks.len() - i,
    {
        let ghost rest = ks.skip(i as int);
        proof {
            assert(rest[0] == test_file.commands@[i as int].kind@);
            assert(rest.drop_first() =~= ks.skip(i + 1));
        }
        let ghost c0 = state.cursor();
        let ghost v0 = state.vars();
        let result = match &test_file.commands[i].kind {
            CommandKind::Check(p) => {
                let r = state.check(p, config);
                proof {
                    let (o, c, v) = check_step(out, c0, v0, p@, false);
                    if erroneous(r) {
                        assert(!(o is Passed));
                        assert(walk(out, c0, v0, rest) == (o, c0, v0, p@));
                    }
                }
                r
            },
            CommandKind::CheckNext(p) => {
                let r = state.check_next(p, config);
                proof {
                    let (o, c, v) = check_step(out, c0, v0, p@, true);
                    if erroneous(r) {
                        assert(!(o is Passed));
                        assert(walk(out, c0, v0, rest) == (o, c0, v0, p@));
                    }
                }
                r
            },
            _ => TestResultKind::Pass,
        };
        if result.is_erroneous() {
            proof {
                assert(walk(out, c0, v0, rest) == target);
                assert(reports(result, target.0, out, target.1, target.3));
                assert(target == walk(old(state).output(), old(state).cursor(), old(state).vars(), kinds(*test_file)));
                assert(out == old(state).output());
            }
            return result;
        }
        i = i + 1;
    }
    proof {
        assert(ks.skip(i as int) =~= Seq::<KindView>::empty());
    }
    TestResultKind::Pass
}

/// The position of the first erroneous result at or after `k`.
pub open spec fn first_erroneous_from(rs: Seq<ResultView>, k: int) -> Option<int>
    decreases rs.len() - k,
{
    if k < 0 || k >= rs.len() {
        None
    } else if rs[k] is Error || rs[k] is Fail || rs[k] is UnexpectedPass {
        Some(k)
    } else {
        first_erroneous_from(rs, k + 1)
    }
}

/// A result under an `XFAIL` mark: a pass becomes an unexpected pass, a
/// failure or an error an expected failure.
pub open spec fn xfail_view(r: ResultView, xfail: bool) -> ResultView {
    if !xfail {
        r
    } else {
        match r {
            ResultView::Pass => ResultView::UnexpectedPass,
            ResultView::Error(_) => ResultView::ExpectedFailure,
            ResultView::Fail(_, _) => ResultView::ExpectedFailure,
            _ => r,
        }
    }
}

/// The overall result of a file from the results of its runs: `Skip` when
/// it runs nothing; otherwise the first erroneous result, or `Pass`, as an
/// `XFAIL` mark turns it.
pub open spec fn overall_view(xfail: bool, n_runs: nat, raws: Seq<ResultView>) -> ResultView {
    if n_runs == 0 {
        ResultView::Skip
    } else {
        let raw = match first_erroneous_from(raws, 0) {
            Some(i) => raws[i],
            None => ResultView::Pass,
        };
        xfail_view(raw, xfail)
    }
}

/// The unmarked results of the runs, as values.
pub open spec fn raw_views(runs: Seq<RunReport>) -> Seq<ResultView> {
    runs.map_values(|r: RunReport| r.raw_result@)
}

/// A result under an `XFAIL` mark.
fn apply_xfail(r: TestResultKind, xfail: bool) -> (out: TestResultKind)
    ensures
        out@ == xfail_view(r@, xfail),
{
    if !xfail {
        return r;
    }
    match r {
        TestResultKind::Pass => TestResultKind::UnexpectedPass,
        TestResultKind::Error { .. } => TestResultKind::ExpectedFailure,
        TestResultKind::Fail { .. } => TestResultKind::ExpectedFailure,
        other => other,
    }
}

/// The result of a test file, from the reports of its runs in order. Each
/// run keeps its own marked result; the file's overall result is the `XFAIL`
/// mark applied to the first erroneous unmarked result (or to `Pass`), so a
/// marked file with several runs is an expected failure as soon as one of
/// them fails.
pub fn file_result(test_file: &TestFile, runs: Vec<RunReport>) -> (r: TestResult)
    requires
        runs@.len() == crate::model::run_invocations(test_file.commands@).len(),
    ensures
        r.path == test_file.path,
        r.overall_result@ == overall_view(
            has_xfail(test_file.commands@),
            runs@.len(),
            raw_views(runs@),
        ),
        r.individual_run_results@.len() == runs@.len(),
        forall|i: int|
            0 <= i < runs@.len() ==> (#[trigger] r.individual_run_results@[i]).0 == runs@[i].result
                && r.individual_run_results@[i].1 == runs@[i].invocation
                && r.individual_run_results@[i].2 == runs@[i].command_line
                && r.individual_run_results@[i].3 == runs@[i].output,
{
    let xfail = test_file.is_expected_failure();
    let ghost raws = raw_views(runs@);
    let mut overall: Option<TestResultKind> = None;
    let mut k: usize = 0;
    while k < runs.len()
        invariant
            k <= runs@.len(),
            raws == raw_views(runs@),
            overall matches Some(o) ==> first_erroneous_from(raws, 0) matches Some(j) && o@
                == raws[j],
            overall is None ==> first_erroneous_from(raws, 0) == first_erroneous_from(
                raws,
                k as int,
            ),
        decreases runs@.len() - k,
    {
        if overall.is_none() && runs[k].raw_result.is_erroneous() {
            overall = Some(runs[k].raw_result.duplicate());
        }
        k = k + 1;
    }
    let raw = match overall {
        Some(o) => o,
        None => TestResultKind::Pass,
    };
    let overall_result = if runs.len() == 0 {
        TestResultKind::Skip
    } else {
        apply_xfail(raw, xfail)
    };
    let ghost old_runs = runs@;
    let n = runs.len();
    let mut individual: Vec<(TestResultKind, Invocation, CommandLine, ProgramOutput)> = Vec::new();
    let mut rest = runs;
    let mut taken: usize = 0;
    while rest.len() > 0
        invariant
            n == old_runs.len(),
            old_runs.len() == taken + rest@.len(),
            rest@ == old_runs.skip(taken as int),
            individual@.len() == taken,
            forall|i: int|
                0 <= i < taken ==> (#[trigger] individual@[i]).0 == old_runs[i].result
                    && individual@[i].1 == old_runs[i].invocation && individual@[i].2
                    == old_runs[i].command_line && individual@[i].3 == old_runs[i].output,
        decreases rest@.len(),
    {
        let run = rest.remove(0);
        proof {
            assert(run == old_runs[taken as int]);
            assert(rest@ =~= old_runs.skip(taken + 1));
        }
        individual.push((run.result, run.invocation, run.command_line, run.output));
        taken = taken + 1;
    }
    TestResult {
        path: crate::model::TestFilePath {
            absolute: test_file.path.absolute.clone(),
            relative: test_file.path.relative.clone(),
        },
        overall_result,
        individual_run_results: individual,
    }
}

/// Runs the checks of every `RUN` of a file, given how each of their programs
/// went, in order.
pub fn execute_tests(test_file: &TestFile, config: &Config, executions: Vec<ProgramExecution>) -> (r:
    Vec<RunReport>)
    requires
        executions@.len() == crate::model::run_invocations(test_file.commands@).len(),
    ensures
        r@.len() == executions@.len(),
        forall|i: int|
            0 <= i < r@.len() ==> run_report_holds(
                #[trigger] r@[i],
                crate::model::run_invocations(test_file.commands@)[i],
                executions@[i],
                *test_file,
                *config,
            ),
{
    let invocations = test_file.run_command_invocations();
    let ghost execs = executions@;
    let mut rest = executions;
    let mut r: Vec<RunReport> = Vec::new();
    let mut i: usize = 0;
    while i < invocations.len()
        invariant
            invocations@.len() == execs.len(),
            forall|k: int|
                0 <= k < invocations@.len() ==> #[trigger] invocations@[k].original_command@
                    == crate::model::run_invocations(test_file.commands@)[k],
            execs.len() == crate::model::run_invocations(test_file.commands@).len(),
            i <= invocations@.len(),
            rest@ == execs.skip(i as int),
            r@.len() == i,
            forall|k: int|
                0 <= k < i ==> run_report_holds(
                    #[trigger] r@[k],
                    crate::model::run_invocations(test_file.commands@)[k],
                    execs[k],
                    *test_file,
                    *config,
                ),
        decreases invocations@.len() - i,
    {
        let execution = rest.remove(0);
        proof {
            assert(execution == execs[i as int]);
            assert(rest@ =~= execs.skip(i + 1));
        }
        let instance = Instance::new(Invocation {
            original_command: invocations[i].original_command.clone(),
        });
        let report = instance.run(test_file, config, execution);
        r.push(report);
        i = i + 1;
    }
    r
}

/// A file without `RUN` commands runs nothing.
proof fn lemma_no_runs(cs: Seq<crate::model::Command>)
    requires
        forall|i: int| 0 <= i < cs.len() ==> !(#[trigger] cs[i].kind is Run),
    ensures
        crate::model::run_invocations(cs).len() == 0,
    decreases cs.len(),
{
    if cs.len() > 0 {
        lemma_no_runs(cs.drop_last());
    }
}

/// A file without `RUN` commands is skipped, whatever else it holds.
pub proof fn law_skip(test_file: TestFile, raws: Seq<ResultView>)
    requires
        forall|i: int|
            0 <= i < test_file.commands@.len() ==> !(#[trigger] test_file.commands@[i].kind is Run),
    ensures
        overall_view(
            has_xfail(test_file.commands@),
            crate::model::run_invocations(test_file.commands@).len(),
            raws,
        ) == ResultView::Skip,
{
    lemma_no_runs(test_file.commands@);
}

/// Under `XFAIL`, a file that runs something and would otherwise pass is an
/// unexpected pass, and one that would otherwise fail or err is an expected
/// failure. The results of its runs are those of runs: passes, failures or
/// errors.
pub proof fn law_xfail(n_runs: nat, raws: Seq<ResultView>)
    requires
        n_runs > 0,
        forall|i: int|
            0 <= i < raws.len() ==> #[trigger] raws[i] is Pass || raws[i] is Fail || raws[i] is Error,
    ensures
        overall_view(false, n_runs, raws) is Pass ==> overall_view(true, n_runs, raws)
            is UnexpectedPass,
        (overall_view(false, n_runs, raws) is Fail || overall_view(false, n_runs, raws) is Error)
            ==> overall_view(true, n_runs, raws) is ExpectedFailure,
        overall_view(true, n_runs, raws) is UnexpectedPass || overall_view(true, n_runs, raws)
            is ExpectedFailure,
{
    lemma_first_erroneous(raws, 0);
}

proof fn lemma_first_erroneous(rs: Seq<ResultView>, k: int)
    requires
        0 <= k,
    ensures
        first_erroneous_from(rs, k) matches Some(i) ==> k <= i < rs.len() && (rs[i] is Error
            || rs[i] is Fail || rs[i] is UnexpectedPass),
    decreases rs.len() - k,
{
    if k < rs.len() {
        lemma_first_erroneous(rs, k + 1);
    }
}

/// The result of a test file that could not be read or parsed: an error
/// with the given message, and no runs.
pub fn error_result(path: crate::model::TestFilePath, message: String) -> (r: TestResult)
    ensures
        r.path == path,
        r.overall_result@ == ResultView::Error(message@),
        r.individual_run_results@.len() == 0,
{
    TestResult {
        path,
        overall_result: TestResultKind::Error { message },
        individual_run_results: Vec::new(),
    }
}

/// The contents of the file that records how a suite went.
pub fn suite_status(is_successful: bool) -> (r: &'static str)
    ensures
        r@ == if is_successful {
            "successful\n"@
        } else {
            "failed\n"@
        },
{
    if is_successful {
        "successful\n"
    } else {
        "failed\n"
    }
}

/// Whether a whole suite passed: no file's overall result is erroneous.
pub fn suite_passed(results: &Vec<TestResult>) -> (r: bool)
    ensures
        r == forall|i: int| 0 <= i < results@.len() ==> !erroneous(#[trigger] results@[i].overall_result),
{
    let mut i: usize = 0;
    while i < results.len()
        invariant
            i <= results@.len(),
            forall|k: int| 0 <= k < i ==> !erroneous(#[trigger] results@[k].overall_result),
        decreases results@.len() - i,
    {
        if results[i].overall_result.is_erroneous() {
            return false;
        }
        i = i + 1;
    }
    true
}

} // verus!

