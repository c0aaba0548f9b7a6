//! The data model: test files, their commands, text patterns and results.

use vstd::prelude::*;
use crate::text::{push_str, string_from};
use crate::vars::Variables;

verus! {

/// A tool invocation: the command that a `RUN` directive gives.
#[derive(Clone, Debug, PartialEq, Eq)]
pub struct Invocation {
    /// The command string, as the directive wrote it.
    pub original_command: String,
}

/// Where a test file lives.
#[derive(Clone, Debug, PartialEq, Eq)]
pub struct TestFilePath {
    /// The on-disk path to the test file.
    pub absolute: String,
    /// The path shown to the user.
    pub relative: String,
}

/// A parsed test file: its commands in the order of their lines.
#[derive(Clone, Debug, PartialEq, Eq)]
pub struct TestFile {
    pub path: TestFilePath,
    pub commands: Vec<Command>,
}

/// A directive, with the 1-based number of the line it came from.
#[derive(Clone, Debug, PartialEq, Eq)]
pub struct Command {
    pub line_number: u32,
    pub kind: CommandKind,
}

#[derive(Clone, Debug)]
pub enum CommandKind {
    /// Run an external tool.
    Run(Invocation),
    /// Verify that the output text matches an expression.
    Check(TextPattern),
    /// Verify that the very next output line matches an expression.
    CheckNext(TextPattern),
    /// Mark the test as supposed to fail.
    XFail,
}

/// A pattern of text: a sequence of components.
#[derive(Clone, Debug, PartialEq, Eq, PartialOrd, Ord)]
pub struct TextPattern {
    pub components: Vec<PatternComponent>,
}

/// A component in a text pattern.
#[derive(Clone, Debug, PartialEq, Eq, PartialOrd, Ord)]
pub enum PatternComponent {
    /// Literal text.
    Text(String),
    /// The value of a variable, `$$name`.
    Variable(String),
    /// A regular expression, `[[regex]]`.
    Regex(String),
    /// A regular expression whose match is captured, `[[name:regex]]`.
    NamedRegex { name: String, regex: String },
    /// The value of a constant, `@name`.
    Constant(String),
}

/// The mathematical value of a pattern component.
pub enum ComponentView {
    Text(Seq<char>),
    Variable(Seq<char>),
    Regex(Seq<char>),
    NamedRegex(Seq<char>, Seq<char>),
    Constant(Seq<char>),
}

impl View for PatternComponent {
    type V = ComponentView;

    open spec fn view(&self) -> ComponentView {
        match self {
            PatternComponent::Text(t) => ComponentView::Text(t@),
            PatternComponent::Variable(n) => ComponentView::Variable(n@),
            PatternComponent::Regex(r) => ComponentView::Regex(r@),
            PatternComponent::NamedRegex { name, regex } => ComponentView::NamedRegex(
                name@,
                regex@,
            ),
            PatternComponent::Constant(n) => ComponentView::Constant(n@),
        }
    }
}

impl View for TextPattern {
    type V = Seq<ComponentView>;

    open spec fn view(&self) -> Seq<ComponentView> {
        self.components@.map_values(|c: PatternComponent| c@)
    }
}

/// The surface syntax of one component.
pub open spec fn render_component(c: ComponentView) -> Seq<char> {
    match c {
        ComponentView::Text(t) => t,
        ComponentView::Variable(n) => "$$"@ + n,
        ComponentView::Regex(r) => "[["@ + r + "]]"@,
        ComponentView::NamedRegex(n, r) => "[["@ + n + ":"@ + r + "]]"@,
        ComponentView::Constant(n) => "@"@ + n,
    }
}

/// The canonical surface syntax of a pattern.
pub open spec fn render(cs: Seq<ComponentView>) -> Seq<char>
    decreases cs.len(),
{
    if cs.len() == 0 {
        seq![]
    } else {
        render(cs.drop_last()) + render_component(cs.last())
    }
}

/// Two command kinds are equal when they are of the same kind and their
/// invocations, or the canonical renderings of their patterns, agree.
pub open spec fn same_kind(a: CommandKind, b: CommandKind) -> bool {
    match (a, b) {
        (CommandKind::Run(x), CommandKind::Run(y)) => x.original_command@ == y.original_command@,
        (CommandKind::Check(x), CommandKind::Check(y)) => render(x@) == render(y@),
        (CommandKind::CheckNext(x), CommandKind::CheckNext(y)) => render(x@) == render(y@),
        (CommandKind::XFail, CommandKind::XFail) => true,
        _ => false,
    }
}

impl PartialEq for CommandKind {
    fn eq(&self, other: &CommandKind) -> (r: bool) {
        match (self, other) {
            (CommandKind::Run(x), CommandKind::Run(y)) => crate::text::str_eq(
                x.original_command.as_str(),
                y.original_command.as_str(),
            ),
            (CommandKind::Check(x), CommandKind::Check(y)) => crate::text::str_eq(
                x.to_string().as_str(),
                y.to_string().as_str(),
            ),
            (CommandKind::CheckNext(x), CommandKind::CheckNext(y)) => crate::text::str_eq(
                x.to_string().as_str(),
                y.to_string().as_str(),
            ),
            (CommandKind::XFail, CommandKind::XFail) => true,
            _ => false,
        }
    }
}

impl vstd::std_specs::cmp::PartialEqSpecImpl for CommandKind {
    open spec fn obeys_eq_spec() -> bool {
        true
    }

    open spec fn eq_spec(&self, other: &CommandKind) -> bool {
        same_kind(*self, *other)
    }
}

impl Eq for CommandKind {

}

/// The mathematical value of a command kind.
pub enum KindView {
    Run(Seq<char>),
    Check(Seq<ComponentView>),
    CheckNext(Seq<ComponentView>),
    XFail,
}

/// The mathematical value of a command.
pub struct CommandView {
    pub line: nat,
    pub kind: KindView,
}

impl View for CommandKind {
    type V = KindView;

    open spec fn view(&self) -> KindView {
        match self {
            CommandKind::Run(inv) => KindView::Run(inv.original_command@),
            CommandKind::Check(p) => KindView::Check(p@),
            CommandKind::CheckNext(p) => KindView::CheckNext(p@),
            CommandKind::XFail => KindView::XFail,
        }
    }
}

impl View for Command {
    type V = CommandView;

    open spec fn view(&self) -> CommandView {
        CommandView { line: self.line_number as nat, kind: self.kind@ }
    }
}

/// Builds a text pattern from a single component.
impl From<PatternComponent> for TextPattern {
    fn from(component: PatternComponent) -> (r: TextPattern) {
        TextPattern { components: vec![component] }
    }
}

impl vstd::std_specs::convert::FromSpecImpl<PatternComponent> for TextPattern {
    open spec fn obeys_from_spec() -> bool {
        false
    }

    open spec fn from_spec(v: PatternComponent) -> TextPattern {
        choose|p: TextPattern| p@ == seq![v@]
    }
}

pub fn copy_component(c: &PatternComponent) -> (r: PatternComponent)
    ensures
        r@ == c@,
{
    match c {
        PatternComponent::Text(t) => PatternComponent::Text(t.clone()),
        PatternComponent::Variable(n) => PatternComponent::Variable(n.clone()),
        PatternComponent::Regex(x) => PatternComponent::Regex(x.clone()),
        PatternComponent::NamedRegex { name, regex } => PatternComponent::NamedRegex {
            name: name.clone(),
            regex: regex.clone(),
        },
        PatternComponent::Constant(n) => PatternComponent::Constant(n.clone()),
    }
}

impl TextPattern {
    /// A copy of the pattern.
    pub fn duplicate(&self) -> (r: TextPattern)
        ensures
            r@ == self@,
    {
        let mut v: Vec<PatternComponent> = Vec::new();
        let mut i: usize = 0;
        while i < self.components.len()
            invariant
                i <= self.components@.len(),
                v@.len() == i,
                forall|k: int| 0 <= k < i ==> #[trigger] v@[k]@ == self.components@[k]@,
            decreases self.components@.len() - i,
        {
            v.push(copy_component(&self.components[i]));
            i = i + 1;
        }
        let r = TextPattern { components: v };
        proof {
            assert(r@ =~= self@);
        }
        r
    }

    /// The pattern in its canonical surface syntax.
    pub fn to_string(&self) -> (r: String)
        ensures
            r@ == render(self@),
    {
        let mut s = String::new();
        let mut i: usize = 0;
        while i < self.components.len()
            invariant
                i <= self.components@.len(),
                s@ == render(self@.take(i as int)),
            decreases self.components@.len() - i,
        {
            let ghost before = s@;
            match &self.components[i] {
                PatternComponent::Text(t) => {
                    push_str(&mut s, t.as_str());
                },
                PatternComponent::Variable(n) => {
                    push_str(&mut s, "$$");
                    push_str(&mut s, n.as_str());
                },
                PatternComponent::Regex(x) => {
                    push_str(&mut s, "[[");
                    push_str(&mut s, x.as_str());
                    push_str(&mut s, "]]");
                },
                PatternComponent::NamedRegex { name, regex } => {
                    push_str(&mut s, "[[");
                    push_str(&mut s, name.as_str());
                    push_str(&mut s, ":");
                    push_str(&mut s, regex.as_str());
                    push_str(&mut s, "]]");
                },
                PatternComponent::Constant(n) => {
                    push_str(&mut s, "@");
                    push_str(&mut s, n.as_str());
                },
            }
            proof {
                let c = self@[i as int];
                assert(self@.take(i + 1).drop_last() =~= self@.take(i as int));
                assert(self@.take(i + 1).last() == c);
                assert(s@ =~= before + render_component(c));
            }
            i = i + 1;
        }
        proof {
            assert(self@.take(i as int) =~= self@);
        }
        s
    }
}

/// Why a test failed.
#[derive(Clone, Debug, PartialEq, Eq, PartialOrd, Ord)]
pub enum TestFailReason {
    UnsuccessfulExecution { program_command_line: String, exit_status: i32 },
    CheckFailed(CheckFailureInfo),
}

/// Information about a failed check in a test.
#[derive(Clone, Debug, PartialEq, Eq, PartialOrd, Ord)]
pub struct CheckFailureInfo {
    pub complete_output_text: String,
    pub successfully_checked_until_byte_index: usize,
    pub expected_pattern: TextPattern,
}

/// The outcome of a test.
#[derive(Clone, Debug, PartialEq, Eq, PartialOrd, Ord)]
pub enum TestResultKind {
    /// Test passed successfully.
    Pass,
    /// Test passed but it was declared with `XFAIL`.
    UnexpectedPass,
    /// An error occurred whilst running the test.
    Error { message: String },
    /// The test failed.
    Fail { reason: TestFailReason, hint: Option<String> },
    /// The test was expected to fail and it did.
    ExpectedFailure,
    /// The test was skipped.
    Skip,
}

/// The mathematical value of a failure reason.
pub enum ReasonView {
    UnsuccessfulExecution(Seq<char>, i32),
    CheckFailed(Seq<char>, usize, Seq<ComponentView>),
}

/// The mathematical value of a result.
pub enum ResultView {
    Pass,
    UnexpectedPass,
    Error(Seq<char>),
    Fail(ReasonView, Option<Seq<char>>),
    ExpectedFailure,
    Skip,
}

impl View for TestResultKind {
    type V = ResultView;

    open spec fn view(&self) -> ResultView {
        match self {
            TestResultKind::Pass => ResultView::Pass,
            TestResultKind::UnexpectedPass => ResultView::UnexpectedPass,
            TestResultKind::Error { message } => ResultView::Error(message@),
            TestResultKind::Fail { reason, hint } => ResultView::Fail(
                match reason {
                    TestFailReason::UnsuccessfulExecution {
                        program_command_line,
                        exit_status,
                    } => ReasonView::UnsuccessfulExecution(program_command_line@, *exit_status),
                    TestFailReason::CheckFailed(info) => ReasonView::CheckFailed(
                        info.complete_output_text@,
                        info.successfully_checked_until_byte_index,
                        info.expected_pattern@,
                    ),
                },
                match hint {
                    Some(h) => Some(h@),
                    None => None,
                },
            ),
            TestResultKind::ExpectedFailure => ResultView::ExpectedFailure,
            TestResultKind::Skip => ResultView::Skip,
        }
    }
}

impl TestResultKind {
    /// A copy of the result.
    pub fn duplicate(&self) -> (r: TestResultKind)
        ensures
            r@ == self@,
    {
        match self {
            TestResultKind::Pass => TestResultKind::Pass,
            TestResultKind::UnexpectedPass => TestResultKind::UnexpectedPass,
            TestResultKind::Error { message } => TestResultKind::Error { message: message.clone() },
            TestResultKind::Fail { reason, hint } => {
                let reason = match reason {
                    TestFailReason::UnsuccessfulExecution { program_command_line, exit_status } =>
                    TestFailReason::UnsuccessfulExecution {
                        program_command_line: program_command_line.clone(),
                        exit_status: *exit_status,
                    },
                    TestFailReason::CheckFailed(info) => TestFailReason::CheckFailed(
                        CheckFailureInfo {
                            complete_output_text: info.complete_output_text.clone(),
                            successfully_checked_until_byte_index: info.successfully_checked_until_byte_index,
                            expected_pattern: info.expected_pattern.duplicate(),
                        },
                    ),
                };
                let hint = match hint {
                    Some(h) => Some(h.clone()),
                    None => None,
                };
                TestResultKind::Fail { reason, hint }
            },
            TestResultKind::ExpectedFailure => TestResultKind::ExpectedFailure,
            TestResultKind::Skip => TestResultKind::Skip,
        }
    }
}

/// The command line that a `RUN` directive resolved to.
#[derive(Clone, Debug, PartialEq, Eq, PartialOrd, Ord, Hash)]
pub struct CommandLine(pub String);

/// What a program printed.
#[derive(Clone, Debug, PartialEq, Eq)]
pub struct ProgramOutput {
    pub stdout: String,
    pub stderr: String,
}

/// Results from executing a test file.
#[derive(Clone, Debug)]
pub struct TestResult {
    /// A path to the test.
    pub path: TestFilePath,
    /// The kind of result.
    pub overall_result: TestResultKind,
    pub individual_run_results: Vec<(TestResultKind, Invocation, CommandLine, ProgramOutput)>,
}

/// Results from executing a test suite.
#[derive(Clone, Debug)]
pub struct Results {
    pub test_results: Vec<TestResult>,
}

/// Details about a test suite.
#[derive(Clone, Debug, PartialEq, Eq)]
pub struct TestSuiteDetails {
    /// The number of test files in the suite.
    pub number_of_test_files: usize,
}

impl Command {
    pub fn new(kind: CommandKind, line_number: u32) -> (r: Command)
        ensures
            r.kind == kind,
            r.line_number == line_number,
    {
        Command { kind, line_number }
    }
}

/// Whether a result counts as an error.
pub open spec fn erroneous(k: TestResultKind) -> bool {
    match k {
        TestResultKind::UnexpectedPass | TestResultKind::Error { .. } | TestResultKind::Fail {
            ..
        } => true,
        _ => false,
    }
}

impl TestResultKind {
    /// Checks if the result is considered an error.
    pub fn is_erroneous(&self) -> (r: bool)
        ensures
            r == erroneous(*self),
    {
        match self {
            TestResultKind::UnexpectedPass | TestResultKind::Error { .. } | TestResultKind::Fail {
                ..
            } => true,
            TestResultKind::Pass | TestResultKind::Skip | TestResultKind::ExpectedFailure => false,
        }
    }

    /// Asserts that the result is not an error.
    pub fn unwrap(&self)
        requires
            !erroneous(*self),
    {
    }

    /// The label of this kind of result, in the plural.
    pub fn human_label_pluralized(&self) -> (r: &'static str)
        ensures
            r@ == match *self {
                TestResultKind::Pass => "Passes"@,
                TestResultKind::UnexpectedPass => "Unexpected passes"@,
                TestResultKind::Error { .. } => "Errors"@,
                TestResultKind::Fail { .. } => "Test failures"@,
                TestResultKind::ExpectedFailure => "Expected failures"@,
                TestResultKind::Skip => "Skipped tests"@,
            },
    {
        match self {
            TestResultKind::Pass => "Passes",
            TestResultKind::UnexpectedPass => "Unexpected passes",
            TestResultKind::Error { .. } => "Errors",
            TestResultKind::Fail { .. } => "Test failures",
            TestResultKind::ExpectedFailure => "Expected failures",
            TestResultKind::Skip => "Skipped tests",
        }
    }
}

impl TestFailReason {
    /// A one-line summary of the failure.
    pub fn human_summary(&self) -> (r: &'static str)
        ensures
            r@ == match *self {
                TestFailReason::UnsuccessfulExecution {
                    ..
                } => "unsuccessful program execution whilst running test"@,
                TestFailReason::CheckFailed(..) => "test checked for text that did not exist in the output"@,
            },
    {
        match self {
            TestFailReason::UnsuccessfulExecution {
                ..
            } => "unsuccessful program execution whilst running test",
            TestFailReason::CheckFailed(..) => "test checked for text that did not exist in the output",
        }
    }
}

impl ProgramOutput {
    pub fn empty() -> (r: ProgramOutput)
        ensures
            r.stdout@ == Seq::<char>::empty(),
            r.stderr@ == Seq::<char>::empty(),
    {
        ProgramOutput { stdout: String::new(), stderr: String::new() }
    }
}

/// Whether a command runs a program.
pub open spec fn is_run(c: Command) -> bool {
    c.kind is Run
}

/// The invocations of the `RUN` commands among `cs`, in order.
pub open spec fn run_invocations(cs: Seq<Command>) -> Seq<Seq<char>>
    decreases cs.len(),
{
    if cs.len() == 0 {
        seq![]
    } else {
        let rest = run_invocations(cs.drop_last());
        match cs.last().kind {
            CommandKind::Run(inv) => rest.push(inv.original_command@),
            _ => rest,
        }
    }
}

/// Whether any of the commands is an `XFAIL`.
pub open spec fn has_xfail(cs: Seq<Command>) -> bool {
    exists|i: int| 0 <= i < cs.len() && cs[i].kind is XFail
}

impl TestFile {
    /// Extra test-specific variables: `file`, the test's absolute path.
    pub fn variables(&self) -> (r: Variables)
        ensures
            r@ == Map::<Seq<char>, Seq<char>>::empty().insert("file"@, self.path.absolute@),
    {
        crate::vars::single("file", self.path.absolute.clone())
    }

    /// The invocations of all `RUN` commands in the test file, in order.
    pub fn run_command_invocations(&self) -> (r: Vec<Invocation>)
        ensures
            r@.len() == run_invocations(self.commands@).len(),
            forall|i: int|
                0 <= i < r@.len() ==> #[trigger] r@[i].original_command@ == run_invocations(
                    self.commands@,
                )[i],
    {
        let mut r: Vec<Invocation> = Vec::new();
        let mut i: usize = 0;
        while i < self.commands.len()
            invariant
                i <= self.commands@.len(),
                r@.len() == run_invocations(self.commands@.take(i as int)).len(),
                forall|k: int|
                    0 <= k < r@.len() ==> #[trigger] r@[k].original_command@ == run_invocations(
                        self.commands@.take(i as int),
                    )[k],
            decreases self.commands@.len() - i,
        {
            proof {
                assert(self.commands@.take(i + 1).drop_last() =~= self.commands@.take(i as int));
            }
            match &self.commands[i].kind {
                CommandKind::Run(inv) => {
                    r.push(Invocation { original_command: inv.original_command.clone() });
                },
                _ => {},
            }
            i = i + 1;
        }
        proof {
            assert(self.commands@.take(i as int) =~= self.commands@);
        }
        r
    }

    /// Whether the file is marked `XFAIL`.
    pub fn is_expected_failure(&self) -> (r: bool)
        ensures
            r == has_xfail(self.commands@),
    {
        let mut i: usize = 0;
        while i < self.commands.len()
            invariant
                i <= self.commands@.len(),
                forall|k: int| 0 <= k < i ==> !(self.commands@[k].kind is XFail),
            decreases self.commands@.len() - i,
        {
            if let CommandKind::XFail = self.commands[i].kind {
                return true;
            }
            i = i + 1;
        }
        false
    }
}

impl Results {
    /// The results of the test files, in order.
    pub fn test_results(&self) -> (r: &[TestResult])
        ensures
            r@ == self.test_results@,
    {
        self.test_results.as_slice()
    }

    /// The results of the test files, in order.
    pub fn iter(&self) -> (r: std::slice::Iter<'_, TestResult>) {
        self.test_results.iter()
    }
}

} // verus!
