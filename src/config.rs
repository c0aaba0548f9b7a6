//! The configuration of the test runner.

use vstd::prelude::*;
use crate::text::{
    chars_of, push_str, str_eq, string_from, string_of, trim, trim_bounds, utf8_len, utf8_len_fits,
    utf8_len_of_prefix,
};
use crate::vars::Variables;

verus! {

/// The number of output lines shown around a failure unless told otherwise.
pub const DEFAULT_MAX_OUTPUT_CONTEXT_LINE_COUNT: usize = 10;

/// The configuration of the test runner.
#[derive(Clone, Debug)]
pub struct Config {
    /// A list of file extensions which contain tests.
    pub supported_file_extensions: Vec<String>,
    /// Paths to tests or folders containing tests.
    pub test_paths: Vec<String>,
    /// Constants that tests may refer to, as `@name`.
    pub constants: Variables,
    /// The shell that runs the `RUN` commands.
    pub shell: String,
    /// Environment variables given to each program.
    pub env_variables: Variables,
    /// Directories put in front of `PATH` for each program.
    pub extra_executable_search_paths: Vec<String>,
    /// Whether files named by `tempfile` variables are removed after a test.
    pub cleanup_temporary_files: bool,
    /// How many lines of output to show around a failure, if limited.
    pub truncate_output_context_to_number_of_lines: Option<usize>,
    /// Whether the standard error of programs is always shown.
    pub always_show_stderr: bool,
    /// Whether each variable resolution is reported.
    pub dump_variable_resolution: bool,
    /// Where the outputs of a run are saved, if anywhere.
    pub save_artifacts_to_directory: Option<String>,
}

impl Default for Config {
    fn default() -> (r: Config)
        ensures
            r.supported_file_extensions@.len() == 0,
            r.test_paths@.len() == 0,
            r.constants@ == Map::<Seq<char>, Seq<char>>::empty(),
            r.shell@ == "bash"@,
            r.env_variables@ == Map::<Seq<char>, Seq<char>>::empty(),
            r.extra_executable_search_paths@.len() == 0,
            r.cleanup_temporary_files,
            r.truncate_output_context_to_number_of_lines == Some(
                DEFAULT_MAX_OUTPUT_CONTEXT_LINE_COUNT,
            ),
            !r.always_show_stderr,
            !r.dump_variable_resolution,
            r.save_artifacts_to_directory is None,
    {
        Config {
            supported_file_extensions: Vec::new(),
            test_paths: Vec::new(),
            constants: Variables::new(),
            shell: string_from("bash"),
            env_variables: Variables::new(),
            extra_executable_search_paths: Vec::new(),
            cleanup_temporary_files: true,
            truncate_output_context_to_number_of_lines: Some(DEFAULT_MAX_OUTPUT_CONTEXT_LINE_COUNT),
            always_show_stderr: false,
            dump_variable_resolution: false,
            save_artifacts_to_directory: None,
        }
    }
}

impl Config {
    /// Marks a file extension as supported by the runner.
    ///
    /// We only attempt to run tests for files within the extension
    /// whitelist.
    pub fn add_extension(&mut self, ext: &str)
        ensures
            final(self).supported_file_extensions@.len() == old(self).supported_file_extensions@.len()
                + 1,
            final(self).supported_file_extensions@.last()@ == ext@,
            forall|i: int|
                0 <= i < old(self).supported_file_extensions@.len() ==> #[trigger] final(self).supported_file_extensions@[i]
                    == old(self).supported_file_extensions@[i],
            final(self).test_paths == old(self).test_paths,
    {
        self.supported_file_extensions.push(string_from(ext));
    }

    /// Adds a search path to the test runner.
    ///
    /// We will recurse through the path to find tests.
    pub fn add_search_path(&mut self, path: &str)
        ensures
            final(self).test_paths@.len() == old(self).test_paths@.len() + 1,
            final(self).test_paths@.last()@ == path@,
            forall|i: int|
                0 <= i < old(self).test_paths@.len() ==> #[trigger] final(self).test_paths@[i]
                    == old(self).test_paths@[i],
            final(self).supported_file_extensions == old(self).supported_file_extensions,
    {
        self.test_paths.push(string_from(path));
    }

    /// Checks if a given extension will have tests run on it.
    pub fn is_extension_supported(&self, extension: &str) -> (r: bool)
        ensures
            r == exists|i: int|
                0 <= i < self.supported_file_extensions@.len()
                    && #[trigger] self.supported_file_extensions@[i]@ == extension@,
    {
        let mut i: usize = 0;
        while i < self.supported_file_extensions.len()
            invariant
                i <= self.supported_file_extensions@.len(),
                forall|k: int|
                    0 <= k < i ==> #[trigger] self.supported_file_extensions@[k]@ != extension@,
            decreases self.supported_file_extensions@.len() - i,
        {
            if str_eq(self.supported_file_extensions[i].as_str(), extension) {
                return true;
            }
            i = i + 1;
        }
        false
    }
}

/// The number of times `c` occurs in `s`.
pub open spec fn occurrences(s: Seq<char>, c: char) -> nat
    decreases s.len(),
{
    if s.len() == 0 {
        0
    } else {
        occurrences(s.drop_last(), c) + if s.last() == c {
            1nat
        } else {
            0nat
        }
    }
}

/// The position of the first `=` in `s`, or its length.
pub open spec fn equals_pos(s: Seq<char>) -> nat
    decreases s.len(),
{
    if s.len() == 0 {
        0
    } else if s[0] == '=' {
        0
    } else {
        1 + equals_pos(s.drop_first())
    }
}

/// What `NAME=VALUE` defines: the name and the value, each trimmed, or why
/// it defines nothing.
pub open spec fn constant_definition(s: Seq<char>) -> Result<(Seq<char>, Seq<char>), Seq<char>> {
    if occurrences(s, '=') != 1 {
        Err("constant definition must have exactly one equals sign but got '"@ + s + "'"@)
    } else if utf8_len(s) < 3 {
        Err("constant definitions must include both a <NAME> and a <VALUE>, separated by equals"@)
    } else {
        let e = equals_pos(s) as int;
        Ok((trim(s.take(e)), trim(s.skip(e + 1))))
    }
}

proof fn lemma_equals_pos(s: Seq<char>, k: int)
    requires
        0 <= k <= s.len(),
        forall|j: int| 0 <= j < k ==> s[j] != '=',
        k == s.len() || s[k] == '=',
    ensures
        equals_pos(s) == k,
    decreases k,
{
    if k > 0 {
        lemma_equals_pos(s.drop_first(), k - 1);
    }
}

/// Parses a constant definition, `NAME=VALUE`.
pub fn parse_constant_definition(s: &str) -> (r: Result<(String, String), String>)
    ensures
        match constant_definition(s@) {
            Ok((n, v)) => r matches Ok(p) && p.0@ == n && p.1@ == v,
            Err(m) => r matches Err(e) && e@ == m,
        },
{
    let v = chars_of(s);
    let mut count: usize = 0;
    let mut first: usize = v.len();
    let mut i: usize = 0;
    while i < v.len()
        invariant
            v@ == s@,
            i <= v@.len(),
            count <= i,
            count == occurrences(v@.take(i as int), '='),
            first <= v@.len(),
            (count > 0) == (first < v@.len()),
            first == v@.len() ==> forall|j: int| 0 <= j < i ==> v@[j] != '=',
            first < v@.len() ==> first < i && v@[first as int] == '=' && forall|j: int|
                0 <= j < first ==> v@[j] != '=',
        decreases v@.len() - i,
    {
        proof {
            assert(v@.take(i + 1).drop_last() =~= v@.take(i as int));
        }
        if v[i] == '=' {
            count = count + 1;
            if first == v.len() {
                first = i;
            }
        }
        i = i + 1;
    }
    proof {
        assert(v@.take(i as int) =~= v@);
    }
    if count != 1 {
        let mut m = string_from("constant definition must have exactly one equals sign but got '");
        push_str(&mut m, s);
        push_str(&mut m, "'");
        return Err(m);
    }
    let fits = utf8_len_fits(&v);
    let size = if fits {
        proof {
            assert(v@.take(v@.len() as int) =~= v@);
        }
        utf8_len_of_prefix(&v, v.len())
    } else {
        usize::MAX
    };
    if size < 3 {
        proof {
            assert(v@.take(v@.len() as int) =~= v@);
        }
        return Err(string_from("constant definitions must include both a <NAME> and a <VALUE>, separated by equals"));
    }
    proof {
        assert(v@.take(v@.len() as int) =~= v@);
        if first == v@.len() {
            assert(forall|j: int| 0 <= j < v@.len() ==> v@[j] != '=');
            lemma_no_equals(v@);
        }
        lemma_equals_pos(v@, first as int);
    }
    let (nb, ne) = trim_bounds(&v, 0, first);
    let (vb, ve) = trim_bounds(&v, first + 1, v.len());
    let name = string_of(&v, nb, ne);
    let value = string_of(&v, vb, ve);
    proof {
        assert(v@.subrange(0, first as int) =~= v@.take(first as int));
        assert(v@.subrange(first + 1, v@.len() as int) =~= v@.skip(first + 1));
    }
    Ok((name, value))
}

proof fn lemma_no_equals(s: Seq<char>)
    requires
        forall|j: int| 0 <= j < s.len() ==> s[j] != '=',
    ensures
        occurrences(s, '=') == 0,
    decreases s.len(),
{
    if s.len() > 0 {
        lemma_no_equals(s.drop_last());
    }
}

} // verus!

