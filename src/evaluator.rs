//! The state of one `RUN`: the program's output, the position up to which it
//! has been checked, and the live variables; and the checks that advance it.

use vstd::prelude::*;
use crate::config::Config;
use crate::matching::{
    compile, escaped, first_occurrence_from, occurs_at, group_names, opt_view, regex_compiles, regex_group_names, regex_search, search,
};
use crate::model::{
    CheckFailureInfo, ComponentView, render, TestFailReason, TestResultKind, TextPattern,
};
use crate::resolve::{pattern_regex, text_pattern as resolve_pattern};
use crate::text::{
    chars_for_bytes, chars_of, char_width, find_newline, is_white, is_whitespace, lemma_utf8_len_monotone,
    lemma_utf8_len_take_step, newline_pos, push_str, string_from, string_of, utf8_len,
    utf8_len_of_prefix,
};
use crate::vars::Variables;

verus! {

/// How a check ended.
pub enum CheckOutcome {
    /// The pattern matched.
    Passed,
    /// The pattern names a variable that is not bound; the message says which.
    Unresolved(Seq<char>),
    /// The pattern compiles to a regex that the engine refuses.
    InvalidRegex(Seq<char>),
    /// The pattern occurs nowhere in the unchecked output.
    NotFound,
    /// The pattern occurs, but not on the next line.
    NotOnNextLine,
}

/// The first position at or after `k` that is not whitespace, or the end.
pub open spec fn skip_white(out: Seq<char>, k: int) -> int
    decreases out.len() - k,
{
    if 0 <= k < out.len() && is_white(out[k]) {
        skip_white(out, k + 1)
    } else {
        k
    }
}

/// The position just past the newline that ends the line holding `k`, or
/// the end of the output when no newline follows.
pub open spec fn past_line(out: Seq<char>, k: int) -> int {
    if k + newline_pos(out.skip(k)) < out.len() {
        k + newline_pos(out.skip(k)) + 1
    } else {
        out.len() as int
    }
}

/// `vars` with each named group that took part in a match bound to its text.
pub open spec fn bind_groups(
    vars: Map<Seq<char>, Seq<char>>,
    names: Seq<Option<Seq<char>>>,
    groups: Seq<Option<Seq<char>>>,
) -> Map<Seq<char>, Seq<char>>
    decreases names.len(),
{
    if names.len() == 0 {
        vars
    } else {
        let i = names.len() - 1;
        let prev = bind_groups(vars, names.drop_last(), groups);
        if i < groups.len() && names[i] is Some && groups[i] is Some {
            prev.insert(names[i]->Some_0, groups[i]->Some_0)
        } else {
            prev
        }
    }
}

/// The outcome of a check once the search of the unchecked output from
/// `start` has given `m` (character positions relative to `start`), with
/// `names` the group names of the regex: the outcome, the new cursor and the
/// new variables.
pub open spec fn after_match(
    out: Seq<char>,
    cur: int,
    vars: Map<Seq<char>, Seq<char>>,
    next_line: bool,
    start: int,
    m: Option<(nat, nat, Seq<Option<Seq<char>>>)>,
    names: Seq<Option<Seq<char>>>,
) -> (CheckOutcome, int, Map<Seq<char>, Seq<char>>) {
    let rest = out.subrange(start, out.len() as int);
    match m {
        None => (CheckOutcome::NotFound, cur, vars),
        Some((s, e, g)) => if next_line && newline_pos(rest) < rest.len() && s >= newline_pos(
            rest,
        ) {
            (CheckOutcome::NotOnNextLine, cur, vars)
        } else {
            (CheckOutcome::Passed, past_line(out, start + e), bind_groups(vars, names, g))
        },
    }
}

/// The message for a pattern that compiles to an invalid regex.
pub open spec fn invalid_regex_message(src: Seq<char>) -> Seq<char> {
    "the pattern compiles to an invalid regex: '"@ + src + "'"@
}

/// One `CHECK` (or, with `next_line`, `CHECK-NEXT`) of pattern `p` against
/// output `out` checked up to `cur` under `vars`: leading whitespace is
/// passed over, the pattern is compiled and searched for, and on success the
/// cursor moves past the line where the match ends and the named groups
/// become variables.
pub open spec fn check_step(
    out: Seq<char>,
    cur: int,
    vars: Map<Seq<char>, Seq<char>>,
    p: Seq<ComponentView>,
    next_line: bool,
) -> (CheckOutcome, int, Map<Seq<char>, Seq<char>>) {
    match pattern_regex(p, vars) {
        Err(msg) => (CheckOutcome::Unresolved(msg), cur, vars),
        Ok(src) => if !regex_compiles(src) {
            (CheckOutcome::InvalidRegex(invalid_regex_message(src)), cur, vars)
        } else {
            let start = skip_white(out, cur);
            after_match(
                out,
                cur,
                vars,
                next_line,
                start,
                regex_search(src, out.subrange(start, out.len() as int)),
                regex_group_names(src),
            )
        },
    }
}

/// What a check of the literal text `t` yields. When the escaped text is too
/// large a regex for the engine, it is an error. Otherwise it passes exactly
/// when `t` occurs in the unchecked output after leading whitespace (with
/// `next_line`, starting on its first line), and the cursor then moves past
/// the line where that first occurrence ends; else it fails and the cursor
/// stays.
pub open spec fn literal_outcome(
    r: TestResultKind,
    out: Seq<char>,
    cur: int,
    new_cur: int,
    t: Seq<char>,
    next_line: bool,
) -> bool {
    let start = skip_white(out, cur);
    let rest = out.subrange(start, out.len() as int);
    if !regex_compiles(escaped(t)) {
        r matches TestResultKind::Error { message } && message@ == invalid_regex_message(
            escaped(t),
        ) && new_cur == cur
    } else {
        match first_occurrence_from(t, rest, 0) {
        None => r is Fail && new_cur == cur,
        Some(i) => if next_line && newline_pos(rest) < rest.len() && i >= newline_pos(rest) {
            r is Fail && new_cur == cur
        } else {
            r is Pass && new_cur == past_line(out, start + i + t.len())
        },
        }
    }
}

/// The hint given when a `CHECK-NEXT` pattern matches too late.
pub open spec fn next_line_hint(p: Seq<ComponentView>) -> Seq<char> {
    "found a match for '"@ + render(p)
        + "', but it does not appear on the next line, as required by the CHECK-NEXT directive"@
}

/// `info` describes a failure of pattern `p` on output `out` checked up to `cur`.
pub open spec fn describes_failure(
    info: CheckFailureInfo,
    out: Seq<char>,
    cur: int,
    p: Seq<ComponentView>,
) -> bool {
    &&& info.complete_output_text@ == out
    &&& info.successfully_checked_until_byte_index == utf8_len(out.take(cur))
    &&& info.expected_pattern@ == p
}

/// `r` is the result that reports outcome `o`.
pub open spec fn reports(
    r: TestResultKind,
    o: CheckOutcome,
    out: Seq<char>,
    cur: int,
    p: Seq<ComponentView>,
) -> bool {
    match o {
        CheckOutcome::Passed => r is Pass,
        CheckOutcome::Unresolved(m) => r matches TestResultKind::Error { message } && message@ == m,
        CheckOutcome::InvalidRegex(m) => r matches TestResultKind::Error { message } && message@
            == m,
        CheckOutcome::NotFound => r matches TestResultKind::Fail {
            reason: TestFailReason::CheckFailed(info),
            hint: None,
        } && describes_failure(info, out, cur, p),
        CheckOutcome::NotOnNextLine => r matches TestResultKind::Fail {
            reason: TestFailReason::CheckFailed(info),
            hint: Some(h),
        } && describes_failure(info, out, cur, p) && h@ == next_line_hint(p),
    }
}

/// A match found in the unchecked output: the character positions, relative
/// to where the search began, of its start and end, and the text of each
/// capture group.
pub struct MatchPosition {
    pub start: usize,
    pub end: usize,
    pub groups: Vec<Option<String>>,
}

/// The mathematical value of an optional match.
pub open spec fn match_view(m: Option<MatchPosition>) -> Option<(nat, nat, Seq<Option<Seq<char>>>)> {
    match m {
        None => None,
        Some(p) => Some(
            (p.start as nat, p.end as nat, p.groups@.map_values(|g: Option<String>| opt_view(g))),
        ),
    }
}

/// The mathematical value of a list of group names.
pub open spec fn names_view(n: Seq<Option<String>>) -> Seq<Option<Seq<char>>> {
    n.map_values(|g: Option<String>| opt_view(g))
}

/// Responsible for storing the state of execution for a single `RUN` execution.
pub struct TestRunState {
    /// All output characters emitted by the program.
    output: Vec<char>,
    /// The character position up to which the output has been checked.
    position: usize,
    /// The standard error of the program; checks never read it.
    stderr: String,
    /// The variables visible to the checks.
    variables: Variables,
}

impl TestRunState {
    /// The complete output of the program.
    pub closed spec fn output(&self) -> Seq<char> {
        self.output@
    }

    /// The number of characters of output checked so far.
    pub closed spec fn cursor(&self) -> int {
        self.position as int
    }

    /// The variables in scope.
    pub closed spec fn vars(&self) -> Map<Seq<char>, Seq<char>> {
        self.variables@
    }

    /// The standard error of the program.
    pub closed spec fn stderr_text(&self) -> Seq<char> {
        self.stderr@
    }

    /// The cursor lies within the output, whose UTF-8 size fits in memory.
    pub closed spec fn wf(&self) -> bool {
        &&& self.position <= self.output@.len()
        &&& utf8_len(self.output@) <= usize::MAX
    }

    /// The byte offset of the cursor in the UTF-8 encoding of the output.
    pub open spec fn byte_cursor(&self) -> nat {
        utf8_len(self.output().take(self.cursor()))
    }

    pub fn new(initial_variables: Variables) -> (r: TestRunState)
        ensures
            r.wf(),
            r.output() == Seq::<char>::empty(),
            r.cursor() == 0,
            r.vars() == initial_variables@,
            r.stderr_text() == Seq::<char>::empty(),
    {
        TestRunState {
            output: Vec::new(),
            position: 0,
            stderr: String::new(),
            variables: initial_variables,
        }
    }

    /// Appends output from the inner program.
    pub fn append_program_output(&mut self, output: &str)
        requires
            old(self).wf(),
            utf8_len(old(self).output() + output@) <= usize::MAX,
        ensures
            final(self).wf(),
            final(self).output() == old(self).output() + output@,
            final(self).cursor() == old(self).cursor(),
            final(self).vars() == old(self).vars(),
            final(self).stderr_text() == old(self).stderr_text(),
    {
        let v = chars_of(output);
        let mut i: usize = 0;
        while i < v.len()
            invariant
                v@ == output@,
                i <= v@.len(),
                self.output@ == old(self).output@ + output@.take(i as int),
                self.position == old(self).position,
                self.stderr == old(self).stderr,
                self.variables == old(self).variables,
            decreases v@.len() - i,
        {
            self.output.push(v[i]);
            i = i + 1;
            proof {
                assert(self.output@ =~= old(self).output@ + output@.take(i as int));
            }
        }
        proof {
            assert(output@.take(i as int) =~= output@);
        }
    }

    /// Appends stderr output.
    pub fn append_program_stderr(&mut self, stderr: &str)
        requires
            old(self).wf(),
        ensures
            final(self).wf(),
            final(self).stderr_text() == old(self).stderr_text() + stderr@,
            final(self).output() == old(self).output(),
            final(self).cursor() == old(self).cursor(),
            final(self).vars() == old(self).vars(),
    {
        push_str(&mut self.stderr, stderr);
    }

    /// All of the output that no check has consumed yet.
    pub fn unprocessed_output_stream(&self) -> (r: String)
        requires
            self.wf(),
        ensures
            r@ == self.output().skip(self.cursor()),
    {
        let r = string_of(&self.output, self.position, self.output.len());
        proof {
            assert(r@ =~= self.output().skip(self.cursor()));
        }
        r
    }

    /// The UTF-8 bytes of the output that no check has consumed yet.
    pub fn unprocessed_output_bytes(&self) -> (r: Vec<u8>)
        requires
            self.wf(),
        ensures
            r@ == vstd::utf8::encode_utf8(self.output().skip(self.cursor())),
    {
        let s = self.unprocessed_output_stream();
        vstd::slice::slice_to_vec(s.as_str().as_bytes())
    }

    /// Gets all variables in scope.
    pub fn variables(&self) -> (r: &Variables)
        ensures
            r@ == self.vars(),
    {
        &self.variables
    }

    /// The first position at or after `k` that is not whitespace.
    fn skip_whitespace_from(&self, k: usize) -> (r: usize)
        requires
            k <= self.output@.len(),
        ensures
            r == skip_white(self.output@, k as int),
            k <= r <= self.output@.len(),
    {
        let mut j: usize = k;
        while j < self.output.len() && is_whitespace(self.output[j])
            invariant
                k <= j <= self.output@.len(),
                skip_white(self.output@, k as int) == skip_white(self.output@, j as int),
            decreases self.output@.len() - j,
        {
            j = j + 1;
        }
        j
    }

    /// The failure that pattern `p` was not found, with an optional hint.
    fn check_failure(&self, pattern: &TextPattern, hint: Option<String>) -> (r: TestResultKind)
        requires
            self.wf(),
        ensures
            r matches TestResultKind::Fail { reason: TestFailReason::CheckFailed(info), hint: h }
                && describes_failure(info, self.output(), self.cursor(), pattern@) && h == hint,
    {
        proof {
            lemma_utf8_len_monotone(self.output@, self.position as int, self.output@.len() as int);
            assert(self.output@.take(self.output@.len() as int) =~= self.output@);
        }
        let info = CheckFailureInfo {
            complete_output_text: string_of(&self.output, 0, self.output.len()),
            successfully_checked_until_byte_index: utf8_len_of_prefix(&self.output, self.position),
            expected_pattern: pattern.duplicate(),
        };
        proof {
            assert(info.complete_output_text@ =~= self.output@);
        }
        TestResultKind::Fail { reason: TestFailReason::CheckFailed(info), hint }
    }

    /// Completes a check once the unchecked output has been searched from
    /// `start`: `found` is what the search found, in character positions
    /// relative to `start`, and `names` are the group names of the regex.
    pub fn apply_match(
        &mut self,
        pattern: &TextPattern,
        require_on_next_line: bool,
        start: usize,
        found: Option<MatchPosition>,
        names: &Vec<Option<String>>,
    ) -> (r: TestResultKind)
        requires
            old(self).wf(),
            old(self).cursor() <= start <= old(self).output().len(),
            found matches Some(m) ==> m.start <= m.end <= old(self).output().len() - start,
        ensures
            final(self).wf(),
            final(self).output() == old(self).output(),
            final(self).stderr_text() == old(self).stderr_text(),
            ({
                let (o, c, v) = after_match(
                    old(self).output(),
                    old(self).cursor(),
                    old(self).vars(),
                    require_on_next_line,
                    start as int,
                    match_view(found),
                    names_view(names@),
                );
                &&& reports(r, o, old(self).output(), old(self).cursor(), pattern@)
                &&& final(self).cursor() == c
                &&& final(self).vars() == v
            }),
    {
        let ghost out = self.output@;
        let ghost rest = out.subrange(start as int, out.len() as int);
        proof {
            assert(rest =~= out.skip(start as int));
        }
        match found {
            None => self.check_failure(pattern, None),
            Some(m) => {
                let nl = find_newline(&self.output, start);
                if require_on_next_line && nl < self.output.len() && m.start >= nl - start {
                    let mut hint = string_from("found a match for '");
                    let shown = pattern.to_string();
                    push_str(&mut hint, shown.as_str());
                    push_str(
                        &mut hint,
                        "', but it does not appear on the next line, as required by the CHECK-NEXT directive",
                    );
                    return self.check_failure(pattern, Some(hint));
                }
                let ghost gv = m.groups@.map_values(|g: Option<String>| opt_view(g));
                let ghost nv = names_view(names@);
                let ghost vars0 = self.variables@;
                let len = self.output.len();
                let mut i: usize = 0;
                while i < names.len()
                    invariant
                        len == out.len(),
                        start <= out.len(),
                        m.start <= m.end <= out.len() - start,
                        i <= names@.len(),
                        nv == names_view(names@),
                        gv == m.groups@.map_values(|g: Option<String>| opt_view(g)),
                        self.variables@ == bind_groups(vars0, nv.take(i as int), gv),
                        self.output@ == out,
                        self.position == old(self).position,
                        self.stderr == old(self).stderr,
                    decreases names@.len() - i,
                {
                    proof {
                        assert(nv.take(i + 1).drop_last() =~= nv.take(i as int));
                    }
                    if i < m.groups.len() {
                        match (&names[i], &m.groups[i]) {
                            (Some(n), Some(v)) => {
                                self.variables.insert(n.clone(), v.clone());
                            },
                            _ => {},
                        }
                    }
                    i = i + 1;
                }
                proof {
                    assert(nv.take(i as int) =~= nv);
                }
                let e = start + m.end;
                let nl2 = find_newline(&self.output, e);
                if nl2 < self.output.len() {
                    self.position = nl2 + 1;
                } else {
                    self.position = self.output.len();
                }
                TestResultKind::Pass
            },
        }
    }

    /// Verifies that a text pattern appears in the unchecked output; with
    /// `require_on_next_line`, that it appears on the next line.
    fn check_extended(&mut self, pattern: &TextPattern, require_on_next_line: bool) -> (r: TestResultKind)
        requires
            old(self).wf(),
        ensures
            (pattern@.len() == 1 && pattern@[0] is Text) ==> literal_outcome(
                r,
                old(self).output(),
                old(self).cursor(),
                final(self).cursor(),
                pattern@[0]->Text_0,
                require_on_next_line,
            ),
            pattern@.len() == 0 ==> r is Pass && final(self).cursor() == past_line(
                old(self).output(),
                skip_white(old(self).output(), old(self).cursor()),
            ) && final(self).vars() == old(self).vars(),
            final(self).wf(),
            final(self).output() == old(self).output(),
            final(self).stderr_text() == old(self).stderr_text(),
            ({
                let (o, c, v) = check_step(
                    old(self).output(),
                    old(self).cursor(),
                    old(self).vars(),
                    pattern@,
                    require_on_next_line,
                );
                &&& reports(r, o, old(self).output(), old(self).cursor(), pattern@)
                &&& final(self).cursor() == c
                &&& final(self).vars() == v
            }),
    {
        proof {
            if pattern@.len() == 1 && pattern@[0] is Text {
                let t = pattern@[0]->Text_0;
                assert(pattern@.drop_last() =~= Seq::<ComponentView>::empty());
                assert(pattern@.last() == pattern@[0]);
                assert(pattern_regex(Seq::<ComponentView>::empty(), self.variables@) == Ok::<
                    Seq<char>,
                    Seq<char>,
                >(Seq::<char>::empty()));
                assert(Seq::<char>::empty() + escaped(t) =~= escaped(t));
                assert(pattern_regex(pattern@, self.variables@) == Ok::<Seq<char>, Seq<char>>(
                    escaped(t),
                ));
            }
        }
        let src = match resolve_pattern(pattern, &self.variables) {
            Ok(s) => s,
            Err(message) => {
                return TestResultKind::Error { message };
            },
        };
        let re = match compile(src.as_str()) {
            Some(re) => re,
            None => {
                let mut message = string_from("the pattern compiles to an invalid regex: '");
                push_str(&mut message, src.as_str());
                push_str(&mut message, "'");
                return TestResultKind::Error { message };
            },
        };
        let start = self.skip_whitespace_from(self.position);
        let hay = string_of(&self.output, start, self.output.len());
        let found = search(&re, hay.as_str());
        let names = group_names(&re);
        let ghost g = regex_search(src@, hay@);
        let ghost h = self.output@.subrange(start as int, self.output@.len() as int);
        let pos = match found {
            None => None,
            Some(m) => {
                let s = chars_for_bytes(&self.output, start, m.start);
                let e = chars_for_bytes(&self.output, start, m.end);
                proof {
                    let (gs, ge, gg) = g->Some_0;
                    assert(hay@ == h);
                    if s < gs {
                        lemma_utf8_len_monotone(h, s + 1, gs as int);
                        lemma_utf8_len_take_step(h, s as int);
                    }
                    if gs < s {
                        lemma_utf8_len_monotone(h, gs + 1 as int, s as int);
                        lemma_utf8_len_take_step(h, gs as int);
                    }
                    if e < ge {
                        lemma_utf8_len_monotone(h, e + 1, ge as int);
                        lemma_utf8_len_take_step(h, e as int);
                    }
                    if ge < e {
                        lemma_utf8_len_monotone(h, ge + 1 as int, e as int);
                        lemma_utf8_len_take_step(h, ge as int);
                    }
                    assert(s == gs && e == ge);
                    assert(m.groups@.map_values(|x: Option<String>| opt_view(x)) =~= gg);
                }
                Some(MatchPosition { start: s, end: e, groups: m.groups })
            },
        };
        proof {
            assert(names_view(names@) =~= regex_group_names(src@));
            if pattern@.len() == 1 && pattern@[0] is Text {
                let t = pattern@[0]->Text_0;
                assert(src@ == escaped(t));
                if let Some(i) = first_occurrence_from(t, h, 0) {
                    lemma_first_occurrence(t, h, 0);
                    let (gs, ge, gg) = g->Some_0;
                    crate::text::lemma_utf8_len_injective(h, gs as int, i);
                    crate::text::lemma_utf8_len_injective(h, ge as int, i + t.len());
                } else {
                    assert(g is None);
                }
            }
            if pattern@.len() == 0 {
                let nv = names_view(names@);
                assert(nv.len() == 1 && nv[0] is None);
                assert(nv.drop_last() =~= Seq::<Option<Seq<char>>>::empty());
                let (gs0, ge0, gg0) = g->Some_0;
                assert(bind_groups(self.variables@, Seq::<Option<Seq<char>>>::empty(), gg0)
                    == self.variables@);
                assert(bind_groups(self.variables@, nv, gg0) == bind_groups(
                    self.variables@,
                    nv.drop_last(),
                    gg0,
                ));
                lemma_skip_white(self.output@, self.position as int);
                let (gs, ge, gg) = g->Some_0;
                lemma_utf8_len_monotone(h, 0, gs as int);
                lemma_utf8_len_monotone(h, 0, ge as int);
                assert(h.take(0) =~= Seq::<char>::empty());
                assert(gs == 0 && ge == 0);
                if newline_pos(h) == 0 && h.len() > 0 {
                    assert(h[0] == self.output@[start as int]);
                }
            }
        }
        self.apply_match(pattern, require_on_next_line, start, pos, &names)
    }

    /// Verifies that a text pattern appears subsequently in the stream.
    pub fn check(&mut self, pattern: &TextPattern, _config: &Config) -> (r: TestResultKind)
        requires
            old(self).wf(),
        ensures
            (pattern@.len() == 1 && pattern@[0] is Text) ==> literal_outcome(
                r,
                old(self).output(),
                old(self).cursor(),
                final(self).cursor(),
                pattern@[0]->Text_0,
                false,
            ),
            pattern@.len() == 0 ==> r is Pass && final(self).cursor() == past_line(
                old(self).output(),
                skip_white(old(self).output(), old(self).cursor()),
            ) && final(self).vars() == old(self).vars(),
            final(self).wf(),
            final(self).output() == old(self).output(),
            final(self).stderr_text() == old(self).stderr_text(),
            ({
                let (o, c, v) = check_step(
                    old(self).output(),
                    old(self).cursor(),
                    old(self).vars(),
                    pattern@,
                    false,
                );
                &&& reports(r, o, old(self).output(), old(self).cursor(), pattern@)
                &&& final(self).cursor() == c
                &&& final(self).vars() == v
            }),
    {
        self.check_extended(pattern, false)
    }

    /// Verifies that the very next non-whitespace line matches a text pattern.
    pub fn check_next(&mut self, pattern: &TextPattern, _config: &Config) -> (r: TestResultKind)
        requires
            old(self).wf(),
        ensures
            (pattern@.len() == 1 && pattern@[0] is Text) ==> literal_outcome(
                r,
                old(self).output(),
                old(self).cursor(),
                final(self).cursor(),
                pattern@[0]->Text_0,
                true,
            ),
            pattern@.len() == 0 ==> r is Pass && final(self).cursor() == past_line(
                old(self).output(),
                skip_white(old(self).output(), old(self).cursor()),
            ) && final(self).vars() == old(self).vars(),
            final(self).wf(),
            final(self).output() == old(self).output(),
            final(self).stderr_text() == old(self).stderr_text(),
            ({
                let (o, c, v) = check_step(
                    old(self).output(),
                    old(self).cursor(),
                    old(self).vars(),
                    pattern@,
                    true,
                );
                &&& reports(r, o, old(self).output(), old(self).cursor(), pattern@)
                &&& final(self).cursor() == c
                &&& final(self).vars() == v
            }),
    {
        self.check_extended(pattern, true)
    }
}

proof fn lemma_skip_white(out: Seq<char>, k: int)
    requires
        0 <= k <= out.len(),
    ensures
        k <= skip_white(out, k) <= out.len(),
        skip_white(out, k) == out.len() || !is_white(out[skip_white(out, k)]),
    decreases out.len() - k,
{
    if k < out.len() && is_white(out[k]) {
        lemma_skip_white(out, k + 1);
    }
}

proof fn lemma_first_occurrence(t: Seq<char>, h: Seq<char>, k: int)
    requires
        0 <= k,
    ensures
        first_occurrence_from(t, h, k) matches Some(i) ==> k <= i && occurs_at(t, h, i),
    decreases h.len() + 1 - k,
{
    if k + t.len() <= h.len() && !occurs_at(t, h, k) {
        lemma_first_occurrence(t, h, k + 1);
    }
}

proof fn lemma_past_line(out: Seq<char>, k: int)
    requires
        0 <= k,
    ensures
        k <= out.len() ==> k <= past_line(out, k),
        past_line(out, k) <= out.len(),
{
}

/// A check never moves the cursor backwards: a successful one leaves it
/// where it was or further on, within the output, and a failed one leaves it
/// where it was.
pub proof fn law_cursor_monotone(
    out: Seq<char>,
    cur: int,
    vars: Map<Seq<char>, Seq<char>>,
    p: Seq<ComponentView>,
    next_line: bool,
)
    requires
        0 <= cur <= out.len(),
    ensures
        ({
            let (o, c, v) = check_step(out, cur, vars, p, next_line);
            &&& o is Passed ==> cur <= c <= out.len()
            &&& !(o is Passed) ==> c == cur
        }),
{
    lemma_skip_white(out, cur);
    let start = skip_white(out, cur);
    if let Ok(src) = pattern_regex(p, vars) {
        if let Some((s, e, g)) = regex_search(src, out.subrange(start, out.len() as int)) {
            lemma_past_line(out, start + e);
        }
    }
}

/// Where a match of `p` starts, in the unchecked output after leading
/// whitespace, lies before the first newline there, if there is one.
pub open spec fn match_on_first_line(
    out: Seq<char>,
    cur: int,
    vars: Map<Seq<char>, Seq<char>>,
    p: Seq<ComponentView>,
) -> bool {
    match pattern_regex(p, vars) {
        Ok(src) => {
            let start = skip_white(out, cur);
            let rest = out.subrange(start, out.len() as int);
            match regex_search(src, rest) {
                Some((s, e, g)) => !(newline_pos(rest) < rest.len()) || s < newline_pos(rest),
                None => false,
            }
        },
        Err(_) => false,
    }
}

/// `CHECK-NEXT` of a pattern passes exactly when `CHECK` of it would and the
/// match starts before the first newline of the unchecked output; when it
/// passes, it leaves the same cursor and variables as `CHECK` would.
pub proof fn law_line_locality(
    out: Seq<char>,
    cur: int,
    vars: Map<Seq<char>, Seq<char>>,
    p: Seq<ComponentView>,
)
    ensures
        check_step(out, cur, vars, p, true).0 is Passed <==> (check_step(
            out,
            cur,
            vars,
            p,
            false,
        ).0 is Passed && match_on_first_line(out, cur, vars, p)),
        check_step(out, cur, vars, p, true).0 is Passed ==> check_step(out, cur, vars, p, true)
            == check_step(out, cur, vars, p, false),
{
}

/// Once `x` is bound to `v`, checking `$$x` behaves exactly as checking the
/// literal text `v`: it passes or fails alike and leaves the same cursor and
/// variables.
pub proof fn law_capture_visibility(
    out: Seq<char>,
    cur: int,
    vars: Map<Seq<char>, Seq<char>>,
    x: Seq<char>,
    next_line: bool,
)
    requires
        vars.contains_key(x),
    ensures
        check_step(out, cur, vars, seq![ComponentView::Variable(x)], next_line) == check_step(
            out,
            cur,
            vars,
            seq![ComponentView::Text(vars[x])],
            next_line,
        ),
{
    assert(seq![ComponentView::Variable(x)].drop_last() =~= Seq::<ComponentView>::empty());
    assert(seq![ComponentView::Text(vars[x])].drop_last() =~= Seq::<ComponentView>::empty());
    assert(Seq::<char>::empty() + escaped(vars[x]) =~= escaped(vars[x]));
}

/// A named group that took part in a match binds its name to its text,
/// unless a later group of the same name took part too.
pub proof fn law_capture_binds(
    vars: Map<Seq<char>, Seq<char>>,
    names: Seq<Option<Seq<char>>>,
    groups: Seq<Option<Seq<char>>>,
    i: int,
    x: Seq<char>,
    v: Seq<char>,
)
    requires
        0 <= i < names.len(),
        i < groups.len(),
        names[i] == Some(x),
        groups[i] == Some(v),
        forall|j: int|
            i < j < names.len() && j < groups.len() && names[j] == Some(x) ==> groups[j] is None,
    ensures
        bind_groups(vars, names, groups).contains_key(x),
        bind_groups(vars, names, groups)[x] == v,
    decreases names.len(),
{
    if i < names.len() - 1 {
        law_capture_binds(vars, names.drop_last(), groups, i, x, v);
    }
}

impl TestRunState {
    /// The UTF-8 position of the cursor is a character boundary of the
    /// encoded output.
    pub proof fn law_cursor_on_char_boundary(&self)
        requires
            self.wf(),
        ensures
            vstd::utf8::is_char_boundary(vstd::utf8::encode_utf8(self.output()), self.byte_cursor() as int),
    {
        crate::text::lemma_boundary(self.output(), self.cursor());
    }
}

} // verus!

