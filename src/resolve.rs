//! Substitution of variables and constants into patterns and command lines.

use vstd::prelude::*;
use crate::matching::{escape, escaped};
use crate::model::{ComponentView, Invocation, PatternComponent, TextPattern};
use crate::text::{chars_of, push_str, string_from, string_of};
use crate::vars::Variables;

verus! {

/// The message for a name that no variable or constant binds.
pub open spec fn undefined_message(name: Seq<char>) -> Seq<char> {
    "no variable or constant named '"@ + name + "' is defined"@
}

/// The regex for one component under `vars`, or the message for an unbound
/// name.
pub open spec fn component_regex(c: ComponentView, vars: Map<Seq<char>, Seq<char>>) -> Result<
    Seq<char>,
    Seq<char>,
> {
    match c {
        ComponentView::Text(t) => Ok(escaped(t)),
        ComponentView::Variable(n) => if vars.contains_key(n) {
            Ok(escaped(vars[n]))
        } else {
            Err(undefined_message(n))
        },
        ComponentView::Constant(n) => if vars.contains_key(n) {
            Ok(escaped(vars[n]))
        } else {
            Err(undefined_message(n))
        },
        ComponentView::Regex(r) => Ok(r),
        ComponentView::NamedRegex(n, r) => Ok("(?P<"@ + n + ">"@ + r + ")"@),
    }
}

/// The regex that a pattern compiles to under `vars`: the regexes of its
/// components in order; the first unbound name stops it.
pub open spec fn pattern_regex(cs: Seq<ComponentView>, vars: Map<Seq<char>, Seq<char>>) -> Result<
    Seq<char>,
    Seq<char>,
>
    decreases cs.len(),
{
    if cs.len() == 0 {
        Ok(seq![])
    } else {
        match pattern_regex(cs.drop_last(), vars) {
            Err(e) => Err(e),
            Ok(pre) => match component_regex(cs.last(), vars) {
                Ok(x) => Ok(pre + x),
                Err(e) => Err(e),
            },
        }
    }
}

fn undefined(name: &str) -> (r: String)
    ensures
        r@ == undefined_message(name@),
{
    let mut m = string_from("no variable or constant named '");
    push_str(&mut m, name);
    push_str(&mut m, "' is defined");
    m
}

/// The regex, as text, that a pattern stands for: literal text and the values
/// of variables and constants escaped, regexes as written, and named regexes
/// as named groups.
pub fn text_pattern(pattern: &TextPattern, variables: &Variables) -> (r: Result<String, String>)
    ensures
        match pattern_regex(pattern@, variables@) {
            Ok(x) => r matches Ok(s) && s@ == x,
            Err(m) => r matches Err(e) && e@ == m,
        },
{
    let mut out = String::new();
    let mut i: usize = 0;
    while i < pattern.components.len()
        invariant
            i <= pattern.components@.len(),
            pattern_regex(pattern@.take(i as int), variables@) == Ok::<Seq<char>, Seq<char>>(
                out@,
            ),
        decreases pattern.components@.len() - i,
    {
        let ghost before = out@;
        proof {
            assert(pattern@.take(i + 1).drop_last() =~= pattern@.take(i as int));
            assert(pattern@.take(i + 1).last() == pattern.components@[i as int]@);
        }
        match &pattern.components[i] {
            PatternComponent::Text(t) => {
                let e = escape(t.as_str());
                push_str(&mut out, e.as_str());
            },
            PatternComponent::Variable(n) => {
                match variables.get(n.as_str()) {
                    Some(v) => {
                        let e = escape(v.as_str());
                        push_str(&mut out, e.as_str());
                    },
                    None => {
                        proof {
                            lemma_pattern_regex_err_prefix(pattern@, (i + 1) as int, variables@);
                        }
                        return Err(undefined(n.as_str()));
                    },
                }
            },
            PatternComponent::Constant(n) => {
                match variables.get(n.as_str()) {
                    Some(v) => {
                        let e = escape(v.as_str());
                        push_str(&mut out, e.as_str());
                    },
                    None => {
                        proof {
                            lemma_pattern_regex_err_prefix(pattern@, (i + 1) as int, variables@);
                        }
                        return Err(undefined(n.as_str()));
                    },
                }
            },
            PatternComponent::Regex(x) => {
                push_str(&mut out, x.as_str());
            },
            PatternComponent::NamedRegex { name, regex } => {
                push_str(&mut out, "(?P<");
                push_str(&mut out, name.as_str());
                push_str(&mut out, ">");
                push_str(&mut out, regex.as_str());
                push_str(&mut out, ")");
                proof {
                    assert(out@ =~= before + ("(?P<"@ + name@ + ">"@ + regex@ + ")"@));
                }
            },
        }
        i = i + 1;
    }
    proof {
        assert(pattern@.take(i as int) =~= pattern@);
    }
    Ok(out)
}

/// Once a prefix of a pattern fails to resolve, so does the whole pattern,
/// with the same message.
proof fn lemma_pattern_regex_err_prefix(cs: Seq<ComponentView>, k: int, vars: Map<Seq<char>, Seq<char>>)
    requires
        0 <= k <= cs.len(),
        pattern_regex(cs.take(k), vars) is Err,
    ensures
        pattern_regex(cs, vars) == pattern_regex(cs.take(k), vars),
    decreases cs.len() - k,
{
    if k < cs.len() {
        assert(cs.take(k + 1).drop_last() =~= cs.take(k));
        lemma_pattern_regex_err_prefix(cs, k + 1, vars);
    } else {
        assert(cs.take(k) =~= cs);
    }
}

// ---------------------------------------------------------------------------
// Command lines
// ---------------------------------------------------------------------------

/// `[A-Za-z_]`: a character of a constant's name on a command line.
pub open spec fn is_name_char(c: char) -> bool {
    ('a' <= c && c <= 'z') || ('A' <= c && c <= 'Z') || c == '_'
}

/// The length of the run of name characters at `i`.
pub open spec fn name_run(s: Seq<char>, i: int) -> nat
    decreases s.len() - i,
{
    if 0 <= i < s.len() && is_name_char(s[i]) {
        1 + name_run(s, i + 1)
    } else {
        0
    }
}

/// `s` from position `i` on, with each `@name` replaced by the value bound to
/// `name`; the first unbound name stops it.
pub open spec fn command_from(s: Seq<char>, i: int, vars: Map<Seq<char>, Seq<char>>) -> Result<
    Seq<char>,
    Seq<char>,
>
    decreases s.len() - i,
{
    if i < 0 || i >= s.len() {
        Ok(seq![])
    } else if s[i] == '@' && name_run(s, i + 1) > 0 {
        let n = name_run(s, i + 1);
        let name = s.subrange(i + 1, i + 1 + n);
        if !vars.contains_key(name) {
            Err(undefined_message(name))
        } else {
            match command_from(s, if i + 1 + n <= s.len() { i + 1 + n } else { s.len() as int }, vars) {
                Ok(rest) => Ok(vars[name] + rest),
                Err(e) => Err(e),
            }
        }
    } else {
        match command_from(s, i + 1, vars) {
            Ok(rest) => Ok(seq![s[i]] + rest),
            Err(e) => Err(e),
        }
    }
}

/// `done` followed by the outcome `rest`.
pub open spec fn then_text(done: Seq<char>, rest: Result<Seq<char>, Seq<char>>) -> Result<
    Seq<char>,
    Seq<char>,
> {
    match rest {
        Ok(x) => Ok(done + x),
        Err(e) => Err(e),
    }
}

fn is_name_character(c: char) -> (r: bool)
    ensures
        r == is_name_char(c),
{
    ('a' <= c && c <= 'z') || ('A' <= c && c <= 'Z') || c == '_'
}

fn name_run_len(v: &Vec<char>, i: usize) -> (r: usize)
    requires
        i <= v@.len(),
    ensures
        r == name_run(v@, i as int),
        i + r <= v@.len(),
{
    let mut j: usize = i;
    while j < v.len() && is_name_character(v[j])
        invariant
            i <= j <= v@.len(),
            name_run(v@, i as int) == (j - i) + name_run(v@, j as int),
        decreases v@.len() - j,
    {
        j = j + 1;
    }
    j - i
}

/// The command line of an invocation: each `@name` replaced by the value that
/// `variables` binds to `name`, unescaped.
pub fn invocation(inv: &Invocation, variables: &Variables) -> (r: Result<String, String>)
    ensures
        match command_from(inv.original_command@, 0, variables@) {
            Ok(x) => r matches Ok(s) && s@ == x,
            Err(m) => r matches Err(e) && e@ == m,
        },
{
    let v = chars_of(inv.original_command.as_str());
    let ghost s = v@;
    let mut out = String::new();
    let mut i: usize = 0;
    proof {
        assert(then_text(seq![], command_from(s, 0, variables@)) =~= command_from(
            s,
            0,
            variables@,
        ));
    }
    while i < v.len()
        invariant
            v@ == s,
            s == inv.original_command@,
            i <= v@.len(),
            command_from(s, 0, variables@) == then_text(out@, command_from(s, i as int, variables@)),
        decreases v@.len() - i,
    {
        let ghost before = out@;
        if v[i] == '@' && name_run_len(&v, i + 1) > 0 {
            let n = name_run_len(&v, i + 1);
            let name = string_of(&v, i + 1, i + 1 + n);
            match variables.get(name.as_str()) {
                Some(value) => {
                    push_str(&mut out, value.as_str());
                    i = i + 1 + n;
                    proof {
                        let rest = command_from(s, i as int, variables@);
                        if rest is Ok {
                            assert(before + (value@ + rest->Ok_0) =~= out@ + rest->Ok_0);
                        }
                    }
                },
                None => {
                    return Err(undefined(name.as_str()));
                },
            }
        } else {
            out.push(v[i]);
            i = i + 1;
            proof {
                let rest = command_from(s, i as int, variables@);
                if rest is Ok {
                    assert(before + (seq![v@[i - 1]] + rest->Ok_0) =~= out@ + rest->Ok_0);
                }
            }
        }
    }
    proof {
        assert(out@ + seq![] =~= out@);
    }
    Ok(out)
}

impl Invocation {
    /// Parses a tool invocation from the words of its command line.
    pub fn parse(words: &Vec<&str>) -> (r: Result<Invocation, String>)
        ensures
            r matches Ok(inv) && inv.original_command@ == crate::parse::join_words(
                words@.map_values(|w: &str| w@),
            ),
    {
        crate::parse::invocation(words)
    }

    /// The command line of this invocation under the given constants.
    pub fn resolve(&self, constants: &Variables) -> (r: Result<String, String>)
        ensures
            match command_from(self.original_command@, 0, constants@) {
                Ok(x) => r matches Ok(s) && s@ == x,
                Err(m) => r matches Err(e) && e@ == m,
            },
    {
        invocation(self, constants)
    }
}

} // verus!
