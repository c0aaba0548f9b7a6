//! The regular-expression engine that checks run on, reached through the
//! `regex` crate.

use vstd::prelude::*;
use regex::Regex;
use crate::text::utf8_len;

verus! {

#[verifier::external_type_specification]
#[verifier::external_body]
pub struct ExRegex(Regex);

/// Whether `regex::Regex::new` accepts a pattern.
pub uninterp spec fn regex_compiles(pattern: Seq<char>) -> bool;

/// The first match that `regex::Regex::captures` finds of a pattern in a
/// haystack: the character positions where it starts and ends, and the text
/// of each capture group (group 0 being the whole match), `None` for a group
/// that took no part.
pub uninterp spec fn regex_search(pattern: Seq<char>, haystack: Seq<char>) -> Option<
    (nat, nat, Seq<Option<Seq<char>>>),
>;

/// The names of the capture groups of a pattern, in order, as
/// `regex::Regex::capture_names` gives them; `None` for an unnamed group.
pub uninterp spec fn regex_group_names(pattern: Seq<char>) -> Seq<Option<Seq<char>>>;

/// A character that `regex::escape` puts a backslash in front of.
pub open spec fn is_meta(c: char) -> bool {
    c == '\\' || c == '.' || c == '+' || c == '*' || c == '?' || c == '(' || c == ')' || c == '|'
        || c == '[' || c == ']' || c == '{' || c == '}' || c == '^' || c == '$' || c == '#' || c
        == '&' || c == '-' || c == '~'
}

/// `s` with a backslash in front of each meta character.
pub open spec fn escaped(s: Seq<char>) -> Seq<char>
    decreases s.len(),
{
    if s.len() == 0 {
        seq![]
    } else if is_meta(s[0]) {
        seq!['\\', s[0]] + escaped(s.drop_first())
    } else {
        seq![s[0]] + escaped(s.drop_first())
    }
}

/// `s` with the backslash of each escaped character removed.
pub open spec fn unescaped(s: Seq<char>) -> Seq<char>
    decreases s.len(),
{
    if s.len() == 0 {
        seq![]
    } else if s[0] == '\\' && s.len() >= 2 {
        seq![s[1]] + unescaped(s.skip(2))
    } else {
        seq![s[0]] + unescaped(s.drop_first())
    }
}

/// Escaping loses nothing: removing the backslashes from the escaped text
/// gives the text back, so two texts never escape alike.
pub proof fn lemma_escape_faithful(t: Seq<char>)
    ensures
        unescaped(escaped(t)) == t,
    decreases t.len(),
{
    if t.len() > 0 {
        lemma_escape_faithful(t.drop_first());
        let e = escaped(t);
        if is_meta(t[0]) {
            assert(e.skip(2) =~= escaped(t.drop_first()));
        } else {
            assert(e.drop_first() =~= escaped(t.drop_first()));
        }
        assert(t =~= seq![t[0]] + t.drop_first());
    }
}

/// The view of an optional string.
pub open spec fn opt_view(o: Option<String>) -> Option<Seq<char>> {
    match o {
        Some(s) => Some(s@),
        None => None,
    }
}

/// `r`, a match as byte offsets with its groups as strings, is the match `m`
/// in `haystack`, which counts characters.
pub(crate) open spec fn reports_match(
    r: Option<RegexMatch>,
    m: Option<(nat, nat, Seq<Option<Seq<char>>>)>,
    haystack: Seq<char>,
) -> bool {
    match (r, m) {
        (None, None) => true,
        (Some(found), Some((s, t, g))) => {
            &&& s <= t <= haystack.len()
            &&& found.start == utf8_len(haystack.take(s as int))
            &&& found.end == utf8_len(haystack.take(t as int))
            &&& found.groups@.len() == g.len()
            &&& forall|i: int| 0 <= i < g.len() ==> opt_view(#[trigger] found.groups@[i]) == g[i]
        },
        _ => false,
    }
}

/// `t` occurs in `h` at position `i`.
pub open spec fn occurs_at(t: Seq<char>, h: Seq<char>, i: int) -> bool {
    0 <= i && i + t.len() <= h.len() && h.subrange(i, i + t.len()) == t
}

/// The first position at or after `i` where `t` occurs in `h`.
pub open spec fn first_occurrence_from(t: Seq<char>, h: Seq<char>, i: int) -> Option<int>
    decreases h.len() + 1 - i,
{
    if i < 0 || i + t.len() > h.len() {
        None
    } else if occurs_at(t, h, i) {
        Some(i)
    } else {
        first_occurrence_from(t, h, i + 1)
    }
}

/// `r` is the first occurrence of the literal `lit` in `h`, in byte offsets,
/// or nothing when `lit` does not occur.
pub(crate) open spec fn finds_literal(r: Option<RegexMatch>, lit: Seq<char>, h: Seq<char>) -> bool {
    match first_occurrence_from(lit, h, 0) {
        None => r is None,
        Some(i) => r matches Some(m) && m.start == utf8_len(h.take(i)) && m.end == utf8_len(
            h.take(i + lit.len()),
        ),
    }
}

/// `r` is an empty match at the very start.
pub(crate) open spec fn starts_empty(r: Option<RegexMatch>) -> bool {
    r matches Some(m) && m.start == 0 && m.end == 0
}

/// A match: byte offsets of its start and end, and the text of each group.
pub(crate) struct RegexMatch {
    pub start: usize,
    pub end: usize,
    pub groups: Vec<Option<String>>,
}

/// Relies on `regex::escape`: a backslash goes in front of each meta character.
#[verifier::external_body]
pub(crate) fn escape(text: &str) -> (r: String)
    ensures
        r@ == escaped(text@),
{
    regex::escape(text)
}

/// A regular expression together with the pattern it was compiled from.
/// Only `compile` builds one, so `regex` is always what `source` compiles to.
pub(crate) struct CompiledRegex {
    source: String,
    regex: Regex,
}

impl CompiledRegex {
    /// The pattern the regex was compiled from.
    pub(crate) closed spec fn source(&self) -> Seq<char> {
        self.source@
    }
}

/// Relies on `regex::Regex::new`: it accepts a pattern or not, by the pattern
/// alone, and accepts the empty pattern.
#[verifier::external_body]
pub(crate) fn compile(pattern: &str) -> (r: Option<CompiledRegex>)
    ensures
        r is Some == regex_compiles(pattern@),
        pattern@.len() == 0 ==> r is Some,
        r matches Some(c) ==> c.source() == pattern@,
{
    match Regex::new(pattern) {
        Ok(regex) => Some(CompiledRegex { source: pattern.to_string(), regex }),
        Err(_) => None,
    }
}

/// Relies on `regex::Regex::captures`: the leftmost-first match and its capture
/// groups. Its byte offsets lie on character boundaries; the empty pattern
/// matches the empty string at the start; a pattern made by `regex::escape`
/// matches its text literally, so it finds that text's first occurrence.
#[verifier::external_body]
pub(crate) fn search(re: &CompiledRegex, haystack: &str) -> (r: Option<RegexMatch>)
    ensures
        reports_match(r, regex_search(re.source(), haystack@), haystack@),
        re.source().len() == 0 ==> starts_empty(r),
        forall|lit: Seq<char>|
            re.source() == #[trigger] escaped(lit) ==> finds_literal(r, lit, haystack@),
{
    re.regex.captures(haystack).map(
        |c| {
            let m = c.get_match();
            RegexMatch {
                start: m.start(),
                end: m.end(),
                groups: c.iter().map(|g| g.map(|x| x.as_str().to_string())).collect(),
            }
        },
    )
}

/// Relies on `regex::Regex::capture_names`: the name of each group, in order.
/// The first group, the whole match, is always unnamed; the empty pattern has
/// no other group.
#[verifier::external_body]
pub(crate) fn group_names(re: &CompiledRegex) -> (r: Vec<Option<String>>)
    ensures
        r@.len() >= 1 && r@[0] is None,
        re.source().len() == 0 ==> r@.len() == 1,
        r@.len() == regex_group_names(re.source()).len(),
        forall|i: int|
            0 <= i < r@.len() ==> opt_view(#[trigger] r@[i]) == regex_group_names(re.source())[i],
{
    re.regex.capture_names().map(|n| n.map(|s| s.to_string())).collect()
}

} // verus!
