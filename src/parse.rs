//! Parsing of test files: directive lines and the text patterns of checks.

use vstd::prelude::*;
use crate::model::{
    Command, CommandKind, CommandView, ComponentView, Invocation, KindView, PatternComponent,
    TestFile, TestFilePath, TextPattern, render, render_component,
};
use crate::text::{
    ascii_alnum, chars_of, is_ascii_alnum, lines, lines_of, push_str, string_from, string_of, trim,
    trim_bounds,
};

verus! {

// ---------------------------------------------------------------------------
// Text patterns
// ---------------------------------------------------------------------------

/// The length of the run of `[A-Za-z0-9]` that starts at `i`.
pub open spec fn alnum_run(s: Seq<char>, i: int) -> nat
    decreases s.len() - i,
{
    if 0 <= i < s.len() && is_ascii_alnum(s[i]) {
        1 + alnum_run(s, i + 1)
    } else {
        0
    }
}

/// `$$name` starts at `i`.
pub open spec fn variable_at(s: Seq<char>, i: int) -> bool {
    0 <= i && i + 1 < s.len() && s[i] == '$' && s[i + 1] == '$' && alnum_run(s, i + 2) > 0
}

/// `[[` starts at `i`.
pub open spec fn regex_at(s: Seq<char>, i: int) -> bool {
    0 <= i && i + 1 < s.len() && s[i] == '[' && s[i + 1] == '['
}

/// `@name` starts at `i`.
pub open spec fn constant_at(s: Seq<char>, i: int) -> bool {
    0 <= i < s.len() && s[i] == '@' && alnum_run(s, i + 1) > 0
}

/// The bracket depth after reading `c` at depth `d`.
pub open spec fn depth_after(c: char, d: int) -> int {
    if c == '[' {
        d + 1
    } else if c == ']' {
        d - 1
    } else {
        d
    }
}

/// The length of the body of a bracketed regex read from `k` at bracket depth
/// `d`: it ends at the first `]]` met at depth zero, or at the end of `s`.
pub open spec fn regex_body_len(s: Seq<char>, k: int, d: int) -> nat
    decreases s.len() - k,
{
    if k < 0 || k >= s.len() {
        0
    } else if s[k] == ']' && k + 1 < s.len() && s[k + 1] == ']' && d == 0 {
        0
    } else {
        1 + regex_body_len(s, k + 1, depth_after(s[k], d))
    }
}

/// The position of the first `:` in `s`, or its length.
pub open spec fn colon_pos(s: Seq<char>) -> nat
    decreases s.len(),
{
    if s.len() == 0 {
        0
    } else if s[0] == ':' {
        0
    } else {
        1 + colon_pos(s.drop_first())
    }
}

/// `[A-Za-z_][A-Za-z0-9_]*`.
pub open spec fn is_identifier(s: Seq<char>) -> bool {
    &&& s.len() > 0
    &&& (('a' <= s[0] && s[0] <= 'z') || ('A' <= s[0] && s[0] <= 'Z') || s[0] == '_')
    &&& forall|j: int| 0 <= j < s.len() ==> is_ascii_alnum(#[trigger] s[j]) || s[j] == '_'
}

/// The component that the body of a bracketed regex denotes: a named regex
/// when an identifier and a colon lead it, a plain one otherwise.
pub open spec fn regex_component(body: Seq<char>) -> ComponentView {
    let c = colon_pos(body) as int;
    if c < body.len() && is_identifier(body.take(c)) {
        ComponentView::NamedRegex(body.take(c), body.skip(c + 1))
    } else {
        ComponentView::Regex(body)
    }
}

/// Literal text `t` put in front of the components `p`; it joins a leading
/// literal of `p`.
pub open spec fn prepend_text(t: Seq<char>, p: Seq<ComponentView>) -> Seq<ComponentView> {
    if t.len() == 0 {
        p
    } else if p.len() > 0 && p[0] is Text {
        seq![ComponentView::Text(t + p[0]->Text_0)] + p.drop_first()
    } else {
        seq![ComponentView::Text(t)] + p
    }
}

/// `k`, or `n` when `k` lies past it.
pub open spec fn at_most(k: int, n: int) -> int {
    if k <= n {
        k
    } else {
        n
    }
}

/// The components of `s` from position `i` on.
pub open spec fn parse_from(s: Seq<char>, i: int) -> Seq<ComponentView>
    decreases s.len() - i,
{
    if i < 0 || i >= s.len() {
        seq![]
    } else if variable_at(s, i) {
        let n = alnum_run(s, i + 2);
        seq![ComponentView::Variable(s.subrange(i + 2, i + 2 + n))] + parse_from(
            s,
            at_most(i + 2 + n, s.len() as int),
        )
    } else if regex_at(s, i) {
        let n = regex_body_len(s, i + 2, 0);
        let body = s.subrange(i + 2, i + 2 + n);
        let next = if i + 2 + n < s.len() {
            at_most(i + 4 + n, s.len() as int)
        } else {
            s.len() as int
        };
        seq![regex_component(body)] + parse_from(s, next)
    } else if constant_at(s, i) {
        let n = alnum_run(s, i + 1);
        seq![ComponentView::Constant(s.subrange(i + 1, i + 1 + n))] + parse_from(
            s,
            at_most(i + 1 + n, s.len() as int),
        )
    } else {
        prepend_text(seq![s[i]], parse_from(s, i + 1))
    }
}

/// The text pattern that `s` denotes.
pub open spec fn parse_pattern(s: Seq<char>) -> Seq<ComponentView> {
    parse_from(s, 0)
}

/// The length of the run of `[A-Za-z0-9]` at `i`.
fn alnum_run_len(v: &Vec<char>, i: usize) -> (r: usize)
    requires
        i <= v@.len(),
    ensures
        r == alnum_run(v@, i as int),
        i + r <= v@.len(),
{
    let mut j: usize = i;
    while j < v.len() && ascii_alnum(v[j])
        invariant
            i <= j <= v@.len(),
            alnum_run(v@, i as int) == (j - i) + alnum_run(v@, j as int),
        decreases v@.len() - j,
    {
        j = j + 1;
    }
    j - i
}

/// The length of the body of the bracketed regex whose body starts at `k`.
fn regex_body_length(v: &Vec<char>, k: usize) -> (r: usize)
    requires
        k <= v@.len(),
    ensures
        r == regex_body_len(v@, k as int, 0),
        k + r <= v@.len(),
        k + r < v@.len() ==> k + r + 1 < v@.len() && v@[k + r] == ']' && v@[k + r + 1] == ']',
{
    let mut j: usize = k;
    let mut opens: usize = 0;
    let mut closes: usize = 0;
    while j < v.len() && !(v[j] == ']' && j + 1 < v.len() && v[j + 1] == ']' && opens == closes)
        invariant
            k <= j <= v@.len(),
            opens <= j,
            closes <= j,
            regex_body_len(v@, k as int, 0) == (j - k) + regex_body_len(
                v@,
                j as int,
                opens - closes,
            ),
        decreases v@.len() - j,
    {
        if v[j] == '[' {
            opens = opens + 1;
        } else if v[j] == ']' {
            closes = closes + 1;
        }
        j = j + 1;
    }
    j - k
}

fn is_identifier_start(c: char) -> (r: bool)
    ensures
        r == (('a' <= c && c <= 'z') || ('A' <= c && c <= 'Z') || c == '_'),
{
    ('a' <= c && c <= 'z') || ('A' <= c && c <= 'Z') || c == '_'
}

proof fn lemma_colon_pos(s: Seq<char>, k: int)
    requires
        0 <= k <= s.len(),
        forall|j: int| 0 <= j < k ==> s[j] != ':',
        k == s.len() || s[k] == ':',
    ensures
        colon_pos(s) == k,
    decreases k,
{
    if k > 0 {
        lemma_colon_pos(s.drop_first(), k - 1);
    }
}

/// The component for the regex body `v[start..end]`.
fn regex_component_of(v: &Vec<char>, start: usize, end: usize) -> (r: PatternComponent)
    requires
        start <= end <= v@.len(),
    ensures
        r@ == regex_component(v@.subrange(start as int, end as int)),
{
    let ghost body = v@.subrange(start as int, end as int);
    let mut c: usize = start;
    while c < end && v[c] != ':'
        invariant
            start <= c <= end <= v@.len(),
            forall|j: int| start <= j < c ==> v@[j] != ':',
        decreases end - c,
    {
        c = c + 1;
    }
    proof {
        lemma_colon_pos(body, c - start);
    }
    let mut ident = c > start && is_identifier_start(v[start]);
    let mut j: usize = start;
    while ident && j < c
        invariant
            start <= j <= c <= end <= v@.len(),
            body == v@.subrange(start as int, end as int),
            ident ==> forall|m: int| start <= m < j ==> is_ascii_alnum(v@[m]) || v@[m] == '_',
            ident ==> c > start,
            ident ==> (('a' <= v@[start as int] && v@[start as int] <= 'z') || ('A' <= v@[
                start as int] && v@[start as int] <= 'Z') || v@[start as int] == '_'),
            !ident ==> !is_identifier(body.take(c - start)),
        decreases c - j,
    {
        if !(ascii_alnum(v[j]) || v[j] == '_') {
            ident = false;
            proof {
                assert(body.take(c - start)[j - start] == v@[j as int]);
            }
        }
        j = j + 1;
    }
    proof {
        if ident {
            assert forall|m: int| 0 <= m < body.take(c - start).len() implies is_ascii_alnum(
                #[trigger] body.take(c - start)[m],
            ) || body.take(c - start)[m] == '_' by {
                assert(body.take(c - start)[m] == v@[start + m]);
            }
            assert(is_identifier(body.take(c - start)));
        } else if c == start {
            assert(body.take(0).len() == 0);
        }
    }
    if c < end && ident {
        let name = string_of(v, start, c);
        let regex = string_of(v, c + 1, end);
        proof {
            assert(name@ =~= body.take(c - start));
            assert(regex@ =~= body.skip(c - start + 1));
        }
        PatternComponent::NamedRegex { name, regex }
    } else {
        let r = string_of(v, start, end);
        PatternComponent::Regex(r)
    }
}

proof fn lemma_prepend_push(t: Seq<char>, c: char, p: Seq<ComponentView>)
    ensures
        prepend_text(t, prepend_text(seq![c], p)) == prepend_text(t.push(c), p),
{
    if p.len() > 0 && p[0] is Text {
        assert(t + (seq![c] + p[0]->Text_0) =~= t.push(c) + p[0]->Text_0);
        assert((seq![ComponentView::Text(seq![c] + p[0]->Text_0)] + p.drop_first()).drop_first()
            =~= p.drop_first());
    } else {
        assert((seq![ComponentView::Text(seq![c])] + p).drop_first() =~= p);
        assert(t + seq![c] =~= t.push(c));
    }
}

proof fn lemma_prepend_token(t: Seq<char>, tok: ComponentView, p: Seq<ComponentView>)
    requires
        !(tok is Text),
    ensures
        prepend_text(t, seq![tok] + p) == (if t.len() == 0 {
            seq![]
        } else {
            seq![ComponentView::Text(t)]
        }) + seq![tok] + p,
{
    if t.len() == 0 {
        assert(seq![] + seq![tok] + p =~= seq![tok] + p);
    } else {
        assert((seq![tok] + p)[0] == tok);
        assert(seq![ComponentView::Text(t)] + (seq![tok] + p) =~= seq![ComponentView::Text(t)]
            + seq![tok] + p);
    }
}

/// Moves pending literal text, if any, to the finished components.
fn flush_text(done: &mut Vec<PatternComponent>, text: &mut Vec<char>)
    ensures
        final(done)@.map_values(|c: PatternComponent| c@) == old(done)@.map_values(
            |c: PatternComponent| c@,
        ) + (if old(text)@.len() == 0 {
            seq![]
        } else {
            seq![ComponentView::Text(old(text)@)]
        }),
        final(text)@.len() == 0,
{
    if text.len() > 0 {
        let t = string_of(text, 0, text.len());
        proof {
            assert(t@ =~= text@);
        }
        done.push(PatternComponent::Text(t));
        *text = Vec::new();
        proof {
            assert(done@.map_values(|c: PatternComponent| c@) =~= old(done)@.map_values(
                |c: PatternComponent| c@,
            ).push(ComponentView::Text(old(text)@)));
        }
    } else {
        proof {
            assert(old(done)@.map_values(|c: PatternComponent| c@) + seq![] =~= old(
                done,
            )@.map_values(|c: PatternComponent| c@));
        }
    }
}

/// The text pattern that `s` denotes: literal text, `$$name`, `[[regex]]`,
/// `[[name:regex]]` and `@name`.
pub fn text_pattern(s: &str) -> (r: TextPattern)
    ensures
        r@ == parse_pattern(s@),
{
    let v = chars_of(s);
    let mut done: Vec<PatternComponent> = Vec::new();
    let mut text: Vec<char> = Vec::new();
    let mut i: usize = 0;
    proof {
        assert(done@.map_values(|c: PatternComponent| c@) + prepend_text(text@, parse_from(v@, 0))
            =~= parse_pattern(s@));
    }
    while i < v.len()
        invariant
            v@ == s@,
            i <= v@.len(),
            parse_pattern(s@) == done@.map_values(|c: PatternComponent| c@) + prepend_text(
                text@,
                parse_from(v@, i as int),
            ),
        decreases v@.len() - i,
    {
        let ghost d0 = done@.map_values(|c: PatternComponent| c@);
        let ghost t0 = text@;
        let ghost flushed = if t0.len() == 0 {
            seq![]
        } else {
            seq![ComponentView::Text(t0)]
        };
        if v[i] == '$' && i + 1 < v.len() && v[i + 1] == '$' && alnum_run_len(&v, i + 2) > 0 {
            let n = alnum_run_len(&v, i + 2);
            flush_text(&mut done, &mut text);
            let name = string_of(&v, i + 2, i + 2 + n);
            let tok = PatternComponent::Variable(name);
            proof {
                lemma_prepend_token(t0, tok@, parse_from(v@, i + 2 + n));
            }
            done.push(tok);
            i = i + 2 + n;
            proof {
                assert(done@.map_values(|c: PatternComponent| c@) =~= d0 + flushed + seq![tok@]);
            }
        } else if v[i] == '[' && i + 1 < v.len() && v[i + 1] == '[' {
            let n = regex_body_length(&v, i + 2);
            flush_text(&mut done, &mut text);
            let tok = regex_component_of(&v, i + 2, i + 2 + n);
            let next = if i + 2 + n < v.len() {
                i + 4 + n
            } else {
                v.len()
            };
            proof {
                lemma_prepend_token(t0, tok@, parse_from(v@, next as int));
            }
            done.push(tok);
            i = next;
            proof {
                assert(done@.map_values(|c: PatternComponent| c@) =~= d0 + flushed + seq![tok@]);
            }
        } else if v[i] == '@' && alnum_run_len(&v, i + 1) > 0 {
            let n = alnum_run_len(&v, i + 1);
            flush_text(&mut done, &mut text);
            let name = string_of(&v, i + 1, i + 1 + n);
            let tok = PatternComponent::Constant(name);
            proof {
                lemma_prepend_token(t0, tok@, parse_from(v@, i + 1 + n));
            }
            done.push(tok);
            i = i + 1 + n;
            proof {
                assert(done@.map_values(|c: PatternComponent| c@) =~= d0 + flushed + seq![tok@]);
            }
        } else {
            proof {
                lemma_prepend_push(text@, v@[i as int], parse_from(v@, i + 1));
            }
            text.push(v[i]);
            i = i + 1;
        }
    }
    let ghost d0 = done@.map_values(|c: PatternComponent| c@);
    let ghost t0 = text@;
    flush_text(&mut done, &mut text);
    proof {
        if t0.len() > 0 {
            assert(prepend_text(t0, seq![]) =~= seq![ComponentView::Text(t0)]);
        }
    }
    let r = TextPattern { components: done };
    proof {
        assert(r@ =~= parse_pattern(s@));
    }
    r
}

// ---------------------------------------------------------------------------
// Rendering and parsing again
// ---------------------------------------------------------------------------

/// The parse of `s` from `i` on ends in a bracketed regex that `s` never
/// closes.
pub open spec fn open_tail(s: Seq<char>, i: int) -> bool
    decreases s.len() - i,
{
    if i < 0 || i >= s.len() {
        false
    } else if variable_at(s, i) {
        open_tail(s, at_most(i + 2 + alnum_run(s, i + 2), s.len() as int))
    } else if regex_at(s, i) {
        let n = regex_body_len(s, i + 2, 0);
        if i + 2 + n < s.len() {
            open_tail(s, at_most(i + 4 + n, s.len() as int))
        } else {
            true
        }
    } else if constant_at(s, i) {
        open_tail(s, at_most(i + 1 + alnum_run(s, i + 1), s.len() as int))
    } else {
        open_tail(s, i + 1)
    }
}

/// Where the regex left open at the end of `s` begins, for a parse from `i`
/// whose tail is open.
pub open spec fn open_start(s: Seq<char>, i: int) -> int
    decreases s.len() - i,
{
    if i < 0 || i >= s.len() {
        i
    } else if variable_at(s, i) {
        open_start(s, at_most(i + 2 + alnum_run(s, i + 2), s.len() as int))
    } else if regex_at(s, i) {
        let n = regex_body_len(s, i + 2, 0);
        if i + 2 + n < s.len() {
            open_start(s, at_most(i + 4 + n, s.len() as int))
        } else {
            i
        }
    } else if constant_at(s, i) {
        open_start(s, at_most(i + 1 + alnum_run(s, i + 1), s.len() as int))
    } else {
        open_start(s, i + 1)
    }
}

/// The text between the brackets of a regex component; nothing for others.
pub open spec fn regex_text(c: ComponentView) -> Seq<char> {
    match c {
        ComponentView::Regex(r) => r,
        ComponentView::NamedRegex(n, r) => n + ":"@ + r,
        _ => seq![],
    }
}

/// Read as the body of a bracketed regex, `body` followed by `]]` closes
/// exactly at its end.
pub open spec fn closes_at_end(body: Seq<char>) -> bool {
    regex_body_len(body + "]]"@, 0, 0) == body.len()
}

proof fn lemma_render_concat(a: Seq<ComponentView>, b: Seq<ComponentView>)
    ensures
        render(a + b) == render(a) + render(b),
    decreases b.len(),
{
    if b.len() == 0 {
        assert(a + b =~= a);
        assert(render(a) + render(b) =~= render(a));
    } else {
        assert((a + b).drop_last() =~= a + b.drop_last());
        lemma_render_concat(a, b.drop_last());
        assert(render(a + b) =~= render(a) + render(b));
    }
}

proof fn lemma_render_single(c: ComponentView)
    ensures
        render(seq![c]) == render_component(c),
{
    assert(seq![c].drop_last() =~= Seq::<ComponentView>::empty());
    assert(render(Seq::<ComponentView>::empty()) =~= Seq::<char>::empty());
    assert(Seq::<char>::empty() + render_component(c) =~= render_component(c));
}

proof fn lemma_render_front(c: ComponentView, p: Seq<ComponentView>)
    ensures
        render(seq![c] + p) == render_component(c) + render(p),
{
    lemma_render_concat(seq![c], p);
    lemma_render_single(c);
}

proof fn lemma_render_prepend(t: Seq<char>, p: Seq<ComponentView>)
    ensures
        render(prepend_text(t, p)) == t + render(p),
{
    if t.len() == 0 {
        assert(t + render(p) =~= render(p));
    } else if p.len() > 0 && p[0] is Text {
        let u = p[0]->Text_0;
        lemma_render_front(ComponentView::Text(t + u), p.drop_first());
        assert(p =~= seq![p[0]] + p.drop_first());
        lemma_render_front(p[0], p.drop_first());
        assert(t + u + render(p.drop_first()) =~= t + (u + render(p.drop_first())));
    } else {
        lemma_render_front(ComponentView::Text(t), p);
    }
}

proof fn lemma_colon_pos_props(s: Seq<char>)
    ensures
        colon_pos(s) <= s.len(),
        colon_pos(s) < s.len() ==> s[colon_pos(s) as int] == ':',
        forall|j: int| 0 <= j < colon_pos(s) ==> s[j] != ':',
    decreases s.len(),
{
    if s.len() > 0 && s[0] != ':' {
        lemma_colon_pos_props(s.drop_first());
        assert forall|j: int| 0 <= j < colon_pos(s) implies s[j] != ':' by {
            if j > 0 {
                assert(s[j] == s.drop_first()[j - 1]);
            }
        }
    }
}

proof fn lemma_regex_text(body: Seq<char>)
    ensures
        regex_text(regex_component(body)) == body,
        !(regex_component(body) is Text),
        render_component(regex_component(body)) == "[["@ + body + "]]"@,
{
    lemma_colon_pos_props(body);
    let c = colon_pos(body) as int;
    reveal_strlit(":");
    if c < body.len() && is_identifier(body.take(c)) {
        assert(body.take(c) + ":"@ + body.skip(c + 1) =~= body);
        assert("[["@ + body.take(c) + ":"@ + body.skip(c + 1) + "]]"@ =~= "[["@ + (body.take(c)
            + ":"@ + body.skip(c + 1)) + "]]"@);
    }
}

proof fn lemma_regex_body_props(s: Seq<char>, k: int, d: int)
    requires
        0 <= k <= s.len(),
    ensures
        k + regex_body_len(s, k, d) <= s.len(),
        k + regex_body_len(s, k, d) < s.len() ==> k + regex_body_len(s, k, d) + 1 < s.len()
            && s[k + regex_body_len(s, k, d)] == ']' && s[k + regex_body_len(s, k, d) + 1] == ']',
    decreases s.len() - k,
{
    if k < s.len() && !(s[k] == ']' && k + 1 < s.len() && s[k + 1] == ']' && d == 0) {
        lemma_regex_body_props(s, k + 1, depth_after(s[k], d));
    }
}

proof fn lemma_alnum_run_props(s: Seq<char>, i: int)
    requires
        0 <= i <= s.len(),
    ensures
        i + alnum_run(s, i) <= s.len(),
    decreases s.len() - i,
{
    if i < s.len() && is_ascii_alnum(s[i]) {
        lemma_alnum_run_props(s, i + 1);
    }
}

/// Rendering the parse of `s` from `i` gives back the rest of `s`, with `]]`
/// added when the parse ends in a regex that `s` left open.
proof fn lemma_render_parse(s: Seq<char>, i: int)
    requires
        0 <= i <= s.len(),
    ensures
        render(parse_from(s, i)) == s.skip(i) + (if open_tail(s, i) {
            "]]"@
        } else {
            seq![]
        }),
    decreases s.len() - i,
{
    if i >= s.len() {
        assert(s.skip(i) =~= Seq::<char>::empty());
        assert(render(Seq::<ComponentView>::empty()) =~= Seq::<char>::empty());
        assert(Seq::<char>::empty() + Seq::<char>::empty() =~= Seq::<char>::empty());
    } else if variable_at(s, i) {
        let n = alnum_run(s, i + 2);
        lemma_alnum_run_props(s, i + 2);
        let next = i + 2 + n;
        lemma_render_parse(s, next);
        let c = ComponentView::Variable(s.subrange(i + 2, next));
        lemma_render_front(c, parse_from(s, next));
        assert(s.skip(i) =~= "$$"@ + s.subrange(i + 2, next) + s.skip(next)) by {
            reveal_strlit("$$");
        }
    } else if regex_at(s, i) {
        let n = regex_body_len(s, i + 2, 0);
        lemma_regex_body_props(s, i + 2, 0);
        let body = s.subrange(i + 2, i + 2 + n);
        lemma_regex_text(body);
        reveal_strlit("[[");
        reveal_strlit("]]");
        if i + 2 + n < s.len() {
            let next = i + 4 + n;
            lemma_render_parse(s, next);
            lemma_render_front(regex_component(body), parse_from(s, next));
            assert(s.skip(i) =~= "[["@ + body + "]]"@ + s.skip(next));
        } else {
            lemma_render_front(regex_component(body), parse_from(s, s.len() as int));
            assert(s.skip(s.len() as int) =~= Seq::<char>::empty());
            assert(render(Seq::<ComponentView>::empty()) =~= Seq::<char>::empty());
            assert(s.skip(i) =~= "[["@ + body);
        }
    } else if constant_at(s, i) {
        let n = alnum_run(s, i + 1);
        lemma_alnum_run_props(s, i + 1);
        let next = i + 1 + n;
        lemma_render_parse(s, next);
        let c = ComponentView::Constant(s.subrange(i + 1, next));
        lemma_render_front(c, parse_from(s, next));
        assert(s.skip(i) =~= "@"@ + s.subrange(i + 1, next) + s.skip(next)) by {
            reveal_strlit("@");
        }
    } else {
        lemma_render_parse(s, i + 1);
        lemma_render_prepend(seq![s[i]], parse_from(s, i + 1));
        assert(s.skip(i) =~= seq![s[i]] + s.skip(i + 1));
    }
}

proof fn lemma_alnum_append(s: Seq<char>, j: int)
    requires
        0 <= j <= s.len(),
    ensures
        alnum_run(s + "]]"@, j) == alnum_run(s, j),
    decreases s.len() - j,
{
    reveal_strlit("]]");
    let t = s + "]]"@;
    if j < s.len() {
        assert(t[j] == s[j]);
        lemma_alnum_append(s, j + 1);
    } else {
        assert(t[j] == ']');
    }
}

proof fn lemma_body_append(s: Seq<char>, k: int, d: int)
    requires
        0 <= k <= s.len(),
        k + regex_body_len(s, k, d) < s.len(),
    ensures
        regex_body_len(s + "]]"@, k, d) == regex_body_len(s, k, d),
    decreases s.len() - k,
{
    reveal_strlit("]]");
    let t = s + "]]"@;
    assert(t[k] == s[k]);
    if k + 1 < s.len() {
        assert(t[k + 1] == s[k + 1]);
    }
    if !(s[k] == ']' && k + 1 < s.len() && s[k + 1] == ']' && d == 0) {
        lemma_body_append(s, k + 1, depth_after(s[k], d));
    }
}

proof fn lemma_body_shift(a: Seq<char>, j: int, k: int, d: int)
    requires
        0 <= j <= a.len(),
        0 <= k,
    ensures
        regex_body_len(a, j + k, d) == regex_body_len(a.skip(j), k, d),
    decreases a.len() - (j + k),
{
    let b = a.skip(j);
    if j + k < a.len() {
        assert(b[k] == a[j + k]);
        if j + k + 1 < a.len() {
            assert(b[k + 1] == a[j + k + 1]);
        }
        lemma_body_shift(a, j, k + 1, depth_after(a[j + k], d));
    }
}

proof fn lemma_prepend_keeps_last(t: Seq<char>, p: Seq<ComponentView>)
    requires
        p.len() > 0,
        !(p.last() is Text),
    ensures
        prepend_text(t, p).len() > 0,
        prepend_text(t, p).last() == p.last(),
{
}

/// With `]]` added, a parse whose tail is an open regex that closes at its
/// end parses to the same components.
proof fn lemma_parse_closed(s: Seq<char>, i: int)
    requires
        0 <= i <= s.len(),
        open_tail(s, i),
        closes_at_end(s.skip(open_start(s, i) + 2)),
    ensures
        parse_from(s + "]]"@, i) == parse_from(s, i),
    decreases s.len() - i,
{
    reveal_strlit("]]");
    reveal_strlit("$$");
    let t = s + "]]"@;
    assert(t[i] == s[i]);
    if i + 1 < s.len() {
        assert(t[i + 1] == s[i + 1]);
    } else {
        assert(t[i + 1] == ']');
    }
    lemma_alnum_append(s, i + 1);
    if i + 2 <= s.len() {
        lemma_alnum_append(s, i + 2);
    }
    if variable_at(s, i) {
        let n = alnum_run(s, i + 2);
        lemma_alnum_run_props(s, i + 2);
        lemma_parse_closed(s, i + 2 + n);
        assert(t.subrange(i + 2, i + 2 + n) =~= s.subrange(i + 2, i + 2 + n));
        assert(variable_at(t, i));
        assert(parse_from(t, i) == parse_from(s, i));
    } else if regex_at(s, i) {
        let n = regex_body_len(s, i + 2, 0);
        lemma_regex_body_props(s, i + 2, 0);
        if i + 2 + n < s.len() {
            lemma_body_append(s, i + 2, 0);
            lemma_parse_closed(s, i + 4 + n);
            assert(t.subrange(i + 2, i + 2 + n) =~= s.subrange(i + 2, i + 2 + n));
            assert(!variable_at(t, i));
            assert(regex_at(t, i));
            assert(parse_from(t, i) == parse_from(s, i));
        } else {
            let body = s.skip(i + 2);
            lemma_body_shift(t, i + 2, 0, 0);
            assert(t.skip(i + 2) =~= body + "]]"@);
            assert(regex_body_len(t, i + 2, 0) == body.len());
            assert(t.subrange(i + 2, i + 2 + n) =~= s.subrange(i + 2, i + 2 + n));
            assert(parse_from(t, t.len() as int) =~= Seq::<ComponentView>::empty());
            assert(parse_from(s, s.len() as int) =~= Seq::<ComponentView>::empty());
            assert(n == body.len());
            assert(at_most(i + 4 + n, t.len() as int) == t.len());
            assert(!variable_at(t, i));
            assert(regex_at(t, i));
            assert(parse_from(t, i) == parse_from(s, i));
        }
    } else if constant_at(s, i) {
        let n = alnum_run(s, i + 1);
        lemma_alnum_run_props(s, i + 1);
        lemma_parse_closed(s, i + 1 + n);
        assert(t.subrange(i + 1, i + 1 + n) =~= s.subrange(i + 1, i + 1 + n));
        assert(!variable_at(t, i));
        assert(!regex_at(t, i));
        assert(constant_at(t, i));
        assert(parse_from(t, i) == parse_from(s, i));
    } else {
        lemma_parse_closed(s, i + 1);
        assert(!variable_at(t, i));
        assert(!regex_at(t, i));
        assert(!constant_at(t, i));
        assert(parse_from(t, i) == parse_from(s, i));
    }
}

/// The last component of a parse whose tail is open is the regex that was
/// left open.
proof fn lemma_open_last(s: Seq<char>, i: int)
    requires
        0 <= i <= s.len(),
        open_tail(s, i),
    ensures
        parse_from(s, i).len() > 0,
        parse_from(s, i).last() == regex_component(s.skip(open_start(s, i) + 2)),
    decreases s.len() - i,
{
    if variable_at(s, i) {
        let n = alnum_run(s, i + 2);
        lemma_alnum_run_props(s, i + 2);
        lemma_open_last(s, i + 2 + n);
        let x = ComponentView::Variable(s.subrange(i + 2, i + 2 + n));
        assert((seq![x] + parse_from(s, i + 2 + n)).last() == parse_from(s, i + 2 + n).last());
    } else if regex_at(s, i) {
        let n = regex_body_len(s, i + 2, 0);
        lemma_regex_body_props(s, i + 2, 0);
        let x = regex_component(s.subrange(i + 2, i + 2 + n));
        if i + 2 + n < s.len() {
            lemma_open_last(s, i + 4 + n);
            assert((seq![x] + parse_from(s, i + 4 + n)).last() == parse_from(s, i + 4 + n).last());
        } else {
            assert(s.subrange(i + 2, i + 2 + n) =~= s.skip(i + 2));
            assert(parse_from(s, s.len() as int) =~= Seq::<ComponentView>::empty());
            assert((seq![x] + parse_from(s, s.len() as int)).last() == x);
        }
    } else if constant_at(s, i) {
        let n = alnum_run(s, i + 1);
        lemma_alnum_run_props(s, i + 1);
        lemma_open_last(s, i + 1 + n);
        let x = ComponentView::Constant(s.subrange(i + 1, i + 1 + n));
        assert((seq![x] + parse_from(s, i + 1 + n)).last() == parse_from(s, i + 1 + n).last());
    } else {
        lemma_open_last(s, i + 1);
        lemma_regex_text(s.skip(open_start(s, i + 1) + 2));
        lemma_prepend_keeps_last(seq![s[i]], parse_from(s, i + 1));
    }
}

/// Rendering a parsed pattern in its canonical syntax and parsing it again
/// gives the same pattern, provided the text of each of its regexes, read as
/// the body of a bracketed regex and followed by `]]`, closes exactly at its
/// end. Only a regex left unclosed at the end of the input can fail that.
pub proof fn law_pattern_round_trip(s: Seq<char>)
    requires
        forall|k: int|
            0 <= k < parse_pattern(s).len() ==> closes_at_end(
                regex_text(#[trigger] parse_pattern(s)[k]),
            ),
    ensures
        parse_pattern(render(parse_pattern(s))) == parse_pattern(s),
{
    lemma_render_parse(s, 0);
    assert(s.skip(0) =~= s);
    if open_tail(s, 0) {
        lemma_open_last(s, 0);
        let p = parse_pattern(s);
        let body = s.skip(open_start(s, 0) + 2);
        lemma_regex_text(body);
        assert(closes_at_end(regex_text(p[p.len() - 1])));
        lemma_parse_closed(s, 0);
    } else {
        assert(s + Seq::<char>::empty() =~= s);
    }
}

// ---------------------------------------------------------------------------
// Directives
// ---------------------------------------------------------------------------

/// `[A-Z-]`: a character of a directive keyword.
pub open spec fn is_keyword_char(c: char) -> bool {
    ('A' <= c && c <= 'Z') || c == '-'
}

/// The length of the run of keyword characters that starts at `i`.
pub open spec fn keyword_run(s: Seq<char>, i: int) -> nat
    decreases s.len() - i,
{
    if 0 <= i < s.len() && is_keyword_char(s[i]) {
        1 + keyword_run(s, i + 1)
    } else {
        0
    }
}

/// The shape `([A-Z-]+):` matches at `i`.
pub open spec fn directive_at(s: Seq<char>, i: int) -> bool {
    0 <= i && keyword_run(s, i) > 0 && i + keyword_run(s, i) < s.len() && s[i + keyword_run(
        s,
        i,
    )] == ':'
}

/// The leftmost position at or after `i` where the directive shape matches.
pub open spec fn directive_pos(s: Seq<char>, i: int) -> Option<int>
    decreases s.len() - i,
{
    if i < 0 || i >= s.len() {
        None
    } else if directive_at(s, i) {
        Some(i)
    } else {
        directive_pos(s, i + 1)
    }
}

/// What a line says: nothing, a command, or an error message.
pub open spec fn directive(line: Seq<char>) -> Option<Result<KindView, Seq<char>>> {
    match directive_pos(line, 0) {
        None => None,
        Some(i) => {
            let n = keyword_run(line, i);
            let keyword = line.subrange(i, i + n);
            let tail = trim(line.subrange(i + n + 1, line.len() as int));
            if keyword == "RUN"@ {
                Some(Ok(KindView::Run(tail)))
            } else if keyword == "CHECK"@ {
                Some(Ok(KindView::Check(parse_pattern(tail))))
            } else if keyword == "CHECK-NEXT"@ {
                Some(Ok(KindView::CheckNext(parse_pattern(tail))))
            } else if keyword == "XFAIL"@ {
                Some(Ok(KindView::XFail))
            } else {
                Some(Err("command '"@ + keyword + "' not known"@))
            }
        },
    }
}

fn is_keyword_character(c: char) -> (r: bool)
    ensures
        r == is_keyword_char(c),
{
    ('A' <= c && c <= 'Z') || c == '-'
}

fn keyword_run_len(v: &Vec<char>, i: usize) -> (r: usize)
    requires
        i <= v@.len(),
    ensures
        r == keyword_run(v@, i as int),
        i + r <= v@.len(),
{
    let mut j: usize = i;
    while j < v.len() && is_keyword_character(v[j])
        invariant
            i <= j <= v@.len(),
            keyword_run(v@, i as int) == (j - i) + keyword_run(v@, j as int),
        decreases v@.len() - j,
    {
        j = j + 1;
    }
    j - i
}

/// Whether `v[start..end]` spells `lit`.
fn spells(v: &Vec<char>, start: usize, end: usize, lit: &str) -> (r: bool)
    requires
        start <= end <= v@.len(),
    ensures
        r == (v@.subrange(start as int, end as int) == lit@),
{
    let l = chars_of(lit);
    if end - start != l.len() {
        return false;
    }
    let mut k: usize = 0;
    while k < l.len()
        invariant
            l@ == lit@,
            end - start == l@.len(),
            start <= end <= v@.len(),
            k <= l@.len(),
            forall|m: int| 0 <= m < k ==> v@[start + m] == l@[m],
        decreases l@.len() - k,
    {
        if v[start + k] != l[k] {
            proof {
                assert(v@.subrange(start as int, end as int)[k as int] != l@[k as int]);
            }
            return false;
        }
        k = k + 1;
    }
    proof {
        assert(v@.subrange(start as int, end as int) =~= l@);
    }
    true
}

/// Parses a possible command, if a line holds one.
///
/// Returns `None` if the line holds no directive.
pub fn possible_command(string: &str, line: u32) -> (r: Option<Result<Command, String>>)
    ensures
        match (r, directive(string@)) {
            (None, None) => true,
            (Some(Ok(c)), Some(Ok(k))) => c.kind@ == k && c.line_number == line,
            (Some(Err(e)), Some(Err(m))) => e@ == m,
            _ => false,
        },
{
    let v = chars_of(string);
    let mut i: usize = 0;
    while i < v.len()
        invariant
            v@ == string@,
            i <= v@.len(),
            directive_pos(v@, 0) == directive_pos(v@, i as int),
        decreases v@.len() - i,
    {
        let n = keyword_run_len(&v, i);
        if n > 0 && i + n < v.len() && v[i + n] == ':' {
            let (b, e) = trim_bounds(&v, i + n + 1, v.len());
            let tail = string_of(&v, b, e);
            let kind = if spells(&v, i, i + n, "RUN") {
                CommandKind::Run(Invocation { original_command: tail })
            } else if spells(&v, i, i + n, "CHECK") {
                CommandKind::Check(text_pattern(tail.as_str()))
            } else if spells(&v, i, i + n, "CHECK-NEXT") {
                CommandKind::CheckNext(text_pattern(tail.as_str()))
            } else if spells(&v, i, i + n, "XFAIL") {
                CommandKind::XFail
            } else {
                let mut m = string_from("command '");
                let keyword = string_of(&v, i, i + n);
                push_str(&mut m, keyword.as_str());
                push_str(&mut m, "' not known");
                proof {
                    assert(m@ =~= "command '"@ + v@.subrange(i as int, i + n) + "' not known"@);
                }
                return Some(Err(m));
            };
            return Some(Ok(Command::new(kind, line)));
        }
        i = i + 1;
    }
    None
}

/// Checks if a line holds a directive.
pub fn is_directive(string: &str) -> (r: bool)
    ensures
        r == directive_pos(string@, 0) is Some,
{
    let v = chars_of(string);
    let mut i: usize = 0;
    while i < v.len()
        invariant
            v@ == string@,
            i <= v@.len(),
            directive_pos(v@, 0) == directive_pos(v@, i as int),
        decreases v@.len() - i,
    {
        let n = keyword_run_len(&v, i);
        if n > 0 && i + n < v.len() && v[i + n] == ':' {
            return true;
        }
        i = i + 1;
    }
    false
}

/// The commands of a file's lines from line index `k` on, numbered from 1,
/// or the message for the first line that holds an unknown directive.
pub open spec fn commands_from(ls: Seq<Seq<char>>, k: int) -> Result<Seq<CommandView>, Seq<char>>
    decreases ls.len() - k,
{
    if k < 0 || k >= ls.len() {
        Ok(seq![])
    } else {
        match directive(ls[k]) {
            None => commands_from(ls, k + 1),
            Some(Err(e)) => Err("could not parse command: "@ + e),
            Some(Ok(kind)) => match commands_from(ls, k + 1) {
                Ok(cs) => Ok(seq![CommandView { line: (k + 1) as nat, kind }] + cs),
                Err(e) => Err(e),
            },
        }
    }
}

/// `done` followed by the outcome `rest`.
pub open spec fn after(done: Seq<CommandView>, rest: Result<Seq<CommandView>, Seq<char>>) -> Result<
    Seq<CommandView>,
    Seq<char>,
> {
    match rest {
        Ok(cs) => Ok(done + cs),
        Err(e) => Err(e),
    }
}

/// Parses a test file.
pub fn test_file(path: TestFilePath, text: &str) -> (r: Result<TestFile, String>)
    requires
        lines_of(text@).len() < u32::MAX,
    ensures
        match (r, commands_from(lines_of(text@), 0)) {
            (Ok(tf), Ok(cs)) => tf.path == path && tf.commands@.map_values(|c: Command| c@)
                == cs,
            (Err(e), Err(m)) => e@ == m,
            _ => false,
        },
{
    let v = chars_of(text);
    let ls = lines(&v);
    let ghost all = lines_of(text@);
    let mut commands: Vec<Command> = Vec::new();
    let mut k: usize = 0;
    proof {
        assert(commands@.map_values(|c: Command| c@) =~= Seq::<CommandView>::empty());
        assert(after(Seq::<CommandView>::empty(), commands_from(all, 0)) =~= commands_from(all, 0));
    }
    while k < ls.len()
        invariant
            v@ == text@,
            all == lines_of(text@),
            all.len() < u32::MAX,
            ls@.len() == all.len(),
            forall|i: int| 0 <= i < ls@.len() ==> #[trigger] ls@[i]@ == all[i],
            k <= ls@.len(),
            commands_from(all, 0) == after(
                commands@.map_values(|c: Command| c@),
                commands_from(all, k as int),
            ),
        decreases ls@.len() - k,
    {
        let line = string_of(&ls[k], 0, ls[k].len());
        proof {
            assert(line@ =~= all[k as int]);
        }
        let ghost before = commands@.map_values(|c: Command| c@);
        match possible_command(line.as_str(), (k + 1) as u32) {
            Some(Ok(command)) => {
                commands.push(command);
                proof {
                    assert(commands@.map_values(|c: Command| c@) =~= before.push(
                        command@,
                    ));
                    let rest = commands_from(all, k + 1);
                    if rest is Ok {
                        assert(before + (seq![command@] + rest->Ok_0) =~= before.push(command@)
                            + rest->Ok_0);
                    }
                }
            },
            Some(Err(e)) => {
                let mut m = string_from("could not parse command: ");
                push_str(&mut m, e.as_str());
                return Err(m);
            },
            None => {},
        }
        k = k + 1;
    }
    Ok(TestFile { path, commands })
}

/// The commands of a parsed file appear in the order of their lines, each
/// with the 1-based number of a line whose directive it is.
pub proof fn law_commands_in_line_order(ls: Seq<Seq<char>>, k: int)
    requires
        0 <= k,
        commands_from(ls, k) is Ok,
    ensures
        ({
            let cs = commands_from(ls, k)->Ok_0;
            &&& forall|i: int, j: int| 0 <= i < j < cs.len() ==> cs[i].line < cs[j].line
            &&& forall|i: int|
                0 <= i < cs.len() ==> k + 1 <= cs[i].line <= ls.len() && directive(
                    ls[cs[i].line - 1],
                ) == Some(Ok::<KindView, Seq<char>>(cs[i].kind))
        }),
    decreases ls.len() - k,
{
    if k < ls.len() {
        law_commands_in_line_order(ls, k + 1);
    }
}

/// Joins words with single spaces.
pub open spec fn join_words(ws: Seq<Seq<char>>) -> Seq<char>
    decreases ws.len(),
{
    if ws.len() == 0 {
        seq![]
    } else if ws.len() == 1 {
        ws[0]
    } else {
        join_words(ws.drop_last()) + " "@ + ws.last()
    }
}

/// Parses a tool invocation from the words of its command line; they are
/// joined with single spaces.
pub fn invocation(words: &Vec<&str>) -> (r: Result<Invocation, String>)
    ensures
        r matches Ok(inv) && inv.original_command@ == join_words(
            words@.map_values(|w: &str| w@),
        ),
{
    let mut s = String::new();
    let mut i: usize = 0;
    while i < words.len()
        invariant
            i <= words@.len(),
            s@ == join_words(words@.map_values(|w: &str| w@).take(i as int)),
        decreases words@.len() - i,
    {
        let ghost ws = words@.map_values(|w: &str| w@);
        if i > 0 {
            push_str(&mut s, " ");
        }
        push_str(&mut s, words[i]);
        proof {
            assert(ws.take(i + 1).drop_last() =~= ws.take(i as int));
            if i == 0 {
                assert(s@ =~= ws.take(1)[0]);
            }
        }
        i = i + 1;
    }
    proof {
        assert(words@.map_values(|w: &str| w@).take(i as int) =~= words@.map_values(|w: &str| w@));
    }
    Ok(Invocation { original_command: s })
}

} // verus!

