//! Formatting of program output for diagnostics: indentation, line numbers
//! and truncation.

use vstd::prelude::*;
use crate::text::{
    chars_of, decimal, join_lines, lines, lines_of, push_decimal, push_str, string_of, trim,
    trim_bounds,
};

verus! {

/// The indentation unit.
pub open spec fn default_indent_atom() -> Seq<char> {
    "  "@
}

/// What marks truncated text.
pub open spec fn truncated_text_marker() -> Seq<char> {
    "... (truncated)"@
}

/// Which end of a text truncation keeps.
#[derive(Copy, Clone, Debug, PartialEq, Eq, Structural)]
pub enum TruncateDirection {
    /// Keep the last lines.
    Top,
    /// Keep the first lines.
    Bottom,
}

/// `s` repeated `n` times.
pub open spec fn repeat(s: Seq<char>, n: nat) -> Seq<char>
    decreases n,
{
    if n == 0 {
        seq![]
    } else {
        repeat(s, (n - 1) as nat) + s
    }
}

/// Each line of `ls`, trimmed, behind the indentation `ind`.
pub open spec fn indent_lines(ls: Seq<Seq<char>>, ind: Seq<char>) -> Seq<Seq<char>> {
    ls.map_values(|l: Seq<char>| ind + trim(l))
}

/// The text indented: each line trimmed and put behind `level` atoms, and a
/// newline at the end.
pub open spec fn indented(text: Seq<char>, level: nat, atom: Seq<char>) -> Seq<char> {
    join_lines(indent_lines(lines_of(text), repeat(atom, level))) + seq!['\n']
}

fn push_line_joined(out: &mut String, first: bool, line: &str)
    ensures
        final(out)@ == if first {
            old(out)@ + line@
        } else {
            old(out)@ + seq!['\n'] + line@
        },
{
    if !first {
        out.push('\n');
    }
    push_str(out, line);
}

/// Lines joined with newlines, built one at a time: after `k` lines the text
/// is the join of the first `k`.
proof fn lemma_join_step(ls: Seq<Seq<char>>, k: int)
    requires
        0 <= k < ls.len(),
    ensures
        join_lines(ls.take(k + 1)) == if k == 0 {
            ls[0]
        } else {
            join_lines(ls.take(k)) + seq!['\n'] + ls[k]
        },
{
    assert(ls.take(k + 1).drop_last() =~= ls.take(k));
}

/// Indents a piece of text with the given atom.
pub fn indent_ext(text: &str, level: usize, indentation_atom: &str) -> (r: String)
    ensures
        r@ == indented(text@, level as nat, indentation_atom@),
{
    let mut ind = String::new();
    let mut k: usize = 0;
    while k < level
        invariant
            k <= level,
            ind@ == repeat(indentation_atom@, k as nat),
        decreases level - k,
    {
        push_str(&mut ind, indentation_atom);
        k = k + 1;
    }
    let v = chars_of(text);
    let ls = lines(&v);
    let ghost all = indent_lines(lines_of(text@), ind@);
    let mut out = String::new();
    let mut i: usize = 0;
    while i < ls.len()
        invariant
            v@ == text@,
            ls@.len() == lines_of(text@).len(),
            forall|j: int| 0 <= j < ls@.len() ==> #[trigger] ls@[j]@ == lines_of(text@)[j],
            all == indent_lines(lines_of(text@), ind@),
            i <= ls@.len(),
            out@ == join_lines(all.take(i as int)),
        decreases ls@.len() - i,
    {
        let (b, e) = trim_bounds(&ls[i], 0, ls[i].len());
        let mut line = String::new();
        push_str(&mut line, ind.as_str());
        let t = string_of(&ls[i], b, e);
        push_str(&mut line, t.as_str());
        proof {
            assert(ls@[i as int]@.subrange(0, ls@[i as int]@.len() as int) =~= ls@[i as int]@);
            assert(line@ == all[i as int]);
            lemma_join_step(all, i as int);
        }
        push_line_joined(&mut out, i == 0, line.as_str());
        i = i + 1;
    }
    proof {
        assert(all.take(i as int) =~= all);
    }
    out.push('\n');
    out
}

/// Indents a piece of text.
pub fn indent(text: &str, level: usize) -> (r: String)
    ensures
        r@ == indented(text@, level as nat, default_indent_atom()),
{
    indent_ext(text, level, "  ")
}

/// Line `line`, numbered `n` and padded so that numbers of `width` digits
/// line up.
pub open spec fn numbered_line(n: nat, width: nat, line: Seq<char>) -> Seq<char> {
    decimal(n) + repeat(" "@, (width - decimal(n).len()) as nat) + "|      "@ + line
}

/// The text with each line behind its number, counting from `first`.
pub open spec fn with_line_numbers(text: Seq<char>, first: nat) -> Seq<char> {
    let ls = lines_of(text);
    let width = decimal(first + ls.len()).len();
    join_lines(Seq::new(ls.len(), |i: int| numbered_line(first + i as nat, width, ls[i])))
}

proof fn lemma_decimal_len_monotone(a: nat, b: nat)
    requires
        a <= b,
    ensures
        decimal(a).len() <= decimal(b).len(),
    decreases b,
{
    if b >= 10 && a >= 10 {
        lemma_decimal_len_monotone(a / 10, b / 10);
    } else if b >= 10 {
        lemma_decimal_len_pos(b / 10);
    }
}

proof fn lemma_decimal_len_pos(n: nat)
    ensures
        decimal(n).len() >= 1,
    decreases n,
{
    if n >= 10 {
        lemma_decimal_len_pos(n / 10);
    }
}

/// Decorates each line of a text with its line number.
pub fn decorate_with_line_numbers(text: &str, starts_from_line_number: usize) -> (r: String)
    requires
        starts_from_line_number + lines_of(text@).len() <= usize::MAX,
    ensures
        r@ == with_line_numbers(text@, starts_from_line_number as nat),
{
    let v = chars_of(text);
    let ls = lines(&v);
    let ghost first = starts_from_line_number as nat;
    let ghost width = decimal(first + lines_of(text@).len()).len();
    let ghost all = Seq::new(
        lines_of(text@).len(),
        |i: int| numbered_line(first + i as nat, width, lines_of(text@)[i]),
    );
    let mut widest = String::new();
    push_decimal(&mut widest, (starts_from_line_number + ls.len()) as u64);
    let w = chars_of(widest.as_str()).len();
    let mut out = String::new();
    let mut i: usize = 0;
    while i < ls.len()
        invariant
            v@ == text@,
            ls@.len() == lines_of(text@).len(),
            forall|j: int| 0 <= j < ls@.len() ==> #[trigger] ls@[j]@ == lines_of(text@)[j],
            starts_from_line_number + ls@.len() <= usize::MAX,
            first == starts_from_line_number,
            w == width,
            width == decimal(first + lines_of(text@).len()).len(),
            all == Seq::new(
                lines_of(text@).len(),
                |i: int| numbered_line(first + i as nat, width, lines_of(text@)[i]),
            ),
            i <= ls@.len(),
            out@ == join_lines(all.take(i as int)),
        decreases ls@.len() - i,
    {
        let mut line = String::new();
        push_decimal(&mut line, (starts_from_line_number + i) as u64);
        let digits = chars_of(line.as_str()).len();
        proof {
            lemma_decimal_len_monotone(first + i as nat, first + lines_of(text@).len());
        }
        let mut pad: usize = 0;
        while pad < w - digits
            invariant
                digits <= w,
                pad <= w - digits,
                line@ == decimal((starts_from_line_number + i) as nat) + repeat(" "@, pad as nat),
            decreases w - digits - pad,
        {
            line.push(' ');
            pad = pad + 1;
            proof {
                reveal_strlit(" ");
                assert(repeat(" "@, pad as nat) =~= repeat(" "@, (pad - 1) as nat) + " "@);
            }
        }
        push_str(&mut line, "|      ");
        let l = string_of(&ls[i], 0, ls[i].len());
        push_str(&mut line, l.as_str());
        proof {
            assert(ls@[i as int]@.subrange(0, ls@[i as int]@.len() as int) =~= ls@[i as int]@);
            assert(line@ =~= all[i as int]);
            lemma_join_step(all, i as int);
        }
        push_line_joined(&mut out, i == 0, line.as_str());
        i = i + 1;
    }
    proof {
        assert(all.take(i as int) =~= all);
    }
    out
}

/// The lines that truncation keeps.
pub open spec fn kept_lines(ls: Seq<Seq<char>>, max: nat, dir: TruncateDirection) -> Seq<Seq<char>> {
    if ls.len() <= max {
        ls
    } else {
        match dir {
            TruncateDirection::Bottom => ls.take(max as int),
            TruncateDirection::Top => ls.skip(ls.len() - max),
        }
    }
}

/// The text cut down to at most `max` lines, with a marker where lines went.
pub open spec fn truncated(text: Seq<char>, max: nat, dir: TruncateDirection) -> Seq<char> {
    let ls = lines_of(text);
    let kept = join_lines(kept_lines(ls, max, dir));
    if ls.len() > max {
        match dir {
            TruncateDirection::Bottom => kept + "\n\n"@ + truncated_text_marker(),
            TruncateDirection::Top => truncated_text_marker() + "\n\n"@ + kept,
        }
    } else {
        kept
    }
}

/// Truncates a text to at most `max_line_count` lines.
pub fn truncate_to_max_lines(
    text: &str,
    max_line_count: usize,
    truncate_direction: TruncateDirection,
) -> (r: String)
    ensures
        r@ == truncated(text@, max_line_count as nat, truncate_direction),
{
    let v = chars_of(text);
    let ls = lines(&v);
    let n = ls.len();
    let (from, to): (usize, usize) = if n <= max_line_count {
        (0, n)
    } else {
        match truncate_direction {
            TruncateDirection::Bottom => (0, max_line_count),
            TruncateDirection::Top => (n - max_line_count, n),
        }
    };
    let ghost kept = kept_lines(lines_of(text@), max_line_count as nat, truncate_direction);
    proof {
        assert(kept =~= lines_of(text@).subrange(from as int, to as int));
    }
    let mut out = String::new();
    let mut i: usize = from;
    while i < to
        invariant
            v@ == text@,
            ls@.len() == lines_of(text@).len(),
            forall|j: int| 0 <= j < ls@.len() ==> #[trigger] ls@[j]@ == lines_of(text@)[j],
            from <= i <= to <= ls@.len(),
            kept == lines_of(text@).subrange(from as int, to as int),
            out@ == join_lines(kept.take(i - from)),
        decreases to - i,
    {
        let l = string_of(&ls[i], 0, ls[i].len());
        proof {
            assert(ls@[i as int]@.subrange(0, ls@[i as int]@.len() as int) =~= ls@[i as int]@);
            lemma_join_step(kept, i - from);
        }
        push_line_joined(&mut out, i == from, l.as_str());
        i = i + 1;
    }
    proof {
        assert(kept.take(i - from) =~= kept);
    }
    if n > max_line_count {
        match truncate_direction {
            TruncateDirection::Bottom => {
                push_str(&mut out, "\n\n");
                push_str(&mut out, "... (truncated)");
                out
            },
            TruncateDirection::Top => {
                let mut r = String::new();
                push_str(&mut r, "... (truncated)");
                push_str(&mut r, "\n\n");
                push_str(&mut r, out.as_str());
                r
            },
        }
    } else {
        out
    }
}

} // verus!
