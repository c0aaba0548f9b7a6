//! Iteration over the lines of program output that are not directives.

use vstd::prelude::*;
use crate::parse::{directive_pos, is_directive};
use crate::text::{chars_of, find_newline, newline_pos, string_of};

verus! {

/// The pieces of `s` between newlines; a text always has at least one.
pub open spec fn segments(s: Seq<char>) -> Seq<Seq<char>>
    decreases s.len(),
{
    if newline_pos(s) < s.len() {
        seq![s.take(newline_pos(s) as int)] + segments(s.skip(newline_pos(s) + 1 as int))
    } else {
        seq![s]
    }
}

/// Whether a line holds a directive.
pub open spec fn is_directive_line(l: Seq<char>) -> bool {
    directive_pos(l, 0) is Some
}

/// The first position at or after `k` whose line is not a directive.
pub open spec fn next_plain(ls: Seq<Seq<char>>, k: int) -> Option<int>
    decreases ls.len() - k,
{
    if k < 0 || k >= ls.len() {
        None
    } else if !is_directive_line(ls[k]) {
        Some(k)
    } else {
        next_plain(ls, k + 1)
    }
}

/// Iterator over a set of lines, passing over directives.
pub struct Lines {
    lines: Vec<String>,
    current: usize,
}

impl Lines {
    /// The lines.
    pub closed spec fn all(&self) -> Seq<Seq<char>> {
        self.lines@.map_values(|l: String| l@)
    }

    /// The position of the next line to consider.
    pub closed spec fn position(&self) -> int {
        self.current as int
    }

    pub fn new(lines: Vec<String>) -> (r: Lines)
        ensures
            r.all() == lines@.map_values(|l: String| l@),
            r.position() == 0,
    {
        Lines { lines, current: 0 }
    }

    /// The lines of a text, split at each newline.
    pub fn from_text(s: &str) -> (r: Lines)
        ensures
            r.all() == segments(s@),
            r.position() == 0,
    {
        let v = chars_of(s);
        let mut ls: Vec<String> = Vec::new();
        let mut i: usize = 0;
        let ghost mut done: Seq<Seq<char>> = seq![];
        proof {
            assert(v@.skip(0) =~= v@);
        }
        loop
            invariant
                v@ == s@,
                i <= v@.len(),
                ls@.map_values(|l: String| l@) == done,
                done + segments(v@.skip(i as int)) == segments(s@),
            decreases v@.len() - i,
        {
            let ghost rest = v@.skip(i as int);
            let j = find_newline(&v, i);
            let piece = string_of(&v, i, j);
            proof {
                assert(rest.take(newline_pos(rest) as int) =~= piece@);
            }
            ls.push(piece);
            proof {
                done = done.push(piece@);
                assert(ls@.map_values(|l: String| l@) =~= done);
            }
            if j < v.len() {
                i = j + 1;
                proof {
                    assert(rest.skip(newline_pos(rest) + 1 as int) =~= v@.skip(i as int));
                    assert(done + segments(v@.skip(i as int)) =~= done.drop_last() + segments(rest));
                }
            } else {
                proof {
                    assert(rest =~= piece@);
                    assert(done =~= done.drop_last() + segments(rest));
                    assert(done == segments(s@));
                }
                return Lines { lines: ls, current: 0 };
            }
        }
    }

    /// The position of the next line that is not a directive.
    pub fn next_index(&self) -> (r: Option<usize>)
        ensures
            r matches Some(k) ==> self.position() <= k < self.all().len(),
            match next_plain(self.all(), self.position()) {
                Some(k) => r matches Some(x) && x as int == k,
                None => r is None,
            },
    {
        let mut k = self.current;
        while k < self.lines.len()
            invariant
                self.current <= k,
                next_plain(self.all(), self.position()) == next_plain(self.all(), k as int),
            decreases self.lines@.len() - k,
        {
            if !is_directive(self.lines[k].as_str()) {
                return Some(k);
            }
            k = k + 1;
        }
        None
    }

    /// The next line that is not a directive, without consuming it.
    pub fn peek(&self) -> (r: Option<String>)
        ensures
            match next_plain(self.all(), self.position()) {
                Some(k) => r matches Some(l) && l@ == self.all()[k],
                None => r is None,
            },
    {
        match self.next_index() {
            Some(k) => {
                proof {
                    assert(self.all()[k as int] == self.lines@[k as int]@);
                }
                Some(self.lines[k].clone())
            },
            None => None,
        }
    }

    /// Consumes and returns the next line that is not a directive.
    pub fn next(&mut self) -> (r: Option<String>)
        ensures
            final(self).all() == old(self).all(),
            match next_plain(old(self).all(), old(self).position()) {
                Some(k) => r matches Some(l) && l@ == old(self).all()[k] && final(self).position()
                    == k + 1,
                None => r is None && final(self).position() == old(self).position(),
            },
    {
        let n = self.lines.len();
        match self.next_index() {
            Some(k) => {
                proof {
                    assert(self.all()[k as int] == self.lines@[k as int]@);
                }
                self.current = k + 1;
                Some(self.lines[k].clone())
            },
            None => None,
        }
    }
}

impl From<String> for Lines {
    fn from(s: String) -> (r: Lines) {
        Lines::from_text(s.as_str())
    }
}

impl vstd::std_specs::convert::FromSpecImpl<String> for Lines {
    open spec fn obeys_from_spec() -> bool {
        false
    }

    open spec fn from_spec(v: String) -> Lines {
        choose|l: Lines| l.all() == segments(v@) && l.position() == 0
    }
}

} // verus!
