//! The variable store: names mapped to values, where a later binding of a
//! name shadows an earlier one.

use vstd::prelude::*;
use crate::text::{str_eq, string_from};

verus! {

/// The mapping that a list of bindings denotes: later bindings win.
pub open spec fn bindings_map(b: Seq<(String, String)>) -> Map<Seq<char>, Seq<char>>
    decreases b.len(),
{
    if b.len() == 0 {
        Map::empty()
    } else {
        bindings_map(b.drop_last()).insert(b.last().0@, b.last().1@)
    }
}

/// A mapping from variable names to values.
#[derive(Clone, Debug)]
pub struct Variables {
    bindings: Vec<(String, String)>,
}

impl View for Variables {
    type V = Map<Seq<char>, Seq<char>>;

    closed spec fn view(&self) -> Map<Seq<char>, Seq<char>> {
        bindings_map(self.bindings@)
    }
}

proof fn lemma_bindings_lookup(b: Seq<(String, String)>, k: Seq<char>, i: int)
    requires
        0 <= i < b.len(),
        b[i].0@ == k,
        forall|j: int| i < j < b.len() ==> b[j].0@ != k,
    ensures
        bindings_map(b).contains_key(k),
        bindings_map(b)[k] == b[i].1@,
    decreases b.len(),
{
    if i < b.len() - 1 {
        lemma_bindings_lookup(b.drop_last(), k, i);
    }
}

proof fn lemma_bindings_absent(b: Seq<(String, String)>, k: Seq<char>)
    requires
        forall|j: int| 0 <= j < b.len() ==> b[j].0@ != k,
    ensures
        !bindings_map(b).contains_key(k),
    decreases b.len(),
{
    if b.len() > 0 {
        lemma_bindings_absent(b.drop_last(), k);
    }
}

proof fn lemma_bindings_concat(a: Seq<(String, String)>, b: Seq<(String, String)>)
    ensures
        bindings_map(a + b) == bindings_map(a).union_prefer_right(bindings_map(b)),
    decreases b.len(),
{
    if b.len() == 0 {
        assert(a + b =~= a);
        assert(bindings_map(a).union_prefer_right(bindings_map(b)) =~= bindings_map(a));
    } else {
        assert((a + b).drop_last() =~= a + b.drop_last());
        lemma_bindings_concat(a, b.drop_last());
        assert(bindings_map(a + b) =~= bindings_map(a).union_prefer_right(bindings_map(b)));
    }
}

impl Variables {
    /// An empty store.
    pub fn new() -> (r: Variables)
        ensures
            r@ == Map::<Seq<char>, Seq<char>>::empty(),
    {
        Variables { bindings: Vec::new() }
    }

    /// Binds `name` to `value`, shadowing any earlier binding of `name`.
    pub fn insert(&mut self, name: String, value: String)
        ensures
            final(self)@ == old(self)@.insert(name@, value@),
    {
        self.bindings.push((name, value));
        proof {
            assert(self.bindings@.drop_last() =~= old(self).bindings@);
        }
    }

    /// The value bound to `name`, if any.
    pub fn get(&self, name: &str) -> (r: Option<String>)
        ensures
            match r {
                Some(v) => self@.contains_key(name@) && self@[name@] == v@,
                None => !self@.contains_key(name@),
            },
    {
        let mut i: usize = self.bindings.len();
        while i > 0
            invariant
                i <= self.bindings@.len(),
                forall|j: int| i <= j < self.bindings@.len() ==> self.bindings@[j].0@ != name@,
            decreases i,
        {
            i = i - 1;
            if str_eq(self.bindings[i].0.as_str(), name) {
                proof {
                    lemma_bindings_lookup(self.bindings@, name@, i as int);
                }
                return Some(self.bindings[i].1.clone());
            }
        }
        proof {
            lemma_bindings_absent(self.bindings@, name@);
        }
        None
    }

    /// Adds every binding of `other`; those of `other` win.
    pub fn extend(&mut self, other: &Variables)
        ensures
            final(self)@ == old(self)@.union_prefer_right(other@),
    {
        let mut i: usize = 0;
        while i < other.bindings.len()
            invariant
                i <= other.bindings@.len(),
                self.bindings@ == old(self).bindings@ + other.bindings@.take(i as int),
            decreases other.bindings@.len() - i,
        {
            let name = other.bindings[i].0.clone();
            let value = other.bindings[i].1.clone();
            self.bindings.push((name, value));
            i = i + 1;
            proof {
                assert(self.bindings@ =~= old(self).bindings@ + other.bindings@.take(i as int));
            }
        }
        proof {
            assert(other.bindings@.take(i as int) =~= other.bindings@);
            lemma_bindings_concat(old(self).bindings@, other.bindings@);
        }
    }

    /// A copy of the store.
    pub fn duplicate(&self) -> (r: Variables)
        ensures
            r@ == self@,
    {
        let mut r = Variables::new();
        r.extend(self);
        proof {
            assert(Map::<Seq<char>, Seq<char>>::empty().union_prefer_right(self@) =~= self@);
        }
        r
    }
}

/// Whether `t` occurs in `s` as a contiguous run.
pub open spec fn contains_seq(s: Seq<char>, t: Seq<char>) -> bool {
    exists|i: int| 0 <= i && i + t.len() <= s.len() && #[trigger] s.subrange(i, i + t.len()) == t
}

/// Whether a variable names a temporary file: its name contains `tempfile`.
pub open spec fn names_tempfile(name: Seq<char>) -> bool {
    contains_seq(name, "tempfile"@)
}

pub fn contains_str(s: &str, t: &str) -> (r: bool)
    ensures
        r == contains_seq(s@, t@),
{
    let a = crate::text::chars_of(s);
    let b = crate::text::chars_of(t);
    if b.len() > a.len() {
        return false;
    }
    let alen = a.len();
    let mut i: usize = 0;
    while i <= a.len() - b.len()
        invariant
            alen == a@.len(),
            a@ == s@,
            b@ == t@,
            b@.len() <= a@.len(),
            i <= a@.len() - b@.len() + 1,
            forall|k: int| 0 <= k < i ==> #[trigger] a@.subrange(k, k + b@.len()) != b@,
        decreases a@.len() + 1 - i,
    {
        let mut j: usize = 0;
        let mut same = true;
        while same && j < b.len()
            invariant
                alen == a@.len(),
                a@ == s@,
                b@ == t@,
                i + b@.len() <= a@.len(),
                j <= b@.len(),
                forall|m: int| 0 <= m < j ==> a@[i + m] == b@[m],
                !same ==> j < b@.len() && a@[i + j] != b@[j as int],
            decreases b@.len() - j + (if same { 1int } else { 0int }),
        {
            if a[i + j] != b[j] {
                same = false;
            } else {
                j = j + 1;
            }
        }
        if j == b.len() {
            proof {
                assert(a@.subrange(i as int, i + b@.len()) =~= b@);
            }
            return true;
        }
        proof {
            assert(a@.subrange(i as int, i + b@.len())[j as int] != b@[j as int]);
        }
        i = i + 1;
    }
    false
}

/// Access to a variable store, and the temporary files it names.
pub trait VariablesExt {
    spec fn vars_view(&self) -> Map<Seq<char>, Seq<char>>;

    fn as_map(&self) -> (r: &Variables)
        ensures
            r@ == self.vars_view(),
    ;

}

impl VariablesExt for Variables {
    open spec fn vars_view(&self) -> Map<Seq<char>, Seq<char>> {
        self@
    }

    fn as_map(&self) -> (r: &Variables) {
        self
    }
}

impl Variables {
    /// The values of the variables whose names contain `tempfile`.
    pub fn tempfile_paths(&self) -> (r: Vec<String>)
        ensures
            lists_tempfiles(self@, r@),
    {
        let mut r: Vec<String> = Vec::new();
        let ghost mut keys: Seq<Seq<char>> = Seq::empty();
        let n = self.bindings.len();
        let mut i: usize = 0;
        while i < n
            invariant
                n == self.bindings@.len(),
                i <= n,
                keys.len() == r@.len(),
                forall|m: int|
                    0 <= m < r@.len() ==> self@.contains_key(#[trigger] keys[m]) && names_tempfile(
                        keys[m],
                    ) && self@[keys[m]] == r@[m]@,
                forall|j: int|
                    0 <= j < i && is_last_binding(self.bindings@, j) && names_tempfile(
                        #[trigger] self.bindings@[j].0@,
                    ) ==> exists|m: int| 0 <= m < r@.len() && r@[m]@ == self.bindings@[j].1@,
            decreases n - i,
        {
            let name = &self.bindings[i].0;
            assert(name@ == self.bindings@[i as int].0@);
            let mut shadowed = false;
            let mut l: usize = i + 1;
            while l < n
                invariant
                    n == self.bindings@.len(),
                    i < l <= n,
                    name@ == self.bindings@[i as int].0@,
                    !shadowed ==> forall|q: int| i < q < l ==> self.bindings@[q].0@ != name@,
                    shadowed ==> !is_last_binding(self.bindings@, i as int),
                decreases n - l,
            {
                if str_eq(self.bindings[l].0.as_str(), name.as_str()) {
                    shadowed = true;
                    proof {
                        assert(self.bindings@[l as int].0@ == self.bindings@[i as int].0@);
                    }
                }
                l = l + 1;
            }
            let ghost old_r = r@;
            let tf = contains_str(name.as_str(), "tempfile");
            proof {
                reveal_strlit("tempfile");
            }
            if !shadowed && tf {
                proof {
                    lemma_bindings_lookup(self.bindings@, name@, i as int);
                    keys = keys.push(name@);
                }
                r.push(self.bindings[i].1.clone());
                proof {
                    assert(r@[r@.len() - 1]@ == self.bindings@[i as int].1@);
                }
            }
            proof {
                assert forall|j: int|
                    0 <= j < i + 1 && is_last_binding(self.bindings@, j) && names_tempfile(
                        #[trigger] self.bindings@[j].0@,
                    ) implies exists|m: int|
                    0 <= m < r@.len() && r@[m]@ == self.bindings@[j].1@ by {
                    if j < i {
                        let m = choose|m: int|
                            0 <= m < old_r.len() && old_r[m]@ == self.bindings@[j].1@;
                        assert(r@[m] == old_r[m]);
                    } else {
                        assert(r@[r@.len() - 1]@ == self.bindings@[i as int].1@);
                    }
                }
            }
            i = i + 1;
        }
        proof {
            assert forall|k: Seq<char>|
                self@.contains_key(k) && names_tempfile(k) implies exists|m: int|
                0 <= m < r@.len() && r@[m]@ == self@[k] by {
                lemma_bindings_has_last(self.bindings@, k);
                let j = choose|j: int|
                    0 <= j < n && self.bindings@[j].0@ == k && is_last_binding(self.bindings@, j);
                lemma_bindings_lookup(self.bindings@, k, j);
                assert(names_tempfile(self.bindings@[j].0@));
            }
            assert forall|m: int| 0 <= m < r@.len() implies is_tempfile_value(self@, #[trigger] r@[m]@) by {
                assert(self@.contains_key(keys[m]) && self@[keys[m]] == r@[m]@);
            }
        }
        r
    }
}

/// `v` is the value of a variable of `m` whose name contains `tempfile`.
pub open spec fn is_tempfile_value(m: Map<Seq<char>, Seq<char>>, v: Seq<char>) -> bool {
    exists|k: Seq<char>| m.contains_key(k) && names_tempfile(k) && m[k] == v
}

/// `r` lists the values of exactly those variables of `m` whose names
/// contain `tempfile`.
pub open spec fn lists_tempfiles(m: Map<Seq<char>, Seq<char>>, r: Seq<String>) -> bool {
    &&& forall|i: int| 0 <= i < r.len() ==> is_tempfile_value(m, #[trigger] r[i]@)
    &&& forall|k: Seq<char>|
        #![trigger m[k]]
        m.contains_key(k) && names_tempfile(k) ==> exists|i: int| 0 <= i < r.len() && r[i]@ == m[k]
}

impl Variables {
    /// The names that are bound, each once.
    pub fn names(&self) -> (r: Vec<String>)
        ensures
            forall|i: int| 0 <= i < r@.len() ==> self@.contains_key(#[trigger] r@[i]@),
            forall|k: Seq<char>|
                #![trigger self@.contains_key(k)]
                self@.contains_key(k) ==> exists|i: int| 0 <= i < r@.len() && r@[i]@ == k,
    {
        let mut r: Vec<String> = Vec::new();
        let n = self.bindings.len();
        let mut i: usize = 0;
        while i < n
            invariant
                n == self.bindings@.len(),
                i <= n,
                forall|m: int| 0 <= m < r@.len() ==> self@.contains_key(#[trigger] r@[m]@),
                forall|j: int|
                    0 <= j < i && is_last_binding(self.bindings@, j) ==> exists|m: int|
                        0 <= m < r@.len() && r@[m]@ == (#[trigger] self.bindings@[j]).0@,
            decreases n - i,
        {
            let name = &self.bindings[i].0;
            let mut shadowed = false;
            let mut l: usize = i + 1;
            while l < n
                invariant
                    n == self.bindings@.len(),
                    i < l <= n,
                    name@ == self.bindings@[i as int].0@,
                    !shadowed ==> forall|q: int| i < q < l ==> self.bindings@[q].0@ != name@,
                    shadowed ==> !is_last_binding(self.bindings@, i as int),
                decreases n - l,
            {
                if str_eq(self.bindings[l].0.as_str(), name.as_str()) {
                    shadowed = true;
                    proof {
                        assert(self.bindings@[l as int].0@ == self.bindings@[i as int].0@);
                    }
                }
                l = l + 1;
            }
            let ghost old_r = r@;
            if !shadowed {
                proof {
                    lemma_bindings_lookup(self.bindings@, name@, i as int);
                }
                r.push(name.clone());
            }
            proof {
                assert forall|j: int|
                    0 <= j < i + 1 && is_last_binding(self.bindings@, j) implies exists|m: int|
                    0 <= m < r@.len() && r@[m]@ == (#[trigger] self.bindings@[j]).0@ by {
                    if j < i {
                        let m = choose|m: int|
                            0 <= m < old_r.len() && old_r[m]@ == self.bindings@[j].0@;
                        assert(r@[m] == old_r[m]);
                    } else {
                        assert(r@[r@.len() - 1]@ == self.bindings@[i as int].0@);
                    }
                }
            }
            i = i + 1;
        }
        proof {
            assert forall|k: Seq<char>|
                #![trigger self@.contains_key(k)]
                self@.contains_key(k) implies exists|m: int| 0 <= m < r@.len() && r@[m]@ == k by {
                lemma_bindings_has_last(self.bindings@, k);
                let j = choose|j: int|
                    0 <= j < n && self.bindings@[j].0@ == k && is_last_binding(self.bindings@, j);
                assert(is_last_binding(self.bindings@, j) && self.bindings@[j].0@ == k);
            }
        }
        r
    }
}

/// Whether binding `j` is the last one of its name.
pub open spec fn is_last_binding(b: Seq<(String, String)>, j: int) -> bool {
    forall|l: int| j < l < b.len() ==> b[l].0@ != b[j].0@
}

proof fn lemma_bindings_has_last(b: Seq<(String, String)>, k: Seq<char>)
    requires
        bindings_map(b).contains_key(k),
    ensures
        exists|j: int| 0 <= j < b.len() && b[j].0@ == k && is_last_binding(b, j),
    decreases b.len(),
{
    if b.last().0@ == k {
        assert(b[b.len() - 1].0@ == k);
        assert(is_last_binding(b, b.len() - 1));
    } else {
        lemma_bindings_has_last(b.drop_last(), k);
        let j = choose|j: int|
            0 <= j < b.drop_last().len() && b.drop_last()[j].0@ == k && is_last_binding(
                b.drop_last(),
                j,
            );
        assert(b[j].0@ == k);
        assert forall|l: int| j < l < b.len() implies b[l].0@ != b[j].0@ by {
            if l < b.len() - 1 {
                assert(b.drop_last()[l] == b[l]);
            }
        }
        assert(is_last_binding(b, j));
    }
}

/// A store with a single binding.
pub fn single(name: &str, value: String) -> (r: Variables)
    ensures
        r@ == Map::<Seq<char>, Seq<char>>::empty().insert(name@, value@),
{
    let mut r = Variables::new();
    r.insert(string_from(name), value);
    r
}

} // verus!
