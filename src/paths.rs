//! Paths as sequences of components, and the path of a test relative to the
//! places that tests were searched for.

use vstd::prelude::*;
use crate::config::Config;
use crate::text::{chars_of, push_str, string_of};

verus! {

/// The position of the first `/` in `s`, or its length.
pub open spec fn slash_pos(s: Seq<char>) -> nat
    decreases s.len(),
{
    if s.len() == 0 {
        0
    } else if s[0] == '/' {
        0
    } else {
        1 + slash_pos(s.drop_first())
    }
}

proof fn lemma_slash_pos(s: Seq<char>, k: int)
    requires
        0 <= k <= s.len(),
        forall|j: int| 0 <= j < k ==> s[j] != '/',
        k == s.len() || s[k] == '/',
    ensures
        slash_pos(s) == k,
    decreases k,
{
    if k > 0 {
        lemma_slash_pos(s.drop_first(), k - 1);
    }
}

/// A segment between slashes that names something: neither empty nor `.`.
pub open spec fn is_named(seg: Seq<char>) -> bool {
    seg.len() > 0 && seg != seq!['.']
}

/// The named segments of a path without its leading root.
pub open spec fn parts(s: Seq<char>) -> Seq<Seq<char>>
    decreases s.len(),
{
    if s.len() == 0 {
        seq![]
    } else {
        let p = slash_pos(s);
        let seg = s.take(p as int);
        let rest = if p < s.len() {
            parts(s.skip(p + 1 as int))
        } else {
            seq![]
        };
        if is_named(seg) {
            seq![seg] + rest
        } else {
            rest
        }
    }
}

/// The components of a path: the root `/` when it is absolute, then its
/// named segments.
pub open spec fn components(s: Seq<char>) -> Seq<Seq<char>> {
    if s.len() > 0 && s[0] == '/' {
        seq![seq!['/']] + parts(s.skip(1))
    } else {
        parts(s)
    }
}

/// The components of `s`.
pub fn path_components(s: &str) -> (r: Vec<Vec<char>>)
    ensures
        r@.len() == components(s@).len(),
        forall|i: int| 0 <= i < r@.len() ==> #[trigger] r@[i]@ == components(s@)[i],
{
    let v = chars_of(s);
    let mut r: Vec<Vec<char>> = Vec::new();
    let mut i: usize = 0;
    let ghost mut done: Seq<Seq<char>> = seq![];
    if v.len() > 0 && v[0] == '/' {
        let mut root: Vec<char> = Vec::new();
        root.push('/');
        r.push(root);
        i = 1;
        proof {
            done = seq![seq!['/']];
        }
    }
    proof {
        assert(v@.skip(0) =~= v@);
        assert(done + parts(v@.skip(i as int)) =~= components(s@));
    }
    while i < v.len()
        invariant
            v@ == s@,
            i <= v@.len(),
            r@.len() == done.len(),
            forall|k: int| 0 <= k < r@.len() ==> #[trigger] r@[k]@ == done[k],
            done + parts(v@.skip(i as int)) == components(s@),
        decreases v@.len() - i,
    {
        let ghost rest = v@.skip(i as int);
        let mut j: usize = i;
        while j < v.len() && v[j] != '/'
            invariant
                i <= j <= v@.len(),
                forall|k: int| i <= k < j ==> v@[k] != '/',
            decreases v@.len() - j,
        {
            j = j + 1;
        }
        proof {
            lemma_slash_pos(rest, j - i);
        }
        let seg = {
            let mut seg: Vec<char> = Vec::new();
            let mut k: usize = i;
            while k < j
                invariant
                    i <= k <= j <= v@.len(),
                    seg@ == v@.subrange(i as int, k as int),
                decreases j - k,
            {
                seg.push(v[k]);
                k = k + 1;
            }
            seg
        };
        proof {
            assert(seg@ =~= rest.take(j - i));
        }
        let named = seg.len() > 0 && !(seg.len() == 1 && seg[0] == '.');
        proof {
            if seg@.len() == 1 && seg@[0] == '.' {
                assert(seg@ =~= seq!['.']);
            }
            if seg@ == seq!['.'] {
                assert(seg@[0] == '.');
            }
            assert(named == is_named(seg@));
        }
        if named {
            r.push(seg);
            proof {
                done = done.push(seg@);
            }
        }
        let ghost i0 = i;
        let ghost d0 = if named { done.drop_last() } else { done };
        if j < v.len() {
            i = j + 1;
            proof {
                assert(rest.skip(j - i0 + 1) =~= v@.skip(i as int));
                assert(done + parts(v@.skip(i as int)) =~= d0 + parts(rest));
            }
        } else {
            i = v.len();
            proof {
                assert(v@.skip(i as int) =~= Seq::<char>::empty());
                assert(done + parts(v@.skip(i as int)) =~= d0 + parts(rest));
            }
        }
    }
    proof {
        assert(v@.skip(i as int) =~= Seq::<char>::empty());
        assert(done + seq![] =~= done);
    }
    r
}

/// `a` leads `b`, component by component.
pub open spec fn is_prefix_of(a: Seq<Seq<char>>, b: Seq<Seq<char>>) -> bool {
    a.len() <= b.len() && b.take(a.len() as int) == a
}

/// The configured path `j` contains the test.
pub open spec fn contains_test(test: Seq<char>, tps: Seq<String>, j: int) -> bool {
    0 <= j < tps.len() && is_prefix_of(components(tps[j]@), components(test))
}

/// Configured path `j` is the least specific one that contains the test:
/// the fewest components, and the first of those.
pub open spec fn is_least_specific(test: Seq<char>, tps: Seq<String>, j: int) -> bool {
    &&& contains_test(test, tps, j)
    &&& forall|k: int|
        #![trigger contains_test(test, tps, k)]
        contains_test(test, tps, k) ==> components(tps[j]@).len() <= components(tps[k]@).len()
            && (k < j ==> components(tps[j]@).len() < components(tps[k]@).len())
}

fn seq_eq(a: &Vec<char>, b: &Vec<char>) -> (r: bool)
    ensures
        r == (a@ == b@),
{
    if a.len() != b.len() {
        return false;
    }
    let mut i: usize = 0;
    while i < a.len()
        invariant
            a@.len() == b@.len(),
            i <= a@.len(),
            forall|k: int| 0 <= k < i ==> a@[k] == b@[k],
        decreases a@.len() - i,
    {
        if a[i] != b[i] {
            return false;
        }
        i = i + 1;
    }
    proof {
        assert(a@ =~= b@);
    }
    true
}

/// Whether the components `a` lead the components `b`.
fn leads(a: &Vec<Vec<char>>, b: &Vec<Vec<char>>) -> (r: bool)
    ensures
        r == is_prefix_of(a@.map_values(|c: Vec<char>| c@), b@.map_values(|c: Vec<char>| c@)),
{
    let ghost av = a@.map_values(|c: Vec<char>| c@);
    let ghost bv = b@.map_values(|c: Vec<char>| c@);
    if a.len() > b.len() {
        return false;
    }
    let mut i: usize = 0;
    while i < a.len()
        invariant
            av == a@.map_values(|c: Vec<char>| c@),
            bv == b@.map_values(|c: Vec<char>| c@),
            a@.len() <= b@.len(),
            i <= a@.len(),
            forall|k: int| 0 <= k < i ==> av[k] == bv[k],
        decreases a@.len() - i,
    {
        if !seq_eq(&a[i], &b[i]) {
            proof {
                assert(bv.take(av.len() as int)[i as int] != av[i as int]);
            }
            return false;
        }
        i = i + 1;
    }
    proof {
        assert(bv.take(av.len() as int) =~= av);
    }
    true
}

/// The components of a path, as values.
fn components_of(s: &str) -> (r: Vec<Vec<char>>)
    ensures
        r@.map_values(|c: Vec<char>| c@) == components(s@),
{
    let r = path_components(s);
    proof {
        assert(r@.map_values(|c: Vec<char>| c@) =~= components(s@));
    }
    r
}

/// The position of the least specific configured test path that contains
/// the test, if any does.
fn least_specific_index(test_absolute_path: &str, config: &Config) -> (r: Option<usize>)
    ensures
        match r {
            Some(j) => is_least_specific(test_absolute_path@, config.test_paths@, j as int),
            None => forall|k: int| !contains_test(test_absolute_path@, config.test_paths@, k),
        },
{
    let test = components_of(test_absolute_path);
    let tps = &config.test_paths;
    let mut best: Option<usize> = None;
    let mut best_len: usize = 0;
    let mut i: usize = 0;
    while i < tps.len()
        invariant
            i <= tps@.len(),
            tps == &config.test_paths,
            test@.map_values(|c: Vec<char>| c@) == components(test_absolute_path@),
            match best {
                Some(j) => j < i && contains_test(test_absolute_path@, tps@, j as int) && best_len
                    == components(tps@[j as int]@).len() && forall|k: int|
                    #![trigger contains_test(test_absolute_path@, tps@, k)]
                    0 <= k < i && contains_test(test_absolute_path@, tps@, k) ==> best_len
                        <= components(tps@[k]@).len() && (k < j ==> best_len < components(
                        tps@[k]@,
                    ).len()),
                None => forall|k: int|
                    #![trigger contains_test(test_absolute_path@, tps@, k)]
                    0 <= k < i ==> !contains_test(test_absolute_path@, tps@, k),
            },
        decreases tps@.len() - i,
    {
        let c = components_of(tps[i].as_str());
        if leads(&c, &test) {
            let better = match best {
                None => true,
                Some(_) => c.len() < best_len,
            };
            if better {
                best = Some(i);
                best_len = c.len();
            }
        }
        i = i + 1;
    }
    proof {
        if best is None {
            assert forall|k: int| !contains_test(test_absolute_path@, tps@, k) by {
                if 0 <= k < tps@.len() {
                    assert(!contains_test(test_absolute_path@, tps@, k));
                }
            }
        }
    }
    best
}

/// Finds the least specific test search path that contains the test.
pub fn least_specific_parent_test_search_directory_path(
    test_absolute_path: &str,
    config: &Config,
) -> (r: Option<String>)
    ensures
        match r {
            Some(p) => exists|j: int|
                is_least_specific(test_absolute_path@, config.test_paths@, j)
                    && #[trigger] config.test_paths@[j]@ == p@,
            None => forall|k: int| !contains_test(test_absolute_path@, config.test_paths@, k),
        },
{
    match least_specific_index(test_absolute_path, config) {
        Some(j) => Some(config.test_paths[j].clone()),
        None => None,
    }
}

/// The length of the longest common run that leads both `a` and `b`.
pub open spec fn common_len(a: Seq<Seq<char>>, b: Seq<Seq<char>>) -> nat
    decreases a.len(),
{
    if a.len() == 0 || b.len() == 0 || a[0] != b[0] {
        0
    } else {
        1 + common_len(a.drop_first(), b.drop_first())
    }
}

/// A component that `Path::file_name` would give: neither the root nor `..`.
pub open spec fn has_file_name(c: Seq<char>) -> bool {
    c != seq!['/'] && c != seq!['.', '.']
}

/// One step of the search for a common ancestor: `cur`, or the common
/// ancestor of `tp` and `cur` when `tp` lies outside `cur` and that ancestor
/// has a name.
pub open spec fn ancestor_step(cur: Seq<Seq<char>>, tp: Seq<Seq<char>>) -> Seq<Seq<char>> {
    if is_prefix_of(cur, tp) {
        cur
    } else {
        let k = common_len(tp, cur);
        if k > 0 && has_file_name(tp[k - 1]) {
            tp.take(k as int)
        } else {
            cur
        }
    }
}

/// The search for a common ancestor over the configured paths, in order.
pub open spec fn ancestor_fold(cur: Seq<Seq<char>>, tps: Seq<String>) -> Seq<Seq<char>>
    decreases tps.len(),
{
    if tps.len() == 0 {
        cur
    } else {
        ancestor_fold(ancestor_step(cur, components(tps[0]@)), tps.drop_first())
    }
}

/// The common ancestor of the test's directory and the configured paths, if
/// the search moved away from that directory.
pub open spec fn common_ancestor(test: Seq<char>, tps: Seq<String>) -> Option<Seq<Seq<char>>> {
    let tc = components(test);
    if tc.len() == 0 || (tc.len() == 1 && tc[0] == seq!['/']) {
        None
    } else {
        let init = tc.drop_last();
        let fin = ancestor_fold(init, tps);
        if fin != init {
            Some(fin)
        } else {
            None
        }
    }
}

fn common_length(a: &Vec<Vec<char>>, b: &Vec<Vec<char>>) -> (r: usize)
    ensures
        r == common_len(a@.map_values(|c: Vec<char>| c@), b@.map_values(|c: Vec<char>| c@)),
        r <= a@.len(),
        r <= b@.len(),
{
    let ghost av = a@.map_values(|c: Vec<char>| c@);
    let ghost bv = b@.map_values(|c: Vec<char>| c@);
    let mut i: usize = 0;
    proof {
        assert(av.skip(0) =~= av);
        assert(bv.skip(0) =~= bv);
    }
    while i < a.len() && i < b.len() && seq_eq(&a[i], &b[i])
        invariant
            av == a@.map_values(|c: Vec<char>| c@),
            bv == b@.map_values(|c: Vec<char>| c@),
            i <= a@.len(),
            i <= b@.len(),
            common_len(av, bv) == i + common_len(av.skip(i as int), bv.skip(i as int)),
        decreases a@.len() - i,
    {
        proof {
            assert(av.skip(i as int).drop_first() =~= av.skip(i + 1));
            assert(bv.skip(i as int).drop_first() =~= bv.skip(i + 1));
        }
        i = i + 1;
    }
    proof {
        if i < a@.len() && i < b@.len() {
            assert(av.skip(i as int)[0] != bv.skip(i as int)[0]);
        }
    }
    i
}

fn copy_chars(v: &Vec<char>) -> (r: Vec<char>)
    ensures
        r@ == v@,
{
    let mut r: Vec<char> = Vec::new();
    let mut i: usize = 0;
    while i < v.len()
        invariant
            i <= v@.len(),
            r@ == v@.take(i as int),
        decreases v@.len() - i,
    {
        r.push(v[i]);
        i = i + 1;
        proof {
            assert(r@ =~= v@.take(i as int));
        }
    }
    proof {
        assert(v@.take(i as int) =~= v@);
    }
    r
}

fn copy_components(c: &Vec<Vec<char>>, n: usize) -> (r: Vec<Vec<char>>)
    requires
        n <= c@.len(),
    ensures
        r@.map_values(|x: Vec<char>| x@) == c@.map_values(|x: Vec<char>| x@).take(n as int),
{
    let mut r: Vec<Vec<char>> = Vec::new();
    let mut i: usize = 0;
    while i < n
        invariant
            i <= n <= c@.len(),
            r@.len() == i,
            forall|k: int| 0 <= k < i ==> #[trigger] r@[k]@ == c@[k]@,
        decreases n - i,
    {
        let x = copy_chars(&c[i]);
        r.push(x);
        i = i + 1;
    }
    proof {
        assert(r@.map_values(|x: Vec<char>| x@) =~= c@.map_values(|x: Vec<char>| x@).take(
            n as int,
        ));
    }
    r
}

/// Finds the most common ancestor of the test's directory and the test paths.
fn most_common_test_path_ancestor_components(test_absolute_path: &str, config: &Config) -> (r:
    Option<Vec<Vec<char>>>)
    ensures
        match common_ancestor(test_absolute_path@, config.test_paths@) {
            Some(a) => r matches Some(v) && v@.map_values(|x: Vec<char>| x@) == a,
            None => r is None,
        },
{
    let tc = components_of(test_absolute_path);
    if tc.len() == 0 || (tc.len() == 1 && tc[0].len() == 1 && tc[0][0] == '/') {
        proof {
            if tc@.len() == 1 {
                let c0 = tc@.map_values(|c: Vec<char>| c@)[0];
                if tc@[0]@.len() == 1 && tc@[0]@[0] == '/' {
                    assert(c0 =~= seq!['/']);
                }
                if c0 == seq!['/'] {
                    assert(tc@[0]@[0] == '/');
                }
            }
        }
        return None;
    }
    proof {
        let c0 = tc@.map_values(|c: Vec<char>| c@)[0];
        if tc@.len() == 1 && c0 == seq!['/'] {
            assert(tc@[0]@[0] == '/');
        }
    }
    let init = copy_components(&tc, tc.len() - 1);
    let ghost initv = init@.map_values(|x: Vec<char>| x@);
    proof {
        assert(initv =~= components(test_absolute_path@).drop_last());
    }
    let mut cur = copy_components(&init, init.len());
    let tps = &config.test_paths;
    let mut i: usize = 0;
    proof {
        assert(init@.map_values(|x: Vec<char>| x@).take(init@.len() as int) =~= initv);
        assert(tps@.skip(0) =~= tps@);
    }
    while i < tps.len()
        invariant
            i <= tps@.len(),
            tps == &config.test_paths,
            ancestor_fold(initv, tps@) == ancestor_fold(
                cur@.map_values(|x: Vec<char>| x@),
                tps@.skip(i as int),
            ),
        decreases tps@.len() - i,
    {
        let tp = components_of(tps[i].as_str());
        let ghost curv = cur@.map_values(|x: Vec<char>| x@);
        let ghost tpv = components(tps@[i as int]@);
        proof {
            assert(tps@.skip(i as int).drop_first() =~= tps@.skip(i + 1));
        }
        if !leads(&cur, &tp) {
            let k = common_length(&tp, &cur);
            if k > 0 {
                let last = &tp[k - 1];
                let root = last.len() == 1 && last[0] == '/';
                let up = last.len() == 2 && last[0] == '.' && last[1] == '.';
                proof {
                    let lv = tpv[k - 1];
                    assert(lv == last@);
                    if lv == seq!['/'] {
                        assert(last@[0] == '/');
                    }
                    if lv == seq!['.', '.'] {
                        assert(last@[0] == '.' && last@[1] == '.');
                    }
                    if root {
                        assert(lv =~= seq!['/']);
                    }
                    if up {
                        assert(lv =~= seq!['.', '.']);
                    }
                }
                if !root && !up {
                    cur = copy_components(&tp, k);
                }
            }
        }
        i = i + 1;
    }
    proof {
        assert(tps@.skip(i as int) =~= Seq::<String>::empty());
    }
    if leads(&cur, &init) && cur.len() == init.len() {
        proof {
            assert(cur@.map_values(|x: Vec<char>| x@) =~= initv);
        }
        None
    } else {
        proof {
            let cv = cur@.map_values(|x: Vec<char>| x@);
            if cv == initv {
                assert(is_prefix_of(cv, initv)) by {
                    assert(initv.take(cv.len() as int) =~= cv);
                }
            }
        }
        Some(cur)
    }
}

/// Components joined with `/`.
pub open spec fn join_components(cs: Seq<Seq<char>>) -> Seq<char>
    decreases cs.len(),
{
    if cs.len() == 0 {
        seq![]
    } else if cs.len() == 1 {
        cs[0]
    } else {
        join_components(cs.drop_last()) + seq!['/'] + cs.last()
    }
}

fn join_from(c: &Vec<Vec<char>>, from: usize) -> (r: String)
    requires
        from <= c@.len(),
    ensures
        r@ == join_components(c@.map_values(|x: Vec<char>| x@).skip(from as int)),
{
    let ghost all = c@.map_values(|x: Vec<char>| x@).skip(from as int);
    let mut r = String::new();
    let mut i: usize = from;
    while i < c.len()
        invariant
            from <= i <= c@.len(),
            all == c@.map_values(|x: Vec<char>| x@).skip(from as int),
            r@ == join_components(all.take(i - from)),
        decreases c@.len() - i,
    {
        if i > from {
            r.push('/');
        }
        let s = string_of(&c[i], 0, c[i].len());
        push_str(&mut r, s.as_str());
        proof {
            assert(c@[i as int]@.subrange(0, c@[i as int]@.len() as int) =~= c@[i as int]@);
            assert(all.take(i + 1 - from).drop_last() =~= all.take(i - from));
            assert(all[i - from] == c@[i as int]@);
            if i == from {
                assert(r@ =~= all.take(1)[0]);
            }
        }
        i = i + 1;
    }
    proof {
        assert(all.take(i - from) =~= all);
    }
    r
}

/// The path of a test relative to where it was found: below the least
/// specific configured path that contains it, or else below the common
/// ancestor of the test and the configured paths.
pub open spec fn relative_path(test: Seq<char>, tps: Seq<String>) -> Option<Seq<char>> {
    let tc = components(test);
    if exists|j: int| contains_test(test, tps, j) {
        let j = choose|j: int| is_least_specific(test, tps, j);
        Some(join_components(tc.skip(components(tps[j]@).len() as int)))
    } else {
        match common_ancestor(test, tps) {
            Some(a) => if is_prefix_of(a, tc) {
                Some(join_components(tc.skip(a.len() as int)))
            } else {
                None
            },
            None => None,
        }
    }
}

proof fn lemma_least_specific_unique(test: Seq<char>, tps: Seq<String>, i: int, j: int)
    requires
        is_least_specific(test, tps, i),
        is_least_specific(test, tps, j),
    ensures
        components(tps[i]@).len() == components(tps[j]@).len(),
        i == j,
{
    assert(contains_test(test, tps, i));
    assert(contains_test(test, tps, j));
}

/// Computes the display path of a test.
pub fn compute(test_absolute_path: &str, config: &Config) -> (r: Option<String>)
    ensures
        match relative_path(test_absolute_path@, config.test_paths@) {
            Some(p) => r matches Some(s) && s@ == p,
            None => r is None,
        },
{
    let tc = components_of(test_absolute_path);
    match least_specific_index(test_absolute_path, config) {
        Some(j) => {
            let base = components_of(config.test_paths[j].as_str());
            proof {
                let c = choose|j: int|
                    is_least_specific(test_absolute_path@, config.test_paths@, j);
                lemma_least_specific_unique(test_absolute_path@, config.test_paths@, c, j as int);
            }
            let r = join_from(&tc, base.len());
            Some(r)
        },
        None => {
            match most_common_test_path_ancestor_components(test_absolute_path, config) {
                Some(a) => {
                    if leads(&a, &tc) {
                        Some(join_from(&tc, a.len()))
                    } else {
                        None
                    }
                },
                None => None,
            }
        },
    }
}

/// Finds the most common ancestor of the test's directory and the test
/// paths, as a path.
pub fn most_common_test_path_ancestor(test_absolute_path: &str, config: &Config) -> (r: Option<
    String,
>)
    ensures
        match common_ancestor(test_absolute_path@, config.test_paths@) {
            Some(a) => r matches Some(s) && (a.len() > 0 && a[0] == seq!['/'] ==> s@ == seq!['/']
                + join_components(a.skip(1))) && (!(a.len() > 0 && a[0] == seq!['/'])
                ==> s@ == join_components(a)),
            None => r is None,
        },
{
    match most_common_test_path_ancestor_components(test_absolute_path, config) {
        Some(a) => {
            if a.len() > 0 && a[0].len() == 1 && a[0][0] == '/' {
                let mut s = String::new();
                s.push('/');
                let rest = join_from(&a, 1);
                push_str(&mut s, rest.as_str());
                proof {
                    let av = a@.map_values(|x: Vec<char>| x@);
                    assert(av[0] =~= seq!['/']);
                }
                Some(s)
            } else {
                let r = join_from(&a, 0);
                proof {
                    let av = a@.map_values(|x: Vec<char>| x@);
                    assert(av.skip(0) =~= av);
                    if av.len() > 0 && av[0] == seq!['/'] {
                        assert(a@[0]@[0] == '/');
                    }
                }
                Some(r)
            }
        },
        None => None,
    }
}

} // verus!

