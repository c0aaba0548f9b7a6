//! Characters, strings and lines: the small text toolkit the rest of the
//! library is built on.

use vstd::prelude::*;

verus! {

/// Relies on `String::push`: the character is appended at the end.
pub assume_specification[ String::push ](s: &mut String, ch: char)
    ensures
        final(s)@ == old(s)@.push(ch),
;

/// Unicode's `White_Space` property, which `char::is_whitespace` tests.
pub open spec fn is_white(c: char) -> bool {
    ||| ('\u{9}' <= c && c <= '\u{d}')
    ||| c == ' '
    ||| c == '\u{85}'
    ||| c == '\u{a0}'
    ||| c == '\u{1680}'
    ||| ('\u{2000}' <= c && c <= '\u{200a}')
    ||| c == '\u{2028}'
    ||| c == '\u{2029}'
    ||| c == '\u{202f}'
    ||| c == '\u{205f}'
    ||| c == '\u{3000}'
}

pub fn is_whitespace(c: char) -> (r: bool)
    ensures
        r == is_white(c),
{
    ('\u{9}' <= c && c <= '\u{d}') || c == ' ' || c == '\u{85}' || c == '\u{a0}' || c == '\u{1680}'
        || ('\u{2000}' <= c && c <= '\u{200a}') || c == '\u{2028}' || c == '\u{2029}' || c
        == '\u{202f}' || c == '\u{205f}' || c == '\u{3000}'
}

/// `[A-Za-z0-9]`.
pub open spec fn is_ascii_alnum(c: char) -> bool {
    ('a' <= c && c <= 'z') || ('A' <= c && c <= 'Z') || ('0' <= c && c <= '9')
}

pub fn ascii_alnum(c: char) -> (r: bool)
    ensures
        r == is_ascii_alnum(c),
{
    ('a' <= c && c <= 'z') || ('A' <= c && c <= 'Z') || ('0' <= c && c <= '9')
}

/// The number of bytes that UTF-8 spends on a character.
pub open spec fn utf8_width(c: char) -> nat {
    if (c as u32) < 0x80 {
        1
    } else if (c as u32) < 0x800 {
        2
    } else if (c as u32) < 0x10000 {
        3
    } else {
        4
    }
}

/// The length in bytes of the UTF-8 encoding of a character sequence.
pub open spec fn utf8_len(s: Seq<char>) -> nat
    decreases s.len(),
{
    if s.len() == 0 {
        0
    } else {
        utf8_len(s.drop_last()) + utf8_width(s.last())
    }
}

pub fn char_width(c: char) -> (r: usize)
    ensures
        r == utf8_width(c),
{
    let u = c as u32;
    if u < 0x80 {
        1
    } else if u < 0x800 {
        2
    } else if u < 0x10000 {
        3
    } else {
        4
    }
}

pub proof fn lemma_utf8_len_take_step(s: Seq<char>, k: int)
    requires
        0 <= k < s.len(),
    ensures
        utf8_len(s.take(k + 1)) == utf8_len(s.take(k)) + utf8_width(s[k]),
{
    assert(s.take(k + 1).drop_last() =~= s.take(k));
}

pub proof fn lemma_utf8_len_monotone(s: Seq<char>, i: int, j: int)
    requires
        0 <= i <= j <= s.len(),
    ensures
        utf8_len(s.take(i)) + (j - i) <= utf8_len(s.take(j)),
    decreases j - i,
{
    if i < j {
        lemma_utf8_len_monotone(s, i, j - 1);
        lemma_utf8_len_take_step(s, j - 1);
    }
}

/// The number of UTF-8 bytes in the first `k` characters of `v`.
pub fn utf8_len_of_prefix(v: &Vec<char>, k: usize) -> (r: usize)
    requires
        k <= v@.len(),
        utf8_len(v@.take(k as int)) <= usize::MAX,
    ensures
        r == utf8_len(v@.take(k as int)),
{
    let mut acc: usize = 0;
    let mut i: usize = 0;
    while i < k
        invariant
            i <= k <= v@.len(),
            acc == utf8_len(v@.take(i as int)),
            utf8_len(v@.take(k as int)) <= usize::MAX,
        decreases k - i,
    {
        proof {
            lemma_utf8_len_take_step(v@, i as int);
            lemma_utf8_len_monotone(v@, i as int + 1, k as int);
        }
        acc = acc + char_width(v[i]);
        i = i + 1;
    }
    acc
}

/// Whether the UTF-8 encoding of `v` has a size that `usize` can count.
pub fn utf8_len_fits(v: &Vec<char>) -> (r: bool)
    ensures
        r == (utf8_len(v@) <= usize::MAX),
{
    let mut acc: usize = 0;
    let mut i: usize = 0;
    while i < v.len()
        invariant
            i <= v@.len(),
            acc == utf8_len(v@.take(i as int)),
        decreases v@.len() - i,
    {
        let w = char_width(v[i]);
        proof {
            lemma_utf8_len_take_step(v@, i as int);
            lemma_utf8_len_monotone(v@, i + 1, v@.len() as int);
            assert(v@.take(v@.len() as int) =~= v@);
        }
        if w > usize::MAX - acc {
            return false;
        }
        acc = acc + w;
        i = i + 1;
    }
    proof {
        assert(v@.take(i as int) =~= v@);
    }
    true
}

/// The number of characters, within `v` from `from` on, whose UTF-8
/// encoding takes exactly `b` bytes.
pub fn chars_for_bytes(v: &Vec<char>, from: usize, b: usize) -> (r: usize)
    requires
        from <= v@.len(),
        exists|t: int|
            0 <= t <= v@.len() - from && utf8_len(v@.subrange(from as int, v@.len() as int).take(t))
                == b,
    ensures
        r <= v@.len() - from,
        utf8_len(v@.subrange(from as int, v@.len() as int).take(r as int)) == b,
{
    let ghost h = v@.subrange(from as int, v@.len() as int);
    let ghost t = choose|t: int| 0 <= t <= v@.len() - from && utf8_len(h.take(t)) == b;
    let vlen = v.len();
    let mut j: usize = 0;
    let mut acc: usize = 0;
    proof {
        assert(h.take(0) =~= Seq::<char>::empty());
    }
    while acc < b
        invariant
            vlen == v@.len(),
            h == v@.subrange(from as int, v@.len() as int),
            from <= v@.len(),
            0 <= t <= h.len(),
            utf8_len(h.take(t)) == b,
            j <= t,
            acc == utf8_len(h.take(j as int)),
        decreases t - j,
    {
        proof {
            if j >= t {
                assert(j == t);
            }
            assert(j < t);
            lemma_utf8_len_take_step(h, j as int);
            lemma_utf8_len_monotone(h, j + 1, t);
        }
        acc = acc + char_width(v[from + j]);
        j = j + 1;
    }
    proof {
        if j < t {
            lemma_utf8_len_take_step(h, j as int);
            lemma_utf8_len_monotone(h, j + 1, t);
        }
    }
    j
}

/// Two prefixes of `s` with the same UTF-8 size are the same prefix.
pub proof fn lemma_utf8_len_injective(s: Seq<char>, i: int, j: int)
    requires
        0 <= i <= s.len(),
        0 <= j <= s.len(),
        utf8_len(s.take(i)) == utf8_len(s.take(j)),
    ensures
        i == j,
{
    if i < j {
        lemma_utf8_len_monotone(s, i + 1, j);
        lemma_utf8_len_take_step(s, i);
    } else if j < i {
        lemma_utf8_len_monotone(s, j + 1, i);
        lemma_utf8_len_take_step(s, j);
    }
}

/// A text has no more lines than characters.
pub proof fn lemma_lines_of_len(s: Seq<char>)
    ensures
        lines_of(s).len() <= s.len(),
    decreases s.len(),
{
    if s.len() > 0 && newline_pos(s) < s.len() {
        lemma_newline_pos_bound(s);
        lemma_lines_of_len(s.skip(newline_pos(s) + 1 as int));
    }
}

pub proof fn lemma_utf8_len_concat(a: Seq<char>, b: Seq<char>)
    ensures
        utf8_len(a + b) == utf8_len(a) + utf8_len(b),
    decreases b.len(),
{
    if b.len() > 0 {
        assert((a + b).drop_last() =~= a + b.drop_last());
        lemma_utf8_len_concat(a, b.drop_last());
    } else {
        assert(a + b =~= a);
    }
}

proof fn lemma_utf8_len_single(c: char)
    ensures
        utf8_len(seq![c]) == utf8_width(c),
{
    assert(seq![c].drop_last() =~= Seq::<char>::empty());
    assert(utf8_len(Seq::<char>::empty()) == 0);
    assert(seq![c].last() == c);
}

proof fn lemma_width_is_encoding_len(c: char)
    ensures
        utf8_width(c) == vstd::utf8::encode_scalar(c as u32).len(),
{
    vstd::utf8::char_is_scalar(c);
}

/// The UTF-8 size of the first `k` characters of `s` is a character
/// boundary of the encoding of `s`.
pub proof fn lemma_boundary(s: Seq<char>, k: int)
    requires
        0 <= k <= s.len(),
    ensures
        vstd::utf8::is_char_boundary(vstd::utf8::encode_utf8(s), utf8_len(s.take(k)) as int),
    decreases s.len(),
{
    vstd::utf8::encode_utf8_valid_utf8(s);
    if k > 0 {
        let bytes = vstd::utf8::encode_utf8(s);
        vstd::utf8::encode_utf8_first_scalar(s);
        assert(vstd::utf8::pop_first_scalar(bytes) =~= vstd::utf8::encode_utf8(s.drop_first()));
        lemma_width_is_encoding_len(s[0]);
        assert(s.take(k) =~= seq![s[0]] + s.drop_first().take(k - 1));
        lemma_utf8_len_concat(seq![s[0]], s.drop_first().take(k - 1));
        assert(seq![s[0]].drop_last() =~= Seq::<char>::empty());
        lemma_utf8_len_single(s[0]);
        lemma_boundary(s.drop_first(), k - 1);
        lemma_encode_len(s);
        lemma_utf8_len_monotone(s, k, s.len() as int);
        assert(s.take(s.len() as int) =~= s);
        let idx = utf8_len(s.take(k)) as int;
        assert(idx == utf8_width(s[0]) + utf8_len(s.drop_first().take(k - 1)));
        assert(vstd::utf8::is_char_boundary(
            vstd::utf8::pop_first_scalar(bytes),
            idx - vstd::utf8::length_of_first_scalar(bytes),
        ));
    }
}

/// `utf8_len` is the length of vstd's UTF-8 encoding.
pub proof fn lemma_encode_len(s: Seq<char>)
    ensures
        vstd::utf8::encode_utf8(s).len() == utf8_len(s),
    decreases s.len(),
{
    if s.len() > 0 {
        lemma_encode_len(s.drop_first());
        lemma_width_is_encoding_len(s[0]);
        assert(s =~= seq![s[0]] + s.drop_first());
        lemma_utf8_len_concat(seq![s[0]], s.drop_first());
        assert(seq![s[0]].drop_last() =~= Seq::<char>::empty());
        lemma_utf8_len_single(s[0]);
        assert(vstd::utf8::encode_utf8(s) == vstd::utf8::encode_scalar(s[0] as u32)
            + vstd::utf8::encode_utf8(s.drop_first()));
    }
}

/// The characters of a string, in order.
pub fn chars_of(s: &str) -> (r: Vec<char>)
    ensures
        r@ == s@,
{
    let mut r: Vec<char> = Vec::new();
    let mut it = s.chars();
    for c in iter: it
        invariant
            r@ == iter.history(),
    {
        r.push(c);
    }
    r
}

/// The string made of a run of characters.
pub fn string_of(v: &Vec<char>, start: usize, end: usize) -> (r: String)
    requires
        start <= end <= v@.len(),
    ensures
        r@ == v@.subrange(start as int, end as int),
{
    let mut r = String::new();
    let mut i: usize = start;
    while i < end
        invariant
            start <= i <= end <= v@.len(),
            r@ == v@.subrange(start as int, i as int),
        decreases end - i,
    {
        r.push(v[i]);
        i = i + 1;
    }
    r
}

/// Appends a string to another.
pub fn push_str(dst: &mut String, s: &str)
    ensures
        final(dst)@ == old(dst)@ + s@,
{
    let v = chars_of(s);
    let mut i: usize = 0;
    while i < v.len()
        invariant
            i <= v@.len(),
            v@ == s@,
            dst@ == old(dst)@ + s@.take(i as int),
        decreases v@.len() - i,
    {
        dst.push(v[i]);
        i = i + 1;
        proof {
            assert(s@.take(i as int) =~= s@.take(i - 1) .push(s@[i - 1]));
        }
    }
    proof {
        assert(s@.take(i as int) =~= s@);
    }
}

/// Builds a string from a literal.
pub fn string_from(s: &str) -> (r: String)
    ensures
        r@ == s@,
{
    let mut r = String::new();
    push_str(&mut r, s);
    r
}

/// Whether two strings hold the same characters.
pub fn str_eq(a: &str, b: &str) -> (r: bool)
    ensures
        r == (a@ == b@),
{
    let x = chars_of(a);
    let y = chars_of(b);
    if x.len() != y.len() {
        return false;
    }
    let mut i: usize = 0;
    while i < x.len()
        invariant
            i <= x@.len(),
            x@.len() == y@.len(),
            x@ == a@,
            y@ == b@,
            forall|j: int| 0 <= j < i ==> x@[j] == y@[j],
        decreases x@.len() - i,
    {
        if x[i] != y[i] {
            return false;
        }
        i = i + 1;
    }
    proof {
        assert(x@ =~= y@);
    }
    true
}

/// The decimal digit for `d`.
pub open spec fn digit_char(d: nat) -> char {
    if d == 0 {
        '0'
    } else if d == 1 {
        '1'
    } else if d == 2 {
        '2'
    } else if d == 3 {
        '3'
    } else if d == 4 {
        '4'
    } else if d == 5 {
        '5'
    } else if d == 6 {
        '6'
    } else if d == 7 {
        '7'
    } else if d == 8 {
        '8'
    } else {
        '9'
    }
}

/// The decimal notation of a natural number, without leading zeros.
pub open spec fn decimal(n: nat) -> Seq<char>
    decreases n,
{
    if n < 10 {
        seq![digit_char(n)]
    } else {
        decimal(n / 10).push(digit_char(n % 10))
    }
}

/// The decimal notation of an integer, with a leading `-` when it is negative.
pub open spec fn signed_decimal(n: int) -> Seq<char> {
    if n < 0 {
        seq!['-'] + decimal((-n) as nat)
    } else {
        decimal(n as nat)
    }
}

fn digit(d: u64) -> (r: char)
    requires
        d < 10,
    ensures
        r == digit_char(d as nat),
{
    if d == 0 {
        '0'
    } else if d == 1 {
        '1'
    } else if d == 2 {
        '2'
    } else if d == 3 {
        '3'
    } else if d == 4 {
        '4'
    } else if d == 5 {
        '5'
    } else if d == 6 {
        '6'
    } else if d == 7 {
        '7'
    } else if d == 8 {
        '8'
    } else {
        '9'
    }
}

/// Appends the decimal notation of `n`.
pub fn push_decimal(dst: &mut String, n: u64)
    ensures
        final(dst)@ == old(dst)@ + decimal(n as nat),
    decreases n,
{
    if n >= 10 {
        push_decimal(dst, n / 10);
    }
    dst.push(digit(n % 10));
}

/// Appends the decimal notation of a signed number.
pub fn push_signed_decimal(dst: &mut String, n: i64)
    ensures
        final(dst)@ == old(dst)@ + signed_decimal(n as int),
{
    if n < 0 {
        dst.push('-');
        let m: u64 = if n == i64::MIN {
            9223372036854775808u64
        } else {
            (-n) as u64
        };
        push_decimal(dst, m);
        proof {
            assert(old(dst)@.push('-') + decimal(m as nat) =~= old(dst)@ + (seq!['-'] + decimal(
                m as nat,
            )));
        }
    } else {
        push_decimal(dst, n as u64);
    }
}

/// The position of the first `'\n'` in `s`, or its length when there is none.
pub open spec fn newline_pos(s: Seq<char>) -> nat
    decreases s.len(),
{
    if s.len() == 0 {
        0
    } else if s[0] == '\n' {
        0
    } else {
        1 + newline_pos(s.drop_first())
    }
}

pub proof fn lemma_newline_pos(s: Seq<char>, k: int)
    requires
        0 <= k <= s.len(),
        forall|j: int| 0 <= j < k ==> s[j] != '\n',
        k == s.len() || s[k] == '\n',
    ensures
        newline_pos(s) == k,
    decreases k,
{
    if k > 0 {
        lemma_newline_pos(s.drop_first(), k - 1);
    }
}

/// The first position at or after `from` that holds a newline, or the end.
pub fn find_newline(v: &Vec<char>, from: usize) -> (r: usize)
    requires
        from <= v@.len(),
    ensures
        from <= r <= v@.len(),
        r == from + newline_pos(v@.skip(from as int)),
        r < v@.len() ==> v@[r as int] == '\n',
        forall|j: int| from <= j < r ==> v@[j] != '\n',
{
    let mut j: usize = from;
    while j < v.len() && v[j] != '\n'
        invariant
            from <= j <= v@.len(),
            forall|k: int| from <= k < j ==> v@[k] != '\n',
        decreases v@.len() - j,
    {
        j = j + 1;
    }
    proof {
        lemma_newline_pos(v@.skip(from as int), j - from);
    }
    j
}

/// A line without the carriage return that may end it.
pub open spec fn strip_cr(s: Seq<char>) -> Seq<char> {
    if s.len() > 0 && s.last() == '\r' {
        s.drop_last()
    } else {
        s
    }
}

/// The lines of a text, split at `'\n'` and each stripped of a final `'\r'`;
/// a newline at the very end opens no further line.
pub open spec fn lines_of(s: Seq<char>) -> Seq<Seq<char>>
    decreases s.len(),
{
    if s.len() == 0 {
        seq![]
    } else if newline_pos(s) >= s.len() {
        seq![strip_cr(s)]
    } else {
        seq![strip_cr(s.take(newline_pos(s) as int))] + lines_of(
            s.skip(newline_pos(s) + 1 as int),
        )
    }
}

pub proof fn lemma_newline_pos_bound(s: Seq<char>)
    ensures
        newline_pos(s) <= s.len(),
    decreases s.len(),
{
    if s.len() > 0 && s[0] != '\n' {
        lemma_newline_pos_bound(s.drop_first());
    }
}

/// The lines of a text, as in `lines_of`.
pub fn lines(v: &Vec<char>) -> (r: Vec<Vec<char>>)
    ensures
        r@.len() == lines_of(v@).len(),
        forall|i: int| 0 <= i < r@.len() ==> #[trigger] r@[i]@ == lines_of(v@)[i],
{
    let mut r: Vec<Vec<char>> = Vec::new();
    let mut i: usize = 0;
    proof {
        assert(v@.skip(0) =~= v@);
    }
    while i < v.len()
        invariant
            i <= v@.len(),
            forall|k: int| 0 <= k < r@.len() ==> #[trigger] r@[k]@ == lines_of(v@)[k],
            r@.len() + lines_of(v@.skip(i as int)).len() == lines_of(v@).len(),
            forall|k: int|
                0 <= k < lines_of(v@.skip(i as int)).len() ==> #[trigger] lines_of(
                    v@.skip(i as int),
                )[k] == lines_of(v@)[r@.len() + k],
        decreases v@.len() - i,
    {
        let ghost rest = v@.skip(i as int);
        let ghost old_r = r@;
        let j = find_newline(v, i);
        let mut end = j;
        if end > i && v[end - 1] == '\r' {
            end = end - 1;
        }
        let mut line: Vec<char> = Vec::new();
        let mut k: usize = i;
        while k < end
            invariant
                i <= k <= end <= v@.len(),
                line@ == v@.subrange(i as int, k as int),
            decreases end - k,
        {
            line.push(v[k]);
            k = k + 1;
        }
        let ghost n = newline_pos(rest);
        proof {
            assert(rest.take(n as int) =~= v@.subrange(i as int, j as int));
            assert(line@ == strip_cr(rest.take(n as int)));
        }
        r.push(line);
        if j < v.len() {
            i = j + 1;
            proof {
                assert(rest.skip(n + 1 as int) =~= v@.skip(i as int));
                assert(lines_of(rest) =~= seq![line@] + lines_of(v@.skip(i as int)));
            }
        } else {
            i = v.len();
            proof {
                assert(v@.skip(i as int) =~= Seq::<char>::empty());
                assert(rest.take(n as int) =~= rest);
                assert(lines_of(rest) =~= seq![line@] + lines_of(v@.skip(i as int)));
            }
        }
        proof {
            assert forall|k: int|
                0 <= k < lines_of(v@.skip(i as int)).len() implies #[trigger] lines_of(
                v@.skip(i as int),
            )[k] == lines_of(v@)[r@.len() + k] by {
                assert(lines_of(v@.skip(i as int))[k] == lines_of(rest)[k + 1]);
            }
            assert(r@[old_r.len() as int]@ == lines_of(rest)[0]);
        }
    }
    proof {
        assert(v@.skip(i as int) =~= Seq::<char>::empty());
    }
    r
}

/// `s` without its trailing whitespace.
pub open spec fn trim_end(s: Seq<char>) -> Seq<char>
    decreases s.len(),
{
    if s.len() > 0 && is_white(s.last()) {
        trim_end(s.drop_last())
    } else {
        s
    }
}

/// `s` without its leading whitespace.
pub open spec fn trim_start(s: Seq<char>) -> Seq<char>
    decreases s.len(),
{
    if s.len() > 0 && is_white(s[0]) {
        trim_start(s.drop_first())
    } else {
        s
    }
}

/// `s` without leading or trailing whitespace.
pub open spec fn trim(s: Seq<char>) -> Seq<char> {
    trim_end(trim_start(s))
}

proof fn lemma_trim_end_at(s: Seq<char>, e: int)
    requires
        0 <= e <= s.len(),
        forall|j: int| e <= j < s.len() ==> is_white(s[j]),
        e == 0 || !is_white(s[e - 1]),
    ensures
        trim_end(s) == s.take(e),
    decreases s.len(),
{
    if s.len() > e {
        lemma_trim_end_at(s.drop_last(), e);
        assert(s.drop_last().take(e) =~= s.take(e));
    } else {
        assert(s.take(e) =~= s);
    }
}

proof fn lemma_trim_start_at(s: Seq<char>, b: int)
    requires
        0 <= b <= s.len(),
        forall|j: int| 0 <= j < b ==> is_white(s[j]),
        b == s.len() || !is_white(s[b]),
    ensures
        trim_start(s) == s.skip(b),
    decreases b,
{
    if b > 0 {
        lemma_trim_start_at(s.drop_first(), b - 1);
        assert(s.drop_first().skip(b - 1) =~= s.skip(b));
    } else {
        assert(s.skip(0) =~= s);
    }
}

/// The bounds of `v[start..end]` once the whitespace at both of its ends is
/// left out.
pub fn trim_bounds(v: &Vec<char>, start: usize, end: usize) -> (r: (usize, usize))
    requires
        start <= end <= v@.len(),
    ensures
        start <= r.0 <= r.1 <= end,
        v@.subrange(r.0 as int, r.1 as int) == trim(v@.subrange(start as int, end as int)),
{
    let ghost s = v@.subrange(start as int, end as int);
    let mut b: usize = start;
    while b < end && is_whitespace(v[b])
        invariant
            start <= b <= end <= v@.len(),
            forall|j: int| start <= j < b ==> is_white(v@[j]),
        decreases end - b,
    {
        b = b + 1;
    }
    let mut e: usize = end;
    while e > b && is_whitespace(v[e - 1])
        invariant
            start <= b <= e <= end <= v@.len(),
            forall|j: int| e <= j < end ==> is_white(v@[j]),
        decreases e - b,
    {
        e = e - 1;
    }
    proof {
        lemma_trim_start_at(s, b - start);
        let t = s.skip(b - start);
        assert(t =~= v@.subrange(b as int, end as int));
        lemma_trim_end_at(t, e - b);
        assert(t.take(e - b) =~= v@.subrange(b as int, e as int));
    }
    (b, e)
}

/// The end of `v[start..end]` once its trailing whitespace is left out.
pub fn trim_end_bound(v: &Vec<char>, start: usize, end: usize) -> (r: usize)
    requires
        start <= end <= v@.len(),
    ensures
        start <= r <= end,
        v@.subrange(start as int, r as int) == trim_end(v@.subrange(start as int, end as int)),
{
    let mut e: usize = end;
    while e > start && is_whitespace(v[e - 1])
        invariant
            start <= e <= end <= v@.len(),
            forall|j: int| e <= j < end ==> is_white(v@[j]),
        decreases e - start,
    {
        e = e - 1;
    }
    proof {
        let s = v@.subrange(start as int, end as int);
        lemma_trim_end_at(s, e - start);
        assert(s.take(e - start) =~= v@.subrange(start as int, e as int));
    }
    e
}

/// Lines joined back together, with a `'\n'` between each two.
pub open spec fn join_lines(ls: Seq<Seq<char>>) -> Seq<char>
    decreases ls.len(),
{
    if ls.len() == 0 {
        seq![]
    } else if ls.len() == 1 {
        ls[0]
    } else {
        join_lines(ls.drop_last()) + seq!['\n'] + ls.last()
    }
}

} // verus!
