//! Characters and character sequences: white space, trimming, prefixes, and
//! the passage between `str` and vectors of characters.

use vstd::prelude::*;
use vstd::string::StrSliceExecFns;

verus! {

/// The views of the strings of `v`.
pub open spec fn string_views(v: Seq<String>) -> Seq<Seq<char>> {
    Seq::new(v.len(), |i: int| v[i]@)
}

/// Whether `c` is white space: one of the characters to which Unicode gives
/// the property `White_Space`.
pub open spec fn is_space(c: char) -> bool {
    let n = c as u32;
    ||| 0x09 <= n <= 0x0d
    ||| n == 0x20
    ||| n == 0x85
    ||| n == 0xa0
    ||| n == 0x1680
    ||| 0x2000 <= n <= 0x200a
    ||| n == 0x2028
    ||| n == 0x2029
    ||| n == 0x202f
    ||| n == 0x205f
    ||| n == 0x3000
}

/// `s` without its leading white space.
pub open spec fn trim_start(s: Seq<char>) -> Seq<char>
    decreases s.len(),
{
    if s.len() > 0 && is_space(s.first()) {
        trim_start(s.drop_first())
    } else {
        s
    }
}

/// `s` without its trailing white space.
pub open spec fn trim_end(s: Seq<char>) -> Seq<char>
    decreases s.len(),
{
    if s.len() > 0 && is_space(s.last()) {
        trim_end(s.drop_last())
    } else {
        s
    }
}

/// `s` without its leading and trailing white space.
pub open spec fn trim(s: Seq<char>) -> Seq<char> {
    trim_end(trim_start(s))
}

/// A line is blank when nothing but white space stands on it.
pub open spec fn is_blank(s: Seq<char>) -> bool {
    trim(s).len() == 0
}

/// Neither the first nor the last character of `s` is white space.
pub open spec fn is_trimmed(s: Seq<char>) -> bool {
    s.len() > 0 ==> !is_space(s.first()) && !is_space(s.last())
}

/// `trim_start` cuts a prefix of white space and stops at the first
/// character that is none.
pub proof fn lemma_trim_start(s: Seq<char>)
    ensures
        trim_start(s).len() <= s.len(),
        trim_start(s) == s.skip(s.len() - trim_start(s).len()),
        forall|i: int| 0 <= i < s.len() - trim_start(s).len() ==> is_space(#[trigger] s[i]),
        trim_start(s).len() > 0 ==> !is_space(trim_start(s).first()),
    decreases s.len(),
{
    if s.len() > 0 && is_space(s.first()) {
        let t = s.drop_first();
        lemma_trim_start(t);
        let d = t.len() - trim_start(t).len();
        assert(t.skip(d) == s.skip(d + 1));
        assert forall|i: int| 0 <= i < s.len() - trim_start(s).len() implies is_space(
            #[trigger] s[i],
        ) by {
            if i > 0 {
                assert(s[i] == t[i - 1]);
            }
        }
    } else {
        assert(s.skip(0) == s);
    }
}

/// `trim_end` cuts a suffix of white space and stops at the last character
/// that is none.
pub proof fn lemma_trim_end(s: Seq<char>)
    ensures
        trim_end(s).len() <= s.len(),
        trim_end(s) == s.take(trim_end(s).len() as int),
        forall|i: int| trim_end(s).len() <= i < s.len() ==> is_space(#[trigger] s[i]),
        trim_end(s).len() > 0 ==> !is_space(trim_end(s).last()),
    decreases s.len(),
{
    if s.len() > 0 && is_space(s.last()) {
        let t = s.drop_last();
        lemma_trim_end(t);
        let n = trim_end(t).len() as int;
        assert(t.take(n) == s.take(n));
        assert forall|i: int| trim_end(s).len() <= i < s.len() implies is_space(
            #[trigger] s[i],
        ) by {
            if i < t.len() {
                assert(s[i] == t[i]);
            }
        }
    } else {
        assert(s.take(s.len() as int) == s);
    }
}

/// What `trim` returns: a stretch of `s` between two runs of white space,
/// which neither begins nor ends with white space.
pub proof fn lemma_trim(s: Seq<char>)
    ensures
        is_trimmed(trim(s)),
        trim(s).len() <= s.len(),
        exists|a: int, b: int|
            0 <= a <= b <= s.len() && #[trigger] s.subrange(a, b) == trim(s) && (forall|i: int|
                0 <= i < a ==> is_space(#[trigger] s[i])) && (forall|i: int|
                b <= i < s.len() ==> is_space(#[trigger] s[i])),
{
    lemma_trim_start(s);
    let t = trim_start(s);
    lemma_trim_end(t);
    let a = s.len() - t.len();
    let b = a + trim_end(t).len();
    assert(s.subrange(a, b) == trim(s));
    assert forall|i: int| b <= i < s.len() implies is_space(#[trigger] s[i]) by {
        assert(s[i] == t[i - a]);
    }
    if trim(s).len() > 0 {
        assert(trim(s).first() == t.first());
    }
}

/// A stretch of `s` that is bounded by white space on both sides and is
/// itself trimmed is what `trim` returns.
pub proof fn lemma_trim_is(s: Seq<char>, a: int, b: int)
    requires
        0 <= a <= b <= s.len(),
        forall|i: int| 0 <= i < a ==> is_space(#[trigger] s[i]),
        forall|i: int| b <= i < s.len() ==> is_space(#[trigger] s[i]),
        is_trimmed(s.subrange(a, b)),
    ensures
        trim(s) == s.subrange(a, b),
    decreases s.len(),
{
    let m = s.subrange(a, b);
    if a > 0 {
        let t = s.drop_first();
        assert(is_space(s[0]));
        assert(t.subrange(a - 1, b - 1) == m);
        assert forall|i: int| b - 1 <= i < t.len() implies is_space(#[trigger] t[i]) by {
            assert(t[i] == s[i + 1]);
        }
        lemma_trim_is(t, a - 1, b - 1);
    } else if b < s.len() {
        let t = s.drop_last();
        assert(is_space(s[s.len() - 1]));
        assert(t.subrange(a, b) == m);
        if b == 0 {
            // nothing but white space: the front eats it all
            assert(is_space(s[0]));
            let u = s.drop_first();
            assert(u.subrange(0, 0) == m);
            assert forall|i: int| 0 <= i < u.len() implies is_space(#[trigger] u[i]) by {
                assert(u[i] == s[i + 1]);
            }
            lemma_trim_is(u, 0, 0);
        } else {
            assert(m.first() == s[0]);
            assert(trim_start(s) == s);
            assert(trim_start(t) == t) by {
                assert(t.first() == s[0]);
            }
            lemma_trim_is(t, a, b);
        }
    } else {
        assert(m == s);
    }
}

/// Trimming twice is trimming once.
pub proof fn lemma_trim_idempotent(s: Seq<char>)
    ensures
        trim(trim(s)) == trim(s),
{
    lemma_trim(s);
    let t = trim(s);
    assert(t.subrange(0, t.len() as int) == t);
    lemma_trim_is(t, 0, t.len() as int);
}

/// A sequence that is trimmed already is left as it is.
pub proof fn lemma_trim_of_trimmed(s: Seq<char>)
    requires
        is_trimmed(s),
    ensures
        trim(s) == s,
{
    assert(s.subrange(0, s.len() as int) == s);
    lemma_trim_is(s, 0, s.len() as int);
}

/// Whether `c` is white space.
pub fn is_whitespace(c: char) -> (r: bool)
    ensures
        r == is_space(c),
{
    let n: u32 = c as u32;
    (0x09 <= n && n <= 0x0d) || n == 0x20 || n == 0x85 || n == 0xa0 || n == 0x1680 || (0x2000 <= n
        && n <= 0x200a) || n == 0x2028 || n == 0x2029 || n == 0x202f || n == 0x205f || n == 0x3000
}

/// `String::push` of std appends one character at the end of the string and
/// leaves the characters before it as they were.
pub assume_specification[ String::push ](s: &mut String, c: char)
    ensures
        final(s)@ == old(s)@.push(c),
;

/// The characters of `s`, in order.
pub fn chars_of(s: &str) -> (v: Vec<char>)
    ensures
        v@ == s@,
{
    let mut v: Vec<char> = Vec::new();
    for c in it: s.chars()
        invariant
            it.seq() == s@,
            v@ == s@.take(it.index() as int),
    {
        v.push(c);
    }
    v
}

/// The string made of the characters of `v` from `from` up to `to`.
pub(crate) fn string_of(v: &Vec<char>, from: usize, to: usize) -> (s: String)
    requires
        from <= to <= v.len(),
    ensures
        s@ == v@.subrange(from as int, to as int),
{
    let mut s = String::new();
    let mut i: usize = from;
    while i < to
        invariant
            from <= i <= to <= v.len(),
            s@ == v@.subrange(from as int, i as int),
        decreases to - i,
    {
        s.push(v[i]);
        i += 1;
    }
    s
}

/// Where the trimmed part of `v[from..to]` begins and ends.
pub(crate) fn trim_range(v: &Vec<char>, from: usize, to: usize) -> (r: (usize, usize))
    requires
        from <= to <= v.len(),
    ensures
        from <= r.0 <= r.1 <= to,
        v@.subrange(r.0 as int, r.1 as int) == trim(v@.subrange(from as int, to as int)),
{
    let ghost s = v@.subrange(from as int, to as int);
    let mut a: usize = from;
    while a < to && is_whitespace(v[a])
        invariant
            from <= a <= to <= v.len(),
            s == v@.subrange(from as int, to as int),
            forall|i: int| 0 <= i < a - from ==> is_space(#[trigger] s[i]),
        decreases to - a,
    {
        a += 1;
    }
    let mut b: usize = to;
    while b > a && is_whitespace(v[b - 1])
        invariant
            from <= a <= b <= to <= v.len(),
            s == v@.subrange(from as int, to as int),
            forall|i: int| b - from <= i < s.len() ==> is_space(#[trigger] s[i]),
        decreases b,
    {
        b -= 1;
    }
    proof {
        let m = s.subrange(a - from, b - from);
        assert(m == v@.subrange(a as int, b as int));
        if m.len() > 0 {
            assert(m.first() == v@[a as int]);
            assert(m.last() == v@[b - 1]);
        }
        lemma_trim_is(s, a - from, b - from);
    }
    (a, b)
}

/// Whether nothing but white space stands in `s`.
pub fn is_blank_line(s: &str) -> (r: bool)
    ensures
        r == is_blank(s@),
{
    let v = chars_of(s);
    let (a, b) = trim_range(&v, 0, v.len());
    proof {
        assert(v@.subrange(0, v.len() as int) == v@);
    }
    a == b
}

/// Whether `v[from..to]` begins with the characters of `key`.
pub(crate) fn has_prefix(v: &Vec<char>, from: usize, to: usize, key: &str) -> (r: bool)
    requires
        from <= to <= v.len(),
    ensures
        r == key@.is_prefix_of(v@.subrange(from as int, to as int)),
{
    let k = chars_of(key);
    let ghost s = v@.subrange(from as int, to as int);
    if k.len() > to - from {
        return false;
    }
    let mut i: usize = 0;
    while i < k.len()
        invariant
            from <= to <= v.len(),
            k.len() <= to - from,
            i <= k.len(),
            k@ == key@,
            s == v@.subrange(from as int, to as int),
            k@.take(i as int) == s.take(i as int),
        decreases k.len() - i,
    {
        if k[i] != v[from + i] {
            proof {
                if key@.is_prefix_of(s) {
                    assert(s.subrange(0, key@.len() as int)[i as int] == key@[i as int]);
                }
            }
            return false;
        }
        proof {
            assert(s[i as int] == v@[from + i]);
            assert(k@.take(i + 1) == k@.take(i as int).push(k@[i as int]));
            assert(s.take(i + 1) == s.take(i as int).push(s[i as int]));
        }
        i += 1;
    }
    proof {
        assert(k@.take(k.len() as int) == k@);
    }
    true
}

/// Whether `v[..to]` ends with the characters of `key`.
pub(crate) fn has_suffix(v: &Vec<char>, to: usize, key: &str) -> (r: bool)
    requires
        to <= v.len(),
    ensures
        r == key@.is_suffix_of(v@.take(to as int)),
{
    let n = key.unicode_len();
    if n > to {
        return false;
    }
    proof {
        let s = v@.take(to as int);
        assert(s.subrange(to - n, to as int) == v@.subrange(to - n, to as int));
        assert(v@.subrange(to - n, to as int).subrange(0, n as int) == v@.subrange(
            to - n,
            to as int,
        ));
    }
    has_prefix(v, to - n, to, key)
}

/// Whether `a` and `b` hold the same characters.
pub fn same_text(a: &str, b: &str) -> (r: bool)
    ensures
        r == (a@ == b@),
{
    let v = chars_of(a);
    let n = b.unicode_len();
    proof {
        assert(v@.subrange(0, v.len() as int) == v@);
        if v.len() == n {
            assert(b@.subrange(0, n as int) == b@);
        }
    }
    v.len() == n && has_prefix(&v, 0, v.len(), b)
}

} // verus!
