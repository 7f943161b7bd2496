//! Character-level helpers shared by the services: conversion between
//! `&str` and `Vec<char>`, Unicode whitespace, trimming, searching and the
//! splitting of text into lines and fields.
//!
//! Every exec helper works on a `Vec<char>` and a half-open range of it, and
//! is specified against the spec function of the same idea applied to
//! `v@.subrange(lo, hi)`.

use vstd::prelude::*;

verus! {

// ---------------------------------------------------------------------------
// Specifications
// ---------------------------------------------------------------------------

/// The Unicode `White_Space` property, which `char::is_whitespace` and
/// `str::trim` use.
pub open spec fn is_white_space(c: char) -> bool {
    ||| ('\u{9}' <= c && c <= '\u{d}')
    ||| c == ' '
    ||| c == '\u{85}'
    ||| c == '\u{a0}'
    ||| c == '\u{1680}'
    ||| ('\u{2000}' <= c && c <= '\u{200a}')
    ||| c == '\u{2028}'
    ||| c == '\u{2029}'
    ||| c == '\u{202f}'
    ||| c == '\u{205f}'
    ||| c == '\u{3000}'
}

/// The two classes of characters that the services trim: whitespace, or `#`.
pub open spec fn in_class(c: char, hash: bool) -> bool {
    if hash {
        c == '#'
    } else {
        is_white_space(c)
    }
}

/// `s` without its leading characters of the class.
pub open spec fn strip_start(s: Seq<char>, hash: bool) -> Seq<char>
    decreases s.len(),
{
    if s.len() > 0 && in_class(s[0], hash) {
        strip_start(s.drop_first(), hash)
    } else {
        s
    }
}

/// `s` without its trailing characters of the class.
pub open spec fn strip_end(s: Seq<char>, hash: bool) -> Seq<char>
    decreases s.len(),
{
    if s.len() > 0 && in_class(s.last(), hash) {
        strip_end(s.drop_last(), hash)
    } else {
        s
    }
}

/// `str::trim`: leading and trailing whitespace removed.
pub open spec fn trim(s: Seq<char>) -> Seq<char> {
    strip_end(strip_start(s, false), false)
}

/// `str::trim_matches('#')`: leading and trailing `#` removed.
pub open spec fn trim_hashes(s: Seq<char>) -> Seq<char> {
    strip_end(strip_start(s, true), true)
}

/// Some character of `s` is whitespace.
pub open spec fn has_white_space(s: Seq<char>) -> bool {
    exists|i: int| 0 <= i < s.len() && is_white_space(#[trigger] s[i])
}

/// Index of the first occurrence of `c` in `s`.
pub open spec fn find_char(s: Seq<char>, c: char) -> Option<int>
    decreases s.len(),
{
    if s.len() == 0 {
        None
    } else if s[0] == c {
        Some(0)
    } else {
        match find_char(s.drop_first(), c) {
            Some(k) => Some(k + 1),
            None => None,
        }
    }
}

/// Index of the first occurrence of the two-character pattern `a b` in `s`.
pub open spec fn find_pair(s: Seq<char>, a: char, b: char) -> Option<int>
    decreases s.len(),
{
    if s.len() < 2 {
        None
    } else if s[0] == a && s[1] == b {
        Some(0)
    } else {
        match find_pair(s.drop_first(), a, b) {
            Some(k) => Some(k + 1),
            None => None,
        }
    }
}

/// `s` begins with `p`.
pub open spec fn starts_with(s: Seq<char>, p: Seq<char>) -> bool {
    p.len() <= s.len() && s.take(p.len() as int) == p
}

/// `str::split(c)`: the fields between occurrences of `c`; never empty.
pub open spec fn split(s: Seq<char>, c: char) -> Seq<Seq<char>>
    decreases s.len(),
{
    match find_char(s, c) {
        Some(k) => {
            proof {
                lemma_find_char(s, c);
            }
            seq![s.take(k)] + split(s.skip(k + 1), c)
        },
        None => seq![s],
    }
}

/// A line that was ended by `\n` loses one trailing `\r`.
pub open spec fn strip_cr(line: Seq<char>) -> Seq<char> {
    if line.len() > 0 && line.last() == '\r' {
        line.drop_last()
    } else {
        line
    }
}

/// `str::lines`: split at `\n` (a `\r` right before it goes with it); a
/// final empty line is not a line.
pub open spec fn lines(s: Seq<char>) -> Seq<Seq<char>>
    decreases s.len(),
{
    if s.len() == 0 {
        seq![]
    } else {
        match find_char(s, '\n') {
            Some(k) => {
                proof {
                    lemma_find_char(s, '\n');
                }
                seq![strip_cr(s.take(k))] + lines(s.skip(k + 1))
            },
            None => seq![s],
        }
    }
}

/// The views of a sequence of strings.
pub open spec fn views(v: Seq<String>) -> Seq<Seq<char>> {
    v.map_values(|t: String| t@)
}

// ---------------------------------------------------------------------------
// Lemmas
// ---------------------------------------------------------------------------

/// What `find_char` returns: the first occurrence, or none at all.
pub proof fn lemma_find_char(s: Seq<char>, c: char)
    ensures
        find_char(s, c) matches Some(k) ==> 0 <= k < s.len() && s[k] == c && forall|j: int|
            0 <= j < k ==> s[j] != c,
        find_char(s, c) is None ==> forall|j: int| 0 <= j < s.len() ==> s[j] != c,
    decreases s.len(),
{
    if s.len() > 0 && s[0] != c {
        lemma_find_char(s.drop_first(), c);
        assert forall|j: int| 1 <= j < s.len() implies s[j] == s.drop_first()[j - 1] by {}
    }
}

/// What `find_pair` returns: the first occurrence, or none at all.
pub proof fn lemma_find_pair(s: Seq<char>, a: char, b: char)
    ensures
        find_pair(s, a, b) matches Some(k) ==> 0 <= k && k + 1 < s.len() && s[k] == a && s[k + 1]
            == b && forall|j: int| 0 <= j < k ==> !(#[trigger] s[j] == a && s[j + 1] == b),
        find_pair(s, a, b) is None ==> forall|j: int|
            0 <= j && j + 1 < s.len() ==> !(#[trigger] s[j] == a && s[j + 1] == b),
    decreases s.len(),
{
    if s.len() >= 2 && !(s[0] == a && s[1] == b) {
        lemma_find_pair(s.drop_first(), a, b);
        assert forall|j: int| 1 <= j < s.len() implies s[j] == s.drop_first()[j - 1] by {}
    }
}

// ---------------------------------------------------------------------------
// Exec helpers
// ---------------------------------------------------------------------------

/// Copies the characters of `s` into a vector.
pub fn chars_of(s: &str) -> (v: Vec<char>)
    ensures
        v@ == s@,
{
    let mut v: Vec<char> = Vec::new();
    for c in it: s.chars()
        invariant
            v@ == it.seq().take(it.index() as int),
            it.seq() == s@,
    {
        v.push(c);
    }
    v
}

/// Calls `String::push`; the contract claims that the string's characters
/// afterwards are the old ones followed by `c`.
#[verifier::external_body]
pub(crate) fn push_char(s: &mut String, c: char)
    ensures
        final(s)@ == old(s)@.push(c),
{
    s.push(c);
}

/// Calls `String::push_str`; the contract claims that the string's
/// characters afterwards are the old ones followed by those of `t`.
#[verifier::external_body]
pub(crate) fn push_str(s: &mut String, t: &str)
    ensures
        final(s)@ == old(s)@ + t@,
{
    s.push_str(t);
}

/// The characters `v[lo..hi]` as a `String`.
pub fn string_of_range(v: &Vec<char>, lo: usize, hi: usize) -> (r: String)
    requires
        lo <= hi <= v.len(),
    ensures
        r@ == v@.subrange(lo as int, hi as int),
{
    let mut r = String::new();
    let mut i: usize = lo;
    while i < hi
        invariant
            lo <= i <= hi <= v.len(),
            r@ == v@.subrange(lo as int, i as int),
        decreases hi - i,
    {
        push_char(&mut r, v[i]);
        i += 1;
        assert(r@ =~= v@.subrange(lo as int, i as int));
    }
    r
}

/// The characters of a vector as a `String`.
pub fn string_of_chars(v: &Vec<char>) -> (r: String)
    ensures
        r@ == v@,
{
    let r = string_of_range(v, 0, v.len());
    assert(v@.subrange(0, v@.len() as int) =~= v@);
    r
}

/// `char::is_whitespace`.
pub fn is_white_space_char(c: char) -> (b: bool)
    ensures
        b == is_white_space(c),
{
    ('\u{9}' <= c && c <= '\u{d}') || c == ' ' || c == '\u{85}' || c == '\u{a0}' || c
        == '\u{1680}' || ('\u{2000}' <= c && c <= '\u{200a}') || c == '\u{2028}' || c
        == '\u{2029}' || c == '\u{202f}' || c == '\u{205f}' || c == '\u{3000}'
}

fn in_class_char(c: char, hash: bool) -> (b: bool)
    ensures
        b == in_class(c, hash),
{
    if hash {
        c == '#'
    } else {
        is_white_space_char(c)
    }
}

/// The start of `strip_start(v[lo..hi])`.
pub fn strip_start_range(v: &Vec<char>, lo: usize, hi: usize, hash: bool) -> (a: usize)
    requires
        lo <= hi <= v.len(),
    ensures
        lo <= a <= hi,
        v@.subrange(a as int, hi as int) == strip_start(v@.subrange(lo as int, hi as int), hash),
{
    let mut a: usize = lo;
    while a < hi && in_class_char(v[a], hash)
        invariant
            lo <= a <= hi <= v.len(),
            strip_start(v@.subrange(a as int, hi as int), hash) == strip_start(
                v@.subrange(lo as int, hi as int),
                hash,
            ),
        decreases hi - a,
    {
        assert(v@.subrange(a as int, hi as int).drop_first() =~= v@.subrange(
            a + 1,
            hi as int,
        ));
        a += 1;
    }
    a
}

/// The end of `strip_end(v[lo..hi])`.
pub fn strip_end_range(v: &Vec<char>, lo: usize, hi: usize, hash: bool) -> (b: usize)
    requires
        lo <= hi <= v.len(),
    ensures
        lo <= b <= hi,
        v@.subrange(lo as int, b as int) == strip_end(v@.subrange(lo as int, hi as int), hash),
{
    let mut b: usize = hi;
    while b > lo && in_class_char(v[b - 1], hash)
        invariant
            lo <= b <= hi <= v.len(),
            strip_end(v@.subrange(lo as int, b as int), hash) == strip_end(
                v@.subrange(lo as int, hi as int),
                hash,
            ),
        decreases b - lo,
    {
        assert(v@.subrange(lo as int, b as int).drop_last() =~= v@.subrange(
            lo as int,
            b - 1,
        ));
        b -= 1;
    }
    b
}

/// The bounds of `trim(v[lo..hi])`.
pub fn trim_range(v: &Vec<char>, lo: usize, hi: usize) -> (r: (usize, usize))
    requires
        lo <= hi <= v.len(),
    ensures
        lo <= r.0 <= r.1 <= hi,
        v@.subrange(r.0 as int, r.1 as int) == trim(v@.subrange(lo as int, hi as int)),
{
    let a = strip_start_range(v, lo, hi, false);
    let b = strip_end_range(v, a, hi, false);
    (a, b)
}

/// The bounds of `trim_hashes(v[lo..hi])`.
pub fn trim_hashes_range(v: &Vec<char>, lo: usize, hi: usize) -> (r: (usize, usize))
    requires
        lo <= hi <= v.len(),
    ensures
        lo <= r.0 <= r.1 <= hi,
        v@.subrange(r.0 as int, r.1 as int) == trim_hashes(v@.subrange(lo as int, hi as int)),
{
    let a = strip_start_range(v, lo, hi, true);
    let b = strip_end_range(v, a, hi, true);
    (a, b)
}

/// Whether `v[lo..hi]` holds a whitespace character.
pub fn has_white_space_range(v: &Vec<char>, lo: usize, hi: usize) -> (b: bool)
    requires
        lo <= hi <= v.len(),
    ensures
        b == has_white_space(v@.subrange(lo as int, hi as int)),
{
    let ghost s = v@.subrange(lo as int, hi as int);
    let mut i: usize = lo;
    while i < hi
        invariant
            lo <= i <= hi <= v.len(),
            s == v@.subrange(lo as int, hi as int),
            forall|j: int| 0 <= j < i - lo ==> !is_white_space(#[trigger] s[j]),
        decreases hi - i,
    {
        if is_white_space_char(v[i]) {
            assert(is_white_space(s[i - lo]));
            return true;
        }
        i += 1;
    }
    false
}

/// The first index in `lo..hi` that holds `c`, or `hi`.
pub fn find_char_range(v: &Vec<char>, lo: usize, hi: usize, c: char) -> (q: usize)
    requires
        lo <= hi <= v.len(),
    ensures
        lo <= q <= hi,
        forall|j: int| lo <= j < q ==> v@[j] != c,
        q < hi ==> v@[q as int] == c,
        find_char(v@.subrange(lo as int, hi as int), c) == if q < hi {
            Some(q - lo)
        } else {
            None::<int>
        },
{
    let mut q: usize = lo;
    while q < hi && v[q] != c
        invariant
            lo <= q <= hi <= v.len(),
            forall|j: int| lo <= j < q ==> v@[j] != c,
        decreases hi - q,
    {
        q += 1;
    }
    let ghost s = v@.subrange(lo as int, hi as int);
    proof {
        lemma_find_char(s, c);
        assert forall|j: int| 0 <= j < q - lo implies s[j] != c by {
            assert(s[j] == v@[lo + j]);
        }
        if q < hi {
            assert(s[q - lo] == c);
        }
    }
    q
}

/// The first index `j` in `lo..hi-1` with `v[j] == a` and `v[j+1] == b`, or `hi`.
pub fn find_pair_range(v: &Vec<char>, lo: usize, hi: usize, a: char, b: char) -> (q: usize)
    requires
        lo <= hi <= v.len(),
    ensures
        lo <= q <= hi,
        q < hi ==> q + 1 < hi,
        find_pair(v@.subrange(lo as int, hi as int), a, b) == if q < hi {
            Some(q - lo)
        } else {
            None::<int>
        },
{
    let mut q: usize = lo;
    while q < hi && hi - q > 1 && !(v[q] == a && v[q + 1] == b)
        invariant
            lo <= q <= hi <= v.len(),
            forall|j: int| lo <= j < q ==> j + 1 < hi && !(#[trigger] v@[j] == a && v@[j + 1] == b),
        decreases hi - q,
    {
        q += 1;
    }
    let ghost s = v@.subrange(lo as int, hi as int);
    proof {
        lemma_find_pair(s, a, b);
        assert forall|j: int| 0 <= j < q - lo implies !(#[trigger] s[j] == a && s[j + 1] == b) by {
            assert(s[j] == v@[lo + j]);
            assert(s[j + 1] == v@[lo + j + 1]);
        }
        if q < hi && hi - q > 1 {
            assert(s[q - lo] == a && s[q - lo + 1] == b);
        }
    }
    if q < hi && hi - q > 1 {
        q
    } else {
        hi
    }
}

/// Whether `v[lo..hi]` begins with `p`.
pub fn starts_with_range(v: &Vec<char>, lo: usize, hi: usize, p: &Vec<char>) -> (b: bool)
    requires
        lo <= hi <= v.len(),
    ensures
        b == starts_with(v@.subrange(lo as int, hi as int), p@),
{
    let ghost s = v@.subrange(lo as int, hi as int);
    if p.len() > hi - lo {
        return false;
    }
    let mut i: usize = 0;
    while i < p.len()
        invariant
            p.len() <= hi - lo,
            lo <= hi <= v.len(),
            s == v@.subrange(lo as int, hi as int),
            0 <= i <= p.len(),
            forall|j: int| 0 <= j < i ==> s[j] == p@[j],
        decreases p.len() - i,
    {
        if v[lo + i] != p[i] {
            assert(s.take(p.len() as int)[i as int] != p@[i as int]);
            return false;
        }
        i += 1;
    }
    assert(s.take(p.len() as int) =~= p@);
    true
}

/// The first line of `v[p..]`: it is `v[p..e]`, and the next line starts
/// after index `q` (when `q` is not the end).
pub fn next_line(v: &Vec<char>, p: usize) -> (r: (usize, usize))
    requires
        p < v.len(),
    ensures
        p <= r.0 <= r.1 <= v.len(),
        lines(v@.subrange(p as int, v.len() as int)) == seq![v@.subrange(p as int, r.0 as int)]
            + if r.1 < v.len() {
            lines(v@.subrange(r.1 + 1, v.len() as int))
        } else {
            seq![]
        },
{
    let len = v.len();
    let q = find_char_range(v, p, len, '\n');
    let e = if q < len && q > p && v[q - 1] == '\r' {
        q - 1
    } else {
        q
    };
    let ghost s = v@.subrange(p as int, len as int);
    proof {
        if q < len {
            assert(s.take(q - p) =~= v@.subrange(p as int, q as int));
            assert(s.skip(q - p + 1) =~= v@.subrange(q + 1, len as int));
            assert(strip_cr(v@.subrange(p as int, q as int)) =~= v@.subrange(p as int, e as int));
        } else {
            assert(s =~= v@.subrange(p as int, e as int));
        }
    }
    (e, q)
}

/// The first field of `v[lo..hi]` split at `c`: it is `v[lo..q]`, and the
/// next field starts after `q` (when `q` is not `hi`).
pub fn next_field(v: &Vec<char>, lo: usize, hi: usize, c: char) -> (q: usize)
    requires
        lo <= hi <= v.len(),
    ensures
        lo <= q <= hi,
        split(v@.subrange(lo as int, hi as int), c) == seq![v@.subrange(lo as int, q as int)]
            + if q < hi {
            split(v@.subrange(q + 1, hi as int), c)
        } else {
            seq![]
        },
{
    let q = find_char_range(v, lo, hi, c);
    let ghost s = v@.subrange(lo as int, hi as int);
    proof {
        if q < hi {
            assert(s.take(q - lo) =~= v@.subrange(lo as int, q as int));
            assert(s.skip(q - lo + 1) =~= v@.subrange(q + 1, hi as int));
        } else {
            assert(s =~= v@.subrange(lo as int, q as int));
        }
    }
    q
}

/// Appending to a vector of strings appends to its views.
pub proof fn lemma_views_push(v: Seq<String>, s: String)
    ensures
        views(v.push(s)) == views(v).push(s@),
{
    assert(views(v.push(s)) =~= views(v).push(s@));
}

/// `p` occurs in `s` at index `i`.
pub open spec fn occurs_at(s: Seq<char>, p: Seq<char>, i: int) -> bool {
    0 <= i && i + p.len() <= s.len() && s.subrange(i, i + p.len()) == p
}

/// `str::contains` with a string pattern.
pub open spec fn contains_seq(s: Seq<char>, p: Seq<char>) -> bool {
    exists|i: int| occurs_at(s, p, i)
}

/// Whether two strings are equal.
pub fn str_eq(a: &str, b: &str) -> (r: bool)
    ensures
        r == (a@ == b@),
{
    let x = chars_of(a);
    let y = chars_of(b);
    if x.len() != y.len() {
        return false;
    }
    let mut i: usize = 0;
    while i < x.len()
        invariant
            x@ == a@,
            y@ == b@,
            x.len() == y.len(),
            i <= x.len(),
            forall|j: int| 0 <= j < i ==> x@[j] == y@[j],
        decreases x.len() - i,
    {
        if x[i] != y[i] {
            assert(x@[i as int] != y@[i as int]);
            return false;
        }
        i += 1;
    }
    assert(x@ =~= y@);
    true
}

/// Whether `p` occurs in `v[lo..hi]`.
pub fn contains_range(v: &Vec<char>, lo: usize, hi: usize, p: &Vec<char>) -> (r: bool)
    requires
        lo <= hi <= v.len(),
    ensures
        r == contains_seq(v@.subrange(lo as int, hi as int), p@),
{
    let ghost s = v@.subrange(lo as int, hi as int);
    if p.len() == 0 {
        assert(occurs_at(s, p@, 0)) by {
            assert(s.subrange(0, 0) =~= p@);
        }
        return true;
    }
    let mut i: usize = lo;
    while i < hi
        invariant
            lo <= i <= hi <= v.len(),
            p@.len() > 0,
            s == v@.subrange(lo as int, hi as int),
            forall|j: int| 0 <= j < i - lo ==> !occurs_at(s, p@, j),
        decreases hi - i,
    {
        if starts_with_range(v, i, hi, p) {
            assert(v@.subrange(i as int, hi as int).take(p@.len() as int) =~= s.subrange(
                i - lo,
                i - lo + p@.len(),
            ));
            assert(occurs_at(s, p@, i - lo));
            return true;
        }
        assert(!occurs_at(s, p@, i - lo)) by {
            if occurs_at(s, p@, i - lo) {
                assert(v@.subrange(i as int, hi as int).take(p@.len() as int) =~= s.subrange(
                    i - lo,
                    i - lo + p@.len(),
                ));
            }
        }
        i += 1;
    }
    assert forall|j: int| !occurs_at(s, p@, j) by {
        if 0 <= j < i - lo {
        }
    }
    false
}

/// `strip_start` keeps a suffix, which does not start with a stripped
/// character.
pub proof fn lemma_strip_start(s: Seq<char>, hash: bool)
    ensures
        strip_start(s, hash).len() <= s.len(),
        strip_start(s, hash) == s.skip(s.len() - strip_start(s, hash).len()),
        strip_start(s, hash).len() > 0 ==> !in_class(strip_start(s, hash)[0], hash),
    decreases s.len(),
{
    if s.len() > 0 && in_class(s[0], hash) {
        lemma_strip_start(s.drop_first(), hash);
        let r = strip_start(s.drop_first(), hash);
        assert(s.drop_first().skip(s.len() - 1 - r.len()) =~= s.skip(s.len() - r.len()));
    } else {
        assert(s.skip(0) =~= s);
    }
}

/// `strip_end` keeps a prefix, which does not end with a stripped
/// character.
pub proof fn lemma_strip_end(s: Seq<char>, hash: bool)
    ensures
        strip_end(s, hash).len() <= s.len(),
        strip_end(s, hash) == s.take(strip_end(s, hash).len() as int),
        strip_end(s, hash).len() > 0 ==> !in_class(strip_end(s, hash).last(), hash),
    decreases s.len(),
{
    if s.len() > 0 && in_class(s.last(), hash) {
        lemma_strip_end(s.drop_last(), hash);
        let r = strip_end(s.drop_last(), hash);
        assert(s.drop_last().take(r.len() as int) =~= s.take(r.len() as int));
    } else {
        assert(s.take(s.len() as int) =~= s);
    }
}

/// Trimmed text neither starts nor ends with whitespace.
pub proof fn lemma_trim_edges(s: Seq<char>)
    ensures
        trim(s).len() > 0 ==> !is_white_space(trim(s)[0]) && !is_white_space(trim(s).last()),
{
    lemma_strip_start(s, false);
    let a = strip_start(s, false);
    lemma_strip_end(a, false);
    let t = strip_end(a, false);
    if t.len() > 0 {
        assert(t[0] == a[0]);
    }
}

/// Trimming twice is trimming once.
pub proof fn lemma_trim_idempotent(s: Seq<char>)
    ensures
        trim(trim(s)) == trim(s),
{
    lemma_trim_edges(s);
    let t = trim(s);
    if t.len() > 0 {
        assert(strip_start(t, false) == t);
        assert(strip_end(t, false) == t);
    } else {
        assert(strip_start(t, false) == t);
        assert(strip_end(t, false) == t);
    }
}

proof fn lemma_strip_start_drop_last(x: Seq<char>)
    requires
        x.len() > 0,
        is_white_space(x.last()),
    ensures
        strip_start(x.drop_last(), false) == if strip_start(x, false).len() == 0 {
            Seq::<char>::empty()
        } else {
            strip_start(x, false).drop_last()
        },
    decreases x.len(),
{
    lemma_strip_start(x, false);
    if x.len() == 1 {
        assert(x.drop_last() =~= Seq::<char>::empty());
        assert(in_class(x[0], false));
        assert(strip_start(x, false) == strip_start(x.drop_first(), false));
        assert(x.drop_first() =~= Seq::<char>::empty());
    } else if in_class(x[0], false) {
        lemma_strip_start_drop_last(x.drop_first());
        assert(x.drop_last().drop_first() =~= x.drop_first().drop_last());
        assert(x.drop_first().last() == x.last());
    } else {
        assert(x.drop_last()[0] == x[0]);
    }
}

/// Dropping a trailing whitespace character does not change the trim.
pub proof fn lemma_trim_drop_trailing_space(x: Seq<char>)
    requires
        x.len() > 0,
        is_white_space(x.last()),
    ensures
        trim(x.drop_last()) == trim(x),
{
    lemma_strip_start_drop_last(x);
    lemma_strip_start(x, false);
    let y = strip_start(x, false);
    if y.len() > 0 {
        assert(y.last() == x.last());
        assert(strip_end(y, false) == strip_end(y.drop_last(), false));
    } else {
        assert(strip_end(Seq::<char>::empty(), false) == Seq::<char>::empty());
    }
}

} // verus!
