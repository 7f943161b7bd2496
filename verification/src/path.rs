//! Paths as text, with `/` as the separator: joining, and the file name,
//! stem and extension of the last component.

use vstd::prelude::*;

use crate::text::{chars_of, push_str, string_of_range};

verus! {

/// Index of the last occurrence of `c` in `s`.
pub open spec fn rfind_char(s: Seq<char>, c: char) -> Option<int>
    decreases s.len(),
{
    if s.len() == 0 {
        None
    } else if s.last() == c {
        Some(s.len() - 1)
    } else {
        rfind_char(s.drop_last(), c)
    }
}

/// What `rfind_char` returns: the last occurrence, or none at all.
pub proof fn lemma_rfind_char(s: Seq<char>, c: char)
    ensures
        rfind_char(s, c) matches Some(k) ==> 0 <= k < s.len() && s[k] == c && forall|j: int|
            k < j < s.len() ==> s[j] != c,
        rfind_char(s, c) is None ==> forall|j: int| 0 <= j < s.len() ==> s[j] != c,
    decreases s.len(),
{
    if s.len() > 0 && s.last() != c {
        lemma_rfind_char(s.drop_last(), c);
        assert forall|j: int| 0 <= j < s.len() - 1 implies s.drop_last()[j] == s[j] by {}
    }
}

/// A component that names nothing: empty (from repeated or trailing `/`) or `.`.
pub open spec fn is_empty_component(seg: Seq<char>) -> bool {
    seg.len() == 0 || seg == seq!['.']
}

/// The last component of `p` that names something, skipping empty and `.`
/// components.
#[verifier::opaque]
pub open spec fn last_component(p: Seq<char>) -> Option<Seq<char>>
    decreases p.len(),
{
    match rfind_char(p, '/') {
        Some(k) => {
            proof {
                lemma_rfind_char(p, '/');
            }
            let seg = p.skip(k + 1);
            if is_empty_component(seg) {
                last_component(p.take(k))
            } else {
                Some(seg)
            }
        },
        None => if is_empty_component(p) {
            None
        } else {
            Some(p)
        },
    }
}

/// `Path::file_name`: the last component, unless it is `..`.
pub open spec fn spec_file_name(p: Seq<char>) -> Option<Seq<char>> {
    match last_component(p) {
        Some(seg) => if seg == seq!['.', '.'] {
            None
        } else {
            Some(seg)
        },
        None => None,
    }
}

/// The stem of a file name: the text before its last `.`, unless that dot
/// is the first character or there is none.
pub open spec fn stem_of_name(name: Seq<char>) -> Seq<char> {
    match rfind_char(name, '.') {
        Some(k) => if k == 0 {
            name
        } else {
            name.take(k)
        },
        None => name,
    }
}

/// The extension of a file name: the text after its last `.`, unless that
/// dot is the first character or there is none.
pub open spec fn extension_of_name(name: Seq<char>) -> Option<Seq<char>> {
    match rfind_char(name, '.') {
        Some(k) => if k == 0 {
            None
        } else {
            Some(name.skip(k + 1))
        },
        None => None,
    }
}

/// `Path::file_stem`.
pub open spec fn spec_file_stem(p: Seq<char>) -> Option<Seq<char>> {
    match spec_file_name(p) {
        Some(name) => Some(stem_of_name(name)),
        None => None,
    }
}

/// The last component of a path is not empty and holds no `/`.
pub proof fn lemma_last_component_plain(p: Seq<char>)
    ensures
        last_component(p) matches Some(seg) ==> seg.len() > 0 && forall|i: int|
            0 <= i < seg.len() ==> seg[i] != '/',
    decreases p.len(),
{
    reveal(last_component);
    lemma_rfind_char(p, '/');
    match rfind_char(p, '/') {
        Some(k) => {
            let seg = p.skip(k + 1);
            if is_empty_component(seg) {
                lemma_last_component_plain(p.take(k));
            } else {
                assert forall|i: int| 0 <= i < seg.len() implies seg[i] != '/' by {
                    assert(seg[i] == p[k + 1 + i]);
                }
            }
        },
        None => {},
    }
}

/// A file stem is not empty and holds no `/`.
pub proof fn lemma_file_stem_plain(p: Seq<char>)
    ensures
        spec_file_stem(p) matches Some(st) ==> st.len() > 0 && forall|i: int|
            0 <= i < st.len() ==> st[i] != '/',
{
    lemma_last_component_plain(p);
    if let Some(name) = spec_file_name(p) {
        lemma_rfind_char(name, '.');
        match rfind_char(name, '.') {
            Some(k) => {
                if k > 0 {
                    assert forall|i: int| 0 <= i < k implies name.take(k)[i] != '/' by {
                        assert(name.take(k)[i] == name[i]);
                    }
                }
            },
            None => {},
        }
    }
}

/// `Path::extension`.
pub open spec fn spec_extension(p: Seq<char>) -> Option<Seq<char>> {
    match spec_file_name(p) {
        Some(name) => extension_of_name(name),
        None => None,
    }
}

/// `Path::join`: an absolute `rel` replaces `base`; otherwise a `/` is put
/// between them unless `base` is empty or already ends with one.
pub open spec fn spec_join(base: Seq<char>, rel: Seq<char>) -> Seq<char> {
    if rel.len() > 0 && rel[0] == '/' {
        rel
    } else if base.len() == 0 {
        rel
    } else if base.last() == '/' {
        base + rel
    } else {
        base + seq!['/'] + rel
    }
}

/// The last index in `lo..hi` that holds `c`.
fn rfind_char_range(v: &Vec<char>, lo: usize, hi: usize, c: char) -> (r: Option<usize>)
    requires
        lo <= hi <= v.len(),
    ensures
        rfind_char(v@.subrange(lo as int, hi as int), c) == match r {
            Some(k) => Some(k - lo),
            None => None::<int>,
        },
        r matches Some(k) ==> lo <= k < hi,
{
    let ghost s = v@.subrange(lo as int, hi as int);
    let mut b: usize = hi;
    while b > lo && v[b - 1] != c
        invariant
            lo <= b <= hi <= v.len(),
            forall|j: int| b <= j < hi ==> v@[j] != c,
        decreases b - lo,
    {
        b -= 1;
    }
    proof {
        lemma_rfind_char(s, c);
        assert forall|j: int| b - lo <= j < hi - lo implies s[j] != c by {
            assert(s[j] == v@[lo + j]);
        }
        if b > lo {
            assert(s[b - 1 - lo] == c);
        }
    }
    if b > lo {
        Some(b - 1)
    } else {
        None
    }
}

fn is_empty_component_range(v: &Vec<char>, lo: usize, hi: usize) -> (b: bool)
    requires
        lo <= hi <= v.len(),
    ensures
        b == is_empty_component(v@.subrange(lo as int, hi as int)),
{
    let ghost s = v@.subrange(lo as int, hi as int);
    if lo == hi {
        true
    } else if hi - lo == 1 && v[lo] == '.' {
        assert(s =~= seq!['.']);
        true
    } else {
        assert(s.len() == 1 ==> s[0] == v@[lo as int]);
        false
    }
}

/// The bounds of the last component of `v[0..hi]`.
fn last_component_range(v: &Vec<char>, hi: usize) -> (r: Option<(usize, usize)>)
    requires
        hi <= v.len(),
    ensures
        last_component(v@.subrange(0, hi as int)) == match r {
            Some((a, b)) => Some(v@.subrange(a as int, b as int)),
            None => None::<Seq<char>>,
        },
        r matches Some((a, b)) ==> a <= b <= hi,
    decreases hi,
{
    let ghost s = v@.subrange(0, hi as int);
    reveal(last_component);
    match rfind_char_range(v, 0, hi, '/') {
        Some(k) => {
            proof {
                lemma_rfind_char(s, '/');
                assert(s.skip(k + 1) =~= v@.subrange(k + 1, hi as int));
                assert(s.take(k as int) =~= v@.subrange(0, k as int));
            }
            if is_empty_component_range(v, k + 1, hi) {
                last_component_range(v, k)
            } else {
                Some((k + 1, hi))
            }
        },
        None => {
            if is_empty_component_range(v, 0, hi) {
                None
            } else {
                Some((0, hi))
            }
        },
    }
}

fn is_dotdot_range(v: &Vec<char>, lo: usize, hi: usize) -> (b: bool)
    requires
        lo <= hi <= v.len(),
    ensures
        b == (v@.subrange(lo as int, hi as int) == seq!['.', '.']),
{
    let ghost s = v@.subrange(lo as int, hi as int);
    if hi - lo == 2 && v[lo] == '.' && v[lo + 1] == '.' {
        assert(s =~= seq!['.', '.']);
        true
    } else {
        assert(s.len() == 2 ==> s[0] == v@[lo as int] && s[1] == v@[lo + 1]);
        assert(s != seq!['.', '.'] || (s.len() == 2 && s[0] == '.' && s[1] == '.'));
        false
    }
}

/// The bounds of the file name of `v`.
fn file_name_range(v: &Vec<char>) -> (r: Option<(usize, usize)>)
    ensures
        spec_file_name(v@) == match r {
            Some((a, b)) => Some(v@.subrange(a as int, b as int)),
            None => None::<Seq<char>>,
        },
        r matches Some((a, b)) ==> a <= b <= v.len(),
{
    let len = v.len();
    proof {
        assert(v@.subrange(0, len as int) =~= v@);
    }
    let lc = last_component_range(v, len);
    if let Some((a, b)) = lc {
        if is_dotdot_range(v, a, b) {
            return None;
        }
    }
    lc
}

/// `Path::new(p).file_name()`.
pub fn file_name(p: &str) -> (r: Option<String>)
    ensures
        match r {
            Some(s) => spec_file_name(p@) == Some(s@),
            None => spec_file_name(p@) is None,
        },
{
    let v = chars_of(p);
    match file_name_range(&v) {
        Some((a, b)) => Some(string_of_range(&v, a, b)),
        None => None,
    }
}

/// `Path::new(p).file_stem()`.
pub fn file_stem(p: &str) -> (r: Option<String>)
    ensures
        match r {
            Some(s) => spec_file_stem(p@) == Some(s@),
            None => spec_file_stem(p@) is None,
        },
{
    let v = chars_of(p);
    match file_name_range(&v) {
        Some((a, b)) => {
            let ghost name = v@.subrange(a as int, b as int);
            match rfind_char_range(&v, a, b, '.') {
                Some(k) => {
                    if k == a {
                        Some(string_of_range(&v, a, b))
                    } else {
                        assert(name.take(k - a) =~= v@.subrange(a as int, k as int));
                        Some(string_of_range(&v, a, k))
                    }
                },
                None => Some(string_of_range(&v, a, b)),
            }
        },
        None => None,
    }
}

/// `Path::new(p).extension()`.
pub fn extension(p: &str) -> (r: Option<String>)
    ensures
        match r {
            Some(s) => spec_extension(p@) == Some(s@),
            None => spec_extension(p@) is None,
        },
{
    let v = chars_of(p);
    match file_name_range(&v) {
        Some((a, b)) => {
            let ghost name = v@.subrange(a as int, b as int);
            match rfind_char_range(&v, a, b, '.') {
                Some(k) => {
                    if k == a {
                        None
                    } else {
                        assert(name.skip(k - a + 1) =~= v@.subrange(k + 1, b as int));
                        Some(string_of_range(&v, k + 1, b))
                    }
                },
                None => None,
            }
        },
        None => None,
    }
}

/// The file stem of `p`, or the empty string when it has none.
pub fn stem_or_empty(p: &str) -> (r: String)
    ensures
        r@ == match spec_file_stem(p@) {
            Some(s) => s,
            None => seq![],
        },
{
    match file_stem(p) {
        Some(s) => s,
        None => String::new(),
    }
}

/// `Path::new(base).join(rel)`.
pub fn join(base: &str, rel: &str) -> (r: String)
    ensures
        r@ == spec_join(base@, rel@),
{
    let b = chars_of(base);
    let t = chars_of(rel);
    if t.len() > 0 && t[0] == '/' {
        return rel.to_owned();
    }
    if b.len() == 0 {
        return rel.to_owned();
    }
    let mut r = base.to_owned();
    if b[b.len() - 1] != '/' {
        push_str(&mut r, "/");
        proof {
            reveal_strlit("/");
        }
    }
    push_str(&mut r, rel);
    r
}

} // verus!
