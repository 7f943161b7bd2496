//! Knowledge markers of a document: whole-line `#tag` lists and `[[target]]`
//! links, and the rows that indexing one document derives from it.

use vstd::prelude::*;

use crate::document::{invalid_path_of, rel_path_rejected, spec_title_from, DocumentService};
use crate::error::AppError;
use crate::path::{spec_file_stem, stem_or_empty};
use crate::text::{
    chars_of, find_char, find_pair, find_pair_range, has_white_space, has_white_space_range,
    is_white_space, lemma_find_char, lemma_views_push, lines, next_field, next_line, split,
    starts_with, starts_with_range, string_of_range, strip_cr, strip_start, strip_start_range,
    trim, trim_hashes, trim_hashes_range, trim_range, views,
};
use crate::vault::ends_with;

verus! {

// ---------------------------------------------------------------------------
// Specification of the markers
// ---------------------------------------------------------------------------

/// The tag that one comma-separated part of a tag line yields: the part
/// trimmed, stripped of `#` at both ends and trimmed again; kept when it is
/// not empty and holds no whitespace.
pub open spec fn tag_of_part(part: Seq<char>) -> Option<Seq<char>> {
    let tag = trim(trim_hashes(trim(part)));
    if tag.len() > 0 && !has_white_space(tag) {
        Some(tag)
    } else {
        None
    }
}

/// `Some(x)` as a one-element sequence, `None` as the empty one.
pub open spec fn opt_seq(o: Option<Seq<char>>) -> Seq<Seq<char>> {
    match o {
        Some(x) => seq![x],
        None => seq![],
    }
}

/// The tags of the parts, in order.
pub open spec fn tags_of_parts(parts: Seq<Seq<char>>) -> Seq<Seq<char>>
    decreases parts.len(),
{
    if parts.len() == 0 {
        seq![]
    } else {
        opt_seq(tag_of_part(parts[0])) + tags_of_parts(parts.drop_first())
    }
}

/// The tags of one line. A trimmed line that starts with `# ` is a heading;
/// one that starts with a single `#` is a tag line, whose text after that
/// `#` is split at commas.
pub open spec fn line_tags(line: Seq<char>) -> Seq<Seq<char>> {
    let t = trim(line);
    if starts_with(t, seq!['#', ' ']) {
        seq![]
    } else if t.len() > 0 && t[0] == '#' && !starts_with(t, seq!['#', '#']) {
        tags_of_parts(split(strip_start(t, true), ','))
    } else {
        seq![]
    }
}

/// The tags of the lines, in order.
pub open spec fn tags_of_lines(ls: Seq<Seq<char>>) -> Seq<Seq<char>>
    decreases ls.len(),
{
    if ls.len() == 0 {
        seq![]
    } else {
        line_tags(ls[0]) + tags_of_lines(ls.drop_first())
    }
}

/// All tags of a document, in the order of their lines.
pub open spec fn spec_tags(content: Seq<char>) -> Seq<Seq<char>> {
    tags_of_lines(lines(content))
}

/// The link that starts right after a `[[`: the text up to the first `]]`,
/// trimmed, if there is a `]]` and that text is not blank.
pub open spec fn link_at(rest: Seq<char>) -> Seq<Seq<char>> {
    match find_pair(rest, ']', ']') {
        Some(e) => {
            let t = trim(rest.take(e));
            if t.len() > 0 {
                seq![t]
            } else {
                seq![]
            }
        },
        None => seq![],
    }
}

/// The links of a text: for every `[[` found scanning left to right (a match
/// consumes its two characters), the link that follows it.
pub open spec fn spec_links(s: Seq<char>) -> Seq<Seq<char>>
    decreases s.len(),
{
    if s.len() < 2 {
        seq![]
    } else if s[0] == '[' && s[1] == '[' {
        link_at(s.skip(2)) + spec_links(s.skip(2))
    } else {
        spec_links(s.drop_first())
    }
}

// ---------------------------------------------------------------------------
// Types
// ---------------------------------------------------------------------------

/// Extracted knowledge markers: `#tag` on its own line and `[[target]]` links.
#[derive(Debug, Clone)]
pub struct DocumentMarkers {
    pub tags: Vec<String>,
    pub links: Vec<String>,
}

/// The rows that indexing one document writes: its tags, its links and its
/// full-text entry (title and body).
#[derive(Debug, Clone)]
pub struct IndexRows {
    pub rel_path: String,
    pub tags: Vec<String>,
    pub links: Vec<String>,
    pub title: String,
    pub body: String,
}

/// Derives tags, links and full-text rows for documents.
pub struct IndexService;

// ---------------------------------------------------------------------------
// Tag extraction
// ---------------------------------------------------------------------------

/// Pushes the tag of the part `v[lo..hi]`, if it has one.
fn push_part_tag(v: &Vec<char>, lo: usize, hi: usize, tags: &mut Vec<String>)
    requires
        lo <= hi <= v.len(),
    ensures
        views(final(tags)@) == views(old(tags)@) + opt_seq(
            tag_of_part(v@.subrange(lo as int, hi as int)),
        ),
{
    let (a1, b1) = trim_range(v, lo, hi);
    let (a2, b2) = trim_hashes_range(v, a1, b1);
    let (a3, b3) = trim_range(v, a2, b2);
    if a3 < b3 && !has_white_space_range(v, a3, b3) {
        let t = string_of_range(v, a3, b3);
        proof {
            lemma_views_push(tags@, t);
        }
        tags.push(t);
    } else {
        assert(views(tags@) =~= views(tags@) + seq![]);
    }
}

/// Pushes the tags of the line `v[lo..hi]`.
fn push_line_tags(v: &Vec<char>, lo: usize, hi: usize, tags: &mut Vec<String>)
    requires
        lo <= hi <= v.len(),
    ensures
        views(final(tags)@) == views(old(tags)@) + line_tags(v@.subrange(lo as int, hi as int)),
{
    let ghost tags0 = views(tags@);
    let (a, b) = trim_range(v, lo, hi);
    let hash_space = vec!['#', ' '];
    let hash_hash = vec!['#', '#'];
    assert(hash_space@ =~= seq!['#', ' ']);
    assert(hash_hash@ =~= seq!['#', '#']);
    if starts_with_range(v, a, b, &hash_space) {
        assert(views(tags@) =~= tags0 + seq![]);
        return;
    }
    if !(a < b && v[a] == '#' && !starts_with_range(v, a, b, &hash_hash)) {
        assert(views(tags@) =~= tags0 + seq![]);
        return;
    }
    let c = strip_start_range(v, a, b, true);
    let mut f = c;
    let mut done = false;
    while !done
        invariant
            c <= f <= b <= v.len(),
            tags0 + tags_of_parts(split(v@.subrange(c as int, b as int), ',')) == views(tags@)
                + if done {
                seq![]
            } else {
                tags_of_parts(split(v@.subrange(f as int, b as int), ','))
            },
        decreases b - f + if done {
            0int
        } else {
            1int
        },
    {
        let ghost before = views(tags@);
        let g = next_field(v, f, b, ',');
        push_part_tag(v, f, g, tags);
        let ghost rest = if g < b {
            split(v@.subrange(g + 1, b as int), ',')
        } else {
            seq![]
        };
        let ghost parts = split(v@.subrange(f as int, b as int), ',');
        assert(parts.drop_first() =~= rest);
        if g < b {
            f = g + 1;
        } else {
            assert(tags_of_parts(rest) == Seq::<Seq<char>>::empty());
            done = true;
        }
        assert(before + tags_of_parts(parts) =~= views(tags@) + tags_of_parts(rest));
    }
    assert(views(tags@) =~= views(tags@) + Seq::<Seq<char>>::empty());
}

fn collect_tags(v: &Vec<char>) -> (tags: Vec<String>)
    ensures
        views(tags@) == spec_tags(v@),
{
    let len = v.len();
    let mut tags: Vec<String> = Vec::new();
    let mut p: usize = 0;
    assert(v@.subrange(0, len as int) =~= v@);
    assert(views(tags@) =~= Seq::<Seq<char>>::empty());
    while p < len
        invariant
            p <= len == v.len(),
            spec_tags(v@) == views(tags@) + tags_of_lines(
                lines(v@.subrange(p as int, len as int)),
            ),
        decreases len - p,
    {
        let ghost before = views(tags@);
        let (e, q) = next_line(v, p);
        push_line_tags(v, p, e, &mut tags);
        let ghost rest = if q < len {
            lines(v@.subrange(q + 1, len as int))
        } else {
            seq![]
        };
        let ghost ls = lines(v@.subrange(p as int, len as int));
        assert(ls.drop_first() =~= rest);
        if q < len {
            p = q + 1;
        } else {
            p = len;
            assert(lines(v@.subrange(p as int, len as int)) =~= rest);
        }
        assert(before + tags_of_lines(ls) =~= views(tags@) + tags_of_lines(rest));
    }
    assert(views(tags@) =~= views(tags@) + Seq::<Seq<char>>::empty());
    tags
}

// ---------------------------------------------------------------------------
// Link extraction
// ---------------------------------------------------------------------------

fn collect_links(v: &Vec<char>) -> (links: Vec<String>)
    ensures
        views(links@) == spec_links(v@),
{
    let len = v.len();
    let mut links: Vec<String> = Vec::new();
    let mut i: usize = 0;
    assert(v@.subrange(0, len as int) =~= v@);
    assert(views(links@) =~= Seq::<Seq<char>>::empty());
    while i < len
        invariant
            i <= len == v.len(),
            spec_links(v@) == views(links@) + spec_links(v@.subrange(i as int, len as int)),
        decreases len - i,
    {
        let ghost s = v@.subrange(i as int, len as int);
        let ghost before = views(links@);
        if len - i >= 2 && v[i] == '[' && v[i + 1] == '[' {
            let start = i + 2;
            let e = find_pair_range(v, start, len, ']', ']');
            let ghost rest = v@.subrange(start as int, len as int);
            assert(s.skip(2) =~= rest);
            if e < len {
                assert(rest.take(e - start) =~= v@.subrange(start as int, e as int));
                let (a, b) = trim_range(v, start, e);
                if a < b {
                    let t = string_of_range(v, a, b);
                    proof {
                        lemma_views_push(links@, t);
                    }
                    links.push(t);
                }
            }
            assert(before + link_at(rest) =~= views(links@));
            i = start;
        } else {
            if len - i >= 2 {
                assert(s.drop_first() =~= v@.subrange(i + 1, len as int));
            } else {
                assert(spec_links(v@.subrange(i + 1, len as int)) =~= Seq::<Seq<char>>::empty());
            }
            i = i + 1;
        }
    }
    assert(views(links@) =~= views(links@) + Seq::<Seq<char>>::empty());
    links
}

/// The paths that may be indexed: those that meet the path rule and name a
/// `.md` document.
pub open spec fn indexable(rel_path: Seq<char>) -> bool {
    !rel_path_rejected(rel_path) && ends_with(rel_path, ".md"@)
}

impl IndexService {
    /// Whether the document at `rel_path` may be indexed; any other path
    /// gives `InvalidPath`.
    pub fn check_indexable(rel_path: &str) -> (r: Result<(), AppError>)
        ensures
            r is Ok <==> indexable(rel_path@),
            r matches Err(e) ==> invalid_path_of(e, rel_path@),
    {
        DocumentService::validate_rel_path(rel_path)?;
        let v = chars_of(rel_path);
        let n = v.len();
        proof {
            reveal_strlit(".md");
        }
        let md = n >= 3 && v[n - 3] == '.' && v[n - 2] == 'm' && v[n - 1] == 'd';
        assert(md == ends_with(rel_path@, ".md"@)) by {
            assert(".md"@ =~= seq!['.', 'm', 'd']);
            if n >= 3 {
                let tail = rel_path@.skip(n - 3);
                assert(tail =~= seq![v@[n - 3], v@[n - 2], v@[n - 1]]);
                if tail == ".md"@ {
                    assert(tail[0] == '.' && tail[1] == 'm' && tail[2] == 'd');
                }
            }
        }
        if md {
            Ok(())
        } else {
            Err(AppError::InvalidPath(rel_path.to_owned()))
        }
    }

    /// The tags and links of a document. Tags come from whole lines: a line
    /// that, trimmed, starts with one `#` (not a `# ` heading) lists
    /// comma-separated tags. Links are the trimmed texts between `[[` and the
    /// next `]]`, in order of appearance.
    pub fn extract_markers(content: &str) -> (m: DocumentMarkers)
        ensures
            views(m.tags@) == spec_tags(content@),
            views(m.links@) == spec_links(content@),
    {
        let v = chars_of(content);
        let tags = collect_tags(&v);
        let links = collect_links(&v);
        DocumentMarkers { tags, links }
    }

    /// The rows that indexing `content` under `rel_path` writes: its tags,
    /// its links, and a full-text entry titled by its first heading (or its
    /// file stem). Writing them replaces the document's earlier rows.
    pub fn index_rows(rel_path: &str, content: &str) -> (r: IndexRows)
        ensures
            r.rel_path@ == rel_path@,
            views(r.tags@) == spec_tags(content@),
            views(r.links@) == spec_links(content@),
            r.title@ == spec_title_from(
                content@,
                match spec_file_stem(rel_path@) {
                    Some(s) => s,
                    None => seq![],
                },
            ),
            r.body@ == content@,
    {
        let m = Self::extract_markers(content);
        let stem = stem_or_empty(rel_path);
        let title = DocumentService::title_from(content, stem.as_str());
        IndexRows {
            rel_path: rel_path.to_owned(),
            tags: m.tags,
            links: m.links,
            title,
            body: content.to_owned(),
        }
    }
}

// ---------------------------------------------------------------------------
// Laws
// ---------------------------------------------------------------------------

/// A well-formed tag: not empty, no whitespace.
pub open spec fn tag_ok(t: Seq<char>) -> bool {
    t.len() > 0 && !has_white_space(t)
}

/// A well-formed link target: not empty, no whitespace at either end.
pub open spec fn link_ok(t: Seq<char>) -> bool {
    t.len() > 0 && !crate::text::is_white_space(t[0]) && !crate::text::is_white_space(t.last())
}

pub open spec fn all_tags_ok(ts: Seq<Seq<char>>) -> bool {
    forall|i: int| 0 <= i < ts.len() ==> tag_ok(#[trigger] ts[i])
}

pub open spec fn all_links_ok(ts: Seq<Seq<char>>) -> bool {
    forall|i: int| 0 <= i < ts.len() ==> link_ok(#[trigger] ts[i])
}

proof fn lemma_concat_tags_ok(a: Seq<Seq<char>>, b: Seq<Seq<char>>)
    requires
        all_tags_ok(a),
        all_tags_ok(b),
    ensures
        all_tags_ok(a + b),
{
    assert forall|i: int| 0 <= i < (a + b).len() implies tag_ok(#[trigger] (a + b)[i]) by {
        if i < a.len() {
            assert((a + b)[i] == a[i]);
        } else {
            assert((a + b)[i] == b[i - a.len()]);
        }
    }
}

proof fn lemma_concat_links_ok(a: Seq<Seq<char>>, b: Seq<Seq<char>>)
    requires
        all_links_ok(a),
        all_links_ok(b),
    ensures
        all_links_ok(a + b),
{
    assert forall|i: int| 0 <= i < (a + b).len() implies link_ok(#[trigger] (a + b)[i]) by {
        if i < a.len() {
            assert((a + b)[i] == a[i]);
        } else {
            assert((a + b)[i] == b[i - a.len()]);
        }
    }
}

proof fn lemma_tags_of_parts_ok(parts: Seq<Seq<char>>)
    ensures
        all_tags_ok(tags_of_parts(parts)),
    decreases parts.len(),
{
    if parts.len() > 0 {
        lemma_tags_of_parts_ok(parts.drop_first());
        lemma_concat_tags_ok(opt_seq(tag_of_part(parts[0])), tags_of_parts(parts.drop_first()));
    }
}

proof fn lemma_tags_of_lines_ok(ls: Seq<Seq<char>>)
    ensures
        all_tags_ok(tags_of_lines(ls)),
    decreases ls.len(),
{
    if ls.len() > 0 {
        let t = trim(ls[0]);
        lemma_tags_of_parts_ok(split(strip_start(t, true), ','));
        lemma_tags_of_lines_ok(ls.drop_first());
        lemma_concat_tags_ok(line_tags(ls[0]), tags_of_lines(ls.drop_first()));
    }
}

/// Every extracted tag is a non-empty word without whitespace.
pub proof fn lemma_tags_well_formed(content: Seq<char>)
    ensures
        all_tags_ok(spec_tags(content)),
{
    lemma_tags_of_lines_ok(lines(content));
}

/// Every extracted link target is non-empty and trimmed.
pub proof fn lemma_links_well_formed(s: Seq<char>)
    ensures
        all_links_ok(spec_links(s)),
    decreases s.len(),
{
    if s.len() >= 2 {
        if s[0] == '[' && s[1] == '[' {
            let rest = s.skip(2);
            lemma_links_well_formed(rest);
            if let Some(e) = find_pair(rest, ']', ']') {
                crate::text::lemma_trim_edges(rest.take(e));
            }
            lemma_concat_links_ok(link_at(rest), spec_links(rest));
        } else {
            lemma_links_well_formed(s.drop_first());
        }
    }
}

/// The tags of consecutive line lists are the tags of each, in order.
proof fn lemma_tags_of_lines_concat(x: Seq<Seq<char>>, y: Seq<Seq<char>>)
    ensures
        tags_of_lines(x + y) == tags_of_lines(x) + tags_of_lines(y),
    decreases x.len(),
{
    if x.len() == 0 {
        assert(x + y =~= y);
    } else {
        lemma_tags_of_lines_concat(x.drop_first(), y);
        assert((x + y).drop_first() =~= x.drop_first() + y);
        assert((x + y)[0] == x[0]);
    }
}

/// Text that a tag line gives back unchanged: not empty, without
/// whitespace or commas, and without `#` at either end.
pub open spec fn is_plain_tag(w: Seq<char>) -> bool {
    &&& w.len() > 0
    &&& forall|i: int| 0 <= i < w.len() ==> !is_white_space(#[trigger] w[i]) && w[i] != ','
    &&& w[0] != '#'
    &&& w.last() != '#'
}

/// A plain tag is its own tag, and holds no line break or comma.
proof fn lemma_plain_tag(w: Seq<char>)
    requires
        is_plain_tag(w),
    ensures
        trim(w) == w,
        trim_hashes(w) == w,
        !has_white_space(w),
        tag_of_part(w) == Some(w),
        find_char(w, '\n') is None,
        find_char(w, ',') is None,
        split(w, ',') == seq![w],
{
    assert(!is_white_space(w[0]));
    assert(!is_white_space(w.last()));
    assert(trim(w) == w);
    assert(trim_hashes(w) == w);
    assert(!has_white_space(w));
    lemma_find_char(w, '\n');
    if find_char(w, '\n') is Some {
        let k = find_char(w, '\n')->0;
        assert(!is_white_space(w[k]));
    }
    lemma_find_char(w, ',');
    if find_char(w, ',') is Some {
        let k = find_char(w, ',')->0;
        assert(w[k] == ',');
    }
}

/// A tag line of two tags, `#a, #b`, gives both, in order.
pub proof fn lemma_two_tag_line(a: Seq<char>, b: Seq<char>)
    requires
        is_plain_tag(a),
        is_plain_tag(b),
    ensures
        spec_tags(seq!['#'] + a + seq![',', ' ', '#'] + b) == seq![a, b],
{
    lemma_plain_tag(a);
    lemma_plain_tag(b);
    let mid = seq![',', ' ', '#'];
    let s = seq!['#'] + a + mid + b;
    let x = a + mid + b;
    let y = seq![' ', '#'] + b;
    assert(s.drop_first() =~= x);
    assert(s.last() == b.last());
    assert(!is_white_space(b.last()));
    // One line.
    lemma_find_char(s, '\n');
    if find_char(s, '\n') is Some {
        let k = find_char(s, '\n')->0;
        if 1 <= k < 1 + a.len() {
            assert(s[k] == a[k - 1]);
            assert(!is_white_space(a[k - 1]));
        } else if k >= 4 + a.len() {
            assert(s[k] == b[k - 4 - a.len()]);
            assert(!is_white_space(b[k - 4 - a.len()]));
        } else if k > 0 {
            assert(s[k] == mid[k - 1 - a.len()]);
        }
    }
    assert(lines(s) =~= seq![s]);
    // A tag line whose text after `#` is `x`.
    assert(trim(s) == s);
    assert(s[1] == a[0]);
    assert(!is_white_space(a[0]));
    assert(!starts_with(s, seq!['#', ' '])) by {
        if starts_with(s, seq!['#', ' ']) {
            assert(s.take(2)[1] == ' ');
        }
    }
    assert(!starts_with(s, seq!['#', '#'])) by {
        if starts_with(s, seq!['#', '#']) {
            assert(s.take(2)[1] == '#');
        }
    }
    assert(x[0] == a[0]);
    assert(strip_start(x, true) == x);
    // Two parts: `a` and ` #b`.
    lemma_find_char(x, ',');
    assert(x[a.len() as int] == ',');
    assert forall|j: int| 0 <= j < a.len() implies x[j] != ',' by {
        assert(x[j] == a[j]);
    }
    assert(find_char(x, ',') == Some(a.len() as int));
    assert(x.take(a.len() as int) =~= a);
    assert(x.skip(a.len() as int + 1) =~= y);
    lemma_find_char(y, ',');
    if find_char(y, ',') is Some {
        let k = find_char(y, ',')->0;
        if k >= 2 {
            assert(y[k] == b[k - 2]);
        }
    }
    assert(split(y, ',') == seq![y]);
    assert(split(x, ',') =~= seq![a, y]);
    // The second part is `b` once trimmed and stripped of `#`.
    let hb = seq!['#'] + b;
    assert(y.drop_first() =~= hb);
    assert(hb.drop_first() =~= b);
    assert(hb.last() == b.last());
    assert(y[0] == ' ');
    assert(is_white_space(y[0]));
    assert(hb[0] == '#');
    assert(strip_start(hb, false) == hb);
    assert(strip_start(y, false) == strip_start(y.drop_first(), false));
    assert(strip_start(y, false) == hb);
    assert(trim(y) == hb);
    assert(strip_start(hb, true) == b);
    assert(trim_hashes(hb) == b);
    assert(tag_of_part(y) == Some(b));
    let parts = seq![a, y];
    assert(parts.drop_first() =~= seq![y]);
    assert(parts.drop_first().drop_first() =~= Seq::<Seq<char>>::empty());
    assert(tags_of_parts(parts.drop_first().drop_first()) =~= Seq::<Seq<char>>::empty());
    assert(tags_of_parts(parts.drop_first()) =~= seq![b]);
    assert(tags_of_parts(parts) =~= seq![a, b]);
    assert(line_tags(s) =~= seq![a, b]);
    let ls = seq![s];
    assert(ls.drop_first() =~= Seq::<Seq<char>>::empty());
    assert(tags_of_lines(ls.drop_first()) =~= Seq::<Seq<char>>::empty());
    assert(ls[0] == s);
    assert(tags_of_lines(ls) =~= seq![a, b]);
}

/// A tag line that holds one tag gives exactly that tag, whatever
/// characters it is made of (letters of any script, digits, symbols): for a
/// non-empty `w` with no whitespace, no comma and no `#` at either end, the
/// document `#w` has the single tag `w`.
pub proof fn lemma_single_tag_line(w: Seq<char>)
    requires
        is_plain_tag(w),
    ensures
        spec_tags(seq!['#'] + w) == seq![w],
{
    let s = seq!['#'] + w;
    assert(s.drop_first() =~= w);
    assert(s.last() == w.last());
    assert(!is_white_space(w[0]));
    assert(!is_white_space(w.last()));
    // One line: `s` holds no line break.
    lemma_find_char(s, '\n');
    if find_char(s, '\n') is Some {
        let k = find_char(s, '\n')->0;
        if k > 0 {
            assert(s[k] == w[k - 1]);
        }
    }
    assert(lines(s) =~= seq![s]);
    // The line is a tag line whose text after `#` is `w`.
    assert(trim(s) == s);
    assert(s[1] == w[0]);
    assert(!starts_with(s, seq!['#', ' '])) by {
        if starts_with(s, seq!['#', ' ']) {
            assert(s.take(2)[1] == ' ');
        }
    }
    assert(!starts_with(s, seq!['#', '#'])) by {
        if starts_with(s, seq!['#', '#']) {
            assert(s.take(2)[1] == '#');
        }
    }
    assert(strip_start(s, true) == strip_start(w, true));
    assert(strip_start(w, true) == w);
    // One part: `w` holds no comma.
    lemma_find_char(w, ',');
    if find_char(w, ',') is Some {
        let k = find_char(w, ',')->0;
        assert(w[k] == ',');
    }
    assert(split(w, ',') == seq![w]);
    // The part is kept whole.
    assert(trim(w) == w);
    assert(trim_hashes(w) == w);
    assert(!has_white_space(w));
    assert(tag_of_part(w) == Some(w));
    let parts = seq![w];
    assert(parts.drop_first() =~= Seq::<Seq<char>>::empty());
    assert(tags_of_parts(parts.drop_first()) =~= Seq::<Seq<char>>::empty());
    assert(parts[0] == w);
    assert(opt_seq(tag_of_part(parts[0])) =~= seq![w]);
    assert(tags_of_parts(parts) =~= seq![w]);
    assert(line_tags(s) =~= seq![w]);
    let ls = seq![s];
    assert(ls.drop_first() =~= Seq::<Seq<char>>::empty());
    assert(tags_of_lines(ls.drop_first()) =~= Seq::<Seq<char>>::empty());
    assert(ls[0] == s);
    assert(tags_of_lines(ls) =~= seq![w]);
}

/// Tags come from whole lines: the tags of two texts joined by a newline
/// are the tags of the first followed by those of the second.
pub proof fn lemma_tags_of_joined_texts(a: Seq<char>, b: Seq<char>)
    ensures
        spec_tags(a + seq!['\n'] + b) == spec_tags(a) + spec_tags(b),
    decreases a.len(),
{
    let s = a + seq!['\n'] + b;
    crate::text::lemma_find_char(a, '\n');
    crate::text::lemma_find_char(s, '\n');
    match find_char(a, '\n') {
        Some(k) => {
            assert(s[k] == '\n');
            assert(find_char(s, '\n') == Some(k)) by {
                if find_char(s, '\n') is Some {
                    let j = find_char(s, '\n')->0;
                    if j < k {
                        assert(s[j] == a[j]);
                    }
                }
            }
            let a2 = a.skip(k + 1);
            lemma_tags_of_joined_texts(a2, b);
            assert(s.take(k) =~= a.take(k));
            assert(s.skip(k + 1) =~= a2 + seq!['\n'] + b);
            let first = seq![strip_cr(a.take(k))];
            assert(lines(s) == first + lines(a2 + seq!['\n'] + b));
            assert(lines(a) == first + lines(a2));
            lemma_tags_of_lines_concat(first, lines(a2 + seq!['\n'] + b));
            lemma_tags_of_lines_concat(first, lines(a2));
            assert(spec_tags(s) =~= spec_tags(a) + spec_tags(b));
        },
        None => {
            assert(s[a.len() as int] == '\n');
            assert(find_char(s, '\n') == Some(a.len() as int)) by {
                if find_char(s, '\n') is Some {
                    let j = find_char(s, '\n')->0;
                    if j < a.len() {
                        assert(s[j] == a[j]);
                    }
                }
            }
            assert(s.take(a.len() as int) =~= a);
            assert(s.skip(a.len() as int + 1) =~= b);
            let first = seq![strip_cr(a)];
            assert(lines(s) == first + lines(b));
            lemma_tags_of_lines_concat(first, lines(b));
            assert(tags_of_lines(first) =~= line_tags(strip_cr(a))) by {
                assert(first.drop_first() =~= Seq::<Seq<char>>::empty());
                assert(tags_of_lines(Seq::<Seq<char>>::empty()) == Seq::<Seq<char>>::empty());
                assert(first[0] == strip_cr(a));
            }
            if a.len() == 0 {
                assert(strip_cr(a) =~= Seq::<char>::empty());
                assert(trim(Seq::<char>::empty()) =~= Seq::<char>::empty());
                assert(!starts_with(Seq::<char>::empty(), seq!['#', ' ']));
                assert(line_tags(strip_cr(a)) =~= Seq::<Seq<char>>::empty());
                assert(lines(a) =~= Seq::<Seq<char>>::empty());
            } else {
                assert(lines(a) == seq![a]);
                if a.last() == '\r' {
                    crate::text::lemma_trim_drop_trailing_space(a);
                }
                assert(line_tags(strip_cr(a)) == line_tags(a));
                assert(tags_of_lines(seq![a]) =~= line_tags(a)) by {
                    assert(seq![a].drop_first() =~= Seq::<Seq<char>>::empty());
                    assert(tags_of_lines(Seq::<Seq<char>>::empty()) == Seq::<Seq<char>>::empty());
                }
            }
            assert(spec_tags(s) =~= spec_tags(a) + spec_tags(b));
        },
    }
}

} // verus!
