//! Documents of a vault: the rule every vault-relative path must meet, the
//! title of a document, what opening one yields, and the conflict rule of
//! saving.

use vstd::prelude::*;

use crate::error::AppError;
use crate::fmt::{decimal, push_decimal};
use crate::path::{spec_file_stem, stem_or_empty};
use crate::text::{
    chars_of, find_char, find_char_range, find_pair, find_pair_range, lines, next_line,
    push_str, starts_with, starts_with_range, string_of_range, trim, trim_range,
};

verus! {

// ---------------------------------------------------------------------------
// Specifications
// ---------------------------------------------------------------------------

pub open spec fn is_ascii_letter(c: char) -> bool {
    ('a' <= c && c <= 'z') || ('A' <= c && c <= 'Z')
}

/// The path starts with a drive prefix, as in `C:foo`, `C:/` or `C:\`.
pub open spec fn has_drive_prefix(s: Seq<char>) -> bool {
    s.len() >= 2 && is_ascii_letter(s[0]) && s[1] == ':'
}

/// The path does not stay below the directory it is joined to: it is
/// rooted at `/` or names a drive.
pub open spec fn is_absolute_path(s: Seq<char>) -> bool {
    (s.len() > 0 && s[0] == '/') || has_drive_prefix(s)
}

/// A `/`-separated component of `s` that is `..` starts at index `i`.
pub open spec fn is_parent_at(s: Seq<char>, i: int) -> bool {
    &&& 0 <= i && i + 2 <= s.len()
    &&& s[i] == '.' && s[i + 1] == '.'
    &&& i == 0 || s[i - 1] == '/'
    &&& i + 2 == s.len() || s[i + 2] == '/'
}

/// Some `/`-separated component of `s` is `..`.
pub open spec fn has_parent_component(s: Seq<char>) -> bool {
    exists|i: int| is_parent_at(s, i)
}

/// The paths that are refused: empty, absolute or naming a drive, naming a
/// parent directory
/// (a `..` component), or holding `\` or `//` anywhere.
pub open spec fn rel_path_rejected(s: Seq<char>) -> bool {
    ||| s.len() == 0
    ||| is_absolute_path(s)
    ||| has_parent_component(s)
    ||| find_char(s, '\\') is Some
    ||| find_pair(s, '/', '/') is Some
}

/// The error that names a refused path.
pub open spec fn invalid_path_of(e: AppError, p: Seq<char>) -> bool {
    e matches AppError::InvalidPath(m) && m@ == p
}

/// The title a heading line gives: the text after `# `, trimmed, if any.
pub open spec fn heading_title(line: Seq<char>) -> Option<Seq<char>> {
    if starts_with(line, seq!['#', ' ']) {
        let t = trim(line.skip(2));
        if t.len() > 0 {
            Some(t)
        } else {
            None
        }
    } else {
        None
    }
}

/// The title of the first line that gives one.
pub open spec fn first_title(ls: Seq<Seq<char>>) -> Option<Seq<char>>
    decreases ls.len(),
{
    if ls.len() == 0 {
        None
    } else {
        match heading_title(ls[0]) {
            Some(t) => Some(t),
            None => first_title(ls.drop_first()),
        }
    }
}

/// The title of a document: its first `# ` heading, else the fallback.
pub open spec fn spec_title_from(content: Seq<char>, fallback: Seq<char>) -> Seq<char> {
    match first_title(lines(content)) {
        Some(t) => t,
        None => fallback,
    }
}

/// The title comes from the earliest heading line: when no line before
/// line `i` gives a title and line `i` is `# ` followed by text that is not
/// blank, the title is that text, trimmed.
pub proof fn lemma_title_is_earliest_heading(content: Seq<char>, fallback: Seq<char>, i: int)
    requires
        0 <= i < lines(content).len(),
        starts_with(lines(content)[i], seq!['#', ' ']),
        trim(lines(content)[i].skip(2)).len() > 0,
        forall|j: int| 0 <= j < i ==> heading_title(#[trigger] lines(content)[j]) is None,
    ensures
        spec_title_from(content, fallback) == trim(lines(content)[i].skip(2)),
{
    lemma_first_title_at(lines(content), i);
}

/// A document without a `# ` heading line that has text is titled by the
/// fallback.
pub proof fn lemma_title_falls_back(content: Seq<char>, fallback: Seq<char>)
    requires
        forall|j: int|
            0 <= j < lines(content).len() ==> heading_title(#[trigger] lines(content)[j]) is None,
    ensures
        spec_title_from(content, fallback) == fallback,
{
    lemma_first_title_none(lines(content));
}

proof fn lemma_first_title_none(ls: Seq<Seq<char>>)
    requires
        forall|j: int| 0 <= j < ls.len() ==> heading_title(#[trigger] ls[j]) is None,
    ensures
        first_title(ls) is None,
    decreases ls.len(),
{
    if ls.len() > 0 {
        let r = ls.drop_first();
        assert(heading_title(ls[0]) is None);
        assert forall|j: int| 0 <= j < r.len() implies heading_title(#[trigger] r[j]) is None by {
            assert(r[j] == ls[j + 1]);
        }
        lemma_first_title_none(r);
    }
}

proof fn lemma_first_title_at(ls: Seq<Seq<char>>, i: int)
    requires
        0 <= i < ls.len(),
        heading_title(ls[i]) is Some,
        forall|j: int| 0 <= j < i ==> heading_title(#[trigger] ls[j]) is None,
    ensures
        first_title(ls) == heading_title(ls[i]),
    decreases i,
{
    if i > 0 {
        let r = ls.drop_first();
        assert(heading_title(ls[0]) is None);
        assert forall|j: int| 0 <= j < i - 1 implies heading_title(#[trigger] r[j]) is None by {
            assert(r[j] == ls[j + 1]);
        }
        assert(r[i - 1] == ls[i]);
        lemma_first_title_at(r, i - 1);
    }
}

/// The file stem of a path, or empty.
pub open spec fn stem_text(rel_path: Seq<char>) -> Seq<char> {
    match spec_file_stem(rel_path) {
        Some(s) => s,
        None => seq![],
    }
}

/// Saving must be refused: the file exists on disk with a modification time
/// other than the one the editor last saw.
pub open spec fn save_conflicts(disk_mtime: Option<i64>, expected_mtime: Option<i64>) -> bool {
    match (disk_mtime, expected_mtime) {
        (Some(disk), Some(expected)) => disk != expected,
        _ => false,
    }
}

// ---------------------------------------------------------------------------
// Types
// ---------------------------------------------------------------------------

#[derive(Debug, Clone)]
pub struct DocumentMeta {
    pub rel_path: String,
    pub title: String,
    pub mtime: i64,
    pub size: u64,
}

#[derive(Debug, Clone)]
pub struct DocOpenResult {
    pub content: String,
    pub meta: DocumentMeta,
}

/// A recovery-buffer entry as listed: the key, when it was last flushed,
/// and the start of its content.
#[derive(Debug, Clone)]
pub struct SessionInfo {
    pub doc_key: String,
    pub updated_at: i64,
    pub preview: String,
}

/// A recovery-buffer entry as restored.
#[derive(Debug, Clone)]
pub struct SessionDraft {
    pub content: String,
    pub cursor: Option<i64>,
}

pub struct DocumentService;

// ---------------------------------------------------------------------------
// Exec
// ---------------------------------------------------------------------------

fn is_ascii_letter_char(c: char) -> (b: bool)
    ensures
        b == is_ascii_letter(c),
{
    ('a' <= c && c <= 'z') || ('A' <= c && c <= 'Z')
}

fn has_parent_component_chars(v: &Vec<char>) -> (b: bool)
    ensures
        b == has_parent_component(v@),
{
    let len = v.len();
    let mut i: usize = 0;
    while i < len
        invariant
            len == v.len(),
            i <= len,
            forall|j: int| 0 <= j < i ==> !is_parent_at(v@, j),
        decreases len - i,
    {
        if i + 1 < len && v[i] == '.' && v[i + 1] == '.' && (i == 0 || v[i - 1] == '/') && (i + 2 == len || v[i
            + 2] == '/') {
            assert(is_parent_at(v@, i as int));
            return true;
        }
        i += 1;
    }
    assert forall|j: int| !is_parent_at(v@, j) by {
        if 0 <= j < i {
        }
    }
    false
}

impl DocumentService {
    /// Reject absolute paths and `..` traversal: every rel_path entering the
    /// services must meet it.
    pub fn validate_rel_path(rel_path: &str) -> (r: Result<(), AppError>)
        ensures
            r is Ok <==> !rel_path_rejected(rel_path@),
            r matches Err(e) ==> invalid_path_of(e, rel_path@),
    {
        let v = chars_of(rel_path);
        let len = v.len();
        assert(v@.subrange(0, len as int) =~= v@);
        let absolute = (len > 0 && v[0] == '/') || (len >= 2 && is_ascii_letter_char(v[0])
            && v[1] == ':');
        let dots = has_parent_component_chars(&v);
        let backslash = find_char_range(&v, 0, len, '\\') < len;
        let slashes = find_pair_range(&v, 0, len, '/', '/') < len;
        if len == 0 || absolute || dots || backslash || slashes {
            Err(AppError::InvalidPath(rel_path.to_owned()))
        } else {
            Ok(())
        }
    }

    /// First `# ` heading line, or the fallback (the file stem) if none.
    pub fn title_from(content: &str, fallback_stem: &str) -> (t: String)
        ensures
            t@ == spec_title_from(content@, fallback_stem@),
    {
        let v = chars_of(content);
        let len = v.len();
        let hash_space = vec!['#', ' '];
        assert(hash_space@ =~= seq!['#', ' ']);
        let mut p: usize = 0;
        assert(v@.subrange(0, len as int) =~= v@);
        while p < len
            invariant
                p <= len == v.len(),
                v@ == content@,
                hash_space@ == seq!['#', ' '],
                first_title(lines(v@)) == first_title(lines(v@.subrange(p as int, len as int))),
            decreases len - p,
        {
            let (e, q) = next_line(&v, p);
            let ghost line = v@.subrange(p as int, e as int);
            let ghost ls = lines(v@.subrange(p as int, len as int));
            let ghost rest = if q < len {
                lines(v@.subrange(q + 1, len as int))
            } else {
                seq![]
            };
            assert(ls.drop_first() =~= rest);
            if starts_with_range(&v, p, e, &hash_space) {
                let (a, b) = trim_range(&v, p + 2, e);
                assert(line.skip(2) =~= v@.subrange(p + 2, e as int));
                if a < b {
                    assert(ls[0] == line);
                    assert(heading_title(line) == Some(v@.subrange(a as int, b as int)));
                    assert(first_title(ls) == Some(v@.subrange(a as int, b as int)));
                    return string_of_range(&v, a, b);
                }
            }
            if q < len {
                p = q + 1;
            } else {
                p = len;
                assert(lines(v@.subrange(p as int, len as int)) =~= rest);
            }
        }
        fallback_stem.to_owned()
    }

    /// What opening `rel_path` yields, given the content and the metadata
    /// read from disk: the title is the first heading, else the file stem.
    pub fn opened(rel_path: &str, content: String, mtime: i64, size: u64) -> (r: DocOpenResult)
        ensures
            r.content@ == content@,
            r.meta.rel_path@ == rel_path@,
            r.meta.title@ == spec_title_from(content@, stem_text(rel_path@)),
            r.meta.mtime == mtime,
            r.meta.size == size,
    {
        let stem = stem_or_empty(rel_path);
        let title = Self::title_from(content.as_str(), stem.as_str());
        DocOpenResult {
            content,
            meta: DocumentMeta { rel_path: rel_path.to_owned(), title, mtime, size },
        }
    }

    /// Whether a save may go ahead: the path must be acceptable, and a file
    /// already on disk must still have the modification time the editor
    /// expects (`None` expected: no check; `None` on disk: a new file).
    pub fn check_save(
        rel_path: &str,
        disk_mtime: Option<i64>,
        expected_mtime: Option<i64>,
    ) -> (r: Result<(), AppError>)
        ensures
            rel_path_rejected(rel_path@) ==> (r matches Err(e) && invalid_path_of(e, rel_path@)),
            !rel_path_rejected(rel_path@) && save_conflicts(disk_mtime, expected_mtime) ==> (r
                matches Err(e) && e is FileChanged),
            !rel_path_rejected(rel_path@) && !save_conflicts(disk_mtime, expected_mtime) ==> r
                is Ok,
    {
        Self::validate_rel_path(rel_path)?;
        match (disk_mtime, expected_mtime) {
            (Some(disk), Some(expected)) => {
                if disk != expected {
                    return Err(AppError::FileChanged);
                }
            },
            _ => {},
        }
        Ok(())
    }

    /// The name of the temporary file a save by process `pid` writes before
    /// renaming it over the document: `.{file_name}.{pid}.ruach-tmp`,
    /// beside it. The process id keeps concurrent savers apart.
    pub fn temp_file_name(file_name: &str, pid: u32) -> (r: String)
        ensures
            r@ == "."@ + file_name@ + "."@ + decimal(pid as nat) + ".ruach-tmp"@,
    {
        let mut r = ".".to_owned();
        push_str(&mut r, file_name);
        push_str(&mut r, ".");
        push_decimal(&mut r, pid as u128);
        push_str(&mut r, ".ruach-tmp");
        r
    }
}

/// A path that passes `validate_rel_path` stays inside the vault when
/// joined to it: it is appended below the vault root (never replacing it,
/// as an absolute path would), and none of its components is `..`.
pub proof fn lemma_accepted_path_stays_in_vault(vault: Seq<char>, rel: Seq<char>)
    requires
        !rel_path_rejected(rel),
    ensures
        crate::path::spec_join(vault, rel) == vault + (if vault.len() == 0 || vault.last() == '/' {
            Seq::<char>::empty()
        } else {
            seq!['/']
        }) + rel,
        !has_parent_component(rel),
        rel.len() > 0 && rel[0] != '/',
{
    if vault.len() == 0 {
        assert(vault + Seq::<char>::empty() + rel =~= rel);
    } else if vault.last() == '/' {
        assert(vault + Seq::<char>::empty() + rel =~= vault + rel);
    }
}

} // verus!
