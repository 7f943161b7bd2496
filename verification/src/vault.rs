//! The vault: a directory of markdown documents plus its `.ruach/` sidecar.
//! This module holds the rules of the vault scan: which directory entries
//! become tree nodes, their vault-relative paths, and which index rows are
//! pruned afterwards.

use vstd::prelude::*;

use crate::path::{join, spec_join};
use crate::text::{chars_of, push_str, str_eq, views};

verus! {

#[derive(Debug, Clone)]
pub struct TreeNode {
    pub rel_path: String,
    pub name: String,
    pub is_dir: bool,
}

/// What the scan does with one directory entry.
#[derive(Debug, Clone)]
pub enum ScanStep {
    /// Hidden (`.ruach`, `.obsidian`, dot files) or not a document: left out.
    Skip,
    /// A directory: listed, and scanned in turn.
    Descend(TreeNode),
    /// A markdown document: listed, and its index rows refreshed.
    Document(TreeNode),
}

/// The vault-relative path of the entry `name` in the directory whose
/// vault-relative path is `prefix` (empty for the vault root).
pub open spec fn spec_entry_rel_path(prefix: Seq<char>, name: Seq<char>) -> Seq<char> {
    if prefix.len() == 0 {
        name
    } else {
        prefix + seq!['/'] + name
    }
}

/// `s` ends with `p`.
pub open spec fn ends_with(s: Seq<char>, p: Seq<char>) -> bool {
    p.len() <= s.len() && s.skip(s.len() - p.len()) == p
}

/// The view of a scan step: `None` for a skipped entry, else the node's
/// path, name and kind.
pub open spec fn step_view(s: ScanStep) -> Option<(Seq<char>, Seq<char>, bool)> {
    match s {
        ScanStep::Skip => None,
        ScanStep::Descend(n) => Some((n.rel_path@, n.name@, n.is_dir)),
        ScanStep::Document(n) => Some((n.rel_path@, n.name@, n.is_dir)),
    }
}

/// The scan rule: dot entries are hidden; a directory is listed and
/// descended into; a file is listed (and indexed) when its name ends with
/// `.md`; anything else is left out.
pub open spec fn spec_scan_step(prefix: Seq<char>, name: Seq<char>, is_dir: bool) -> Option<
    (Seq<char>, Seq<char>, bool),
> {
    if name.len() > 0 && name[0] == '.' {
        None
    } else if is_dir {
        Some((spec_entry_rel_path(prefix, name), name, true))
    } else if ends_with(name, ".md"@) {
        Some((spec_entry_rel_path(prefix, name), name, false))
    } else {
        None
    }
}

/// Every node the scan lists sits at its entry's vault path: `name` at the
/// vault root, `prefix/name` below it, for directories as for documents;
/// it keeps the entry's name and kind. Entries whose name starts with `.`
/// are never listed; other directories always are, and other files exactly
/// when their name ends with `.md`.
pub proof fn lemma_scan_node_paths(prefix: Seq<char>, name: Seq<char>, is_dir: bool)
    ensures
        spec_scan_step(prefix, name, is_dir) matches Some((rel, n, d)) ==> {
            &&& n == name
            &&& d == is_dir
            &&& prefix.len() == 0 ==> rel == name
            &&& prefix.len() > 0 ==> rel == prefix + seq!['/'] + name
        },
        is_dir && name.len() > 0 && name[0] != '.' ==> spec_scan_step(prefix, name, is_dir) is Some,
        name.len() > 0 && name[0] == '.' ==> spec_scan_step(prefix, name, is_dir) is None,
        !is_dir && name.len() > 0 && name[0] != '.' ==> (spec_scan_step(prefix, name, is_dir) is Some
            <==> name.len() >= 3 && name.skip(name.len() - 3) == seq!['.', 'm', 'd']),
{
    reveal_strlit(".md");
    assert(".md"@ =~= seq!['.', 'm', 'd']);
}

/// The rows that no longer have a file: those not seen by the scan, in
/// their order.
pub open spec fn spec_pruned(rows: Seq<Seq<char>>, seen: Seq<Seq<char>>) -> Seq<Seq<char>>
    decreases rows.len(),
{
    if rows.len() == 0 {
        seq![]
    } else if seen.contains(rows.last()) {
        spec_pruned(rows.drop_last(), seen)
    } else {
        spec_pruned(rows.drop_last(), seen).push(rows.last())
    }
}

/// The sidecar database of a vault.
pub open spec fn spec_sidecar_path(vault: Seq<char>) -> Seq<char> {
    spec_join(spec_join(vault, ".ruach"@), "index.db"@)
}

pub struct VaultService;

fn contains_str(v: &Vec<String>, s: &String) -> (b: bool)
    ensures
        b == views(v@).contains(s@),
{
    let mut i: usize = 0;
    while i < v.len()
        invariant
            i <= v.len(),
            forall|j: int| 0 <= j < i ==> v@[j]@ != s@,
        decreases v.len() - i,
    {
        if str_eq(v[i].as_str(), s.as_str()) {
            assert(views(v@)[i as int] == s@);
            return true;
        }
        i += 1;
    }
    assert forall|j: int| 0 <= j < views(v@).len() implies views(v@)[j] != s@ by {
        assert(views(v@)[j] == v@[j]@);
    }
    false
}

impl VaultService {
    /// Where the vault's sidecar database lives: `<vault>/.ruach/index.db`.
    pub fn sidecar_path(vault: &str) -> (p: String)
        ensures
            p@ == spec_sidecar_path(vault@),
    {
        let d = join(vault, ".ruach");
        join(d.as_str(), "index.db")
    }

    /// The vault-relative path of entry `name` under `prefix`.
    pub fn entry_rel_path(prefix: &str, name: &str) -> (r: String)
        ensures
            r@ == spec_entry_rel_path(prefix@, name@),
    {
        if prefix.is_empty() {
            name.to_owned()
        } else {
            let mut r = prefix.to_owned();
            push_str(&mut r, "/");
            push_str(&mut r, name);
            proof {
                reveal_strlit("/");
            }
            r
        }
    }

    /// What the scan does with the entry `name` (a directory or not) found
    /// in the directory at `prefix`.
    pub fn scan_step(prefix: &str, name: &str, is_dir: bool) -> (s: ScanStep)
        ensures
            step_view(s) == spec_scan_step(prefix@, name@, is_dir),
            s is Descend ==> is_dir,
            s is Document ==> !is_dir,
    {
        let v = chars_of(name);
        if v.len() > 0 && v[0] == '.' {
            return ScanStep::Skip;
        }
        let rel_path = Self::entry_rel_path(prefix, name);
        if is_dir {
            return ScanStep::Descend(TreeNode { rel_path, name: name.to_owned(), is_dir: true });
        }
        let n = v.len();
        proof {
            reveal_strlit(".md");
        }
        let md = n >= 3 && v[n - 3] == '.' && v[n - 2] == 'm' && v[n - 1] == 'd';
        assert(md == ends_with(name@, ".md"@)) by {
            assert(".md"@ =~= seq!['.', 'm', 'd']);
            if n >= 3 {
                let tail = name@.skip(n - 3);
                assert(tail =~= seq![v@[n - 3], v@[n - 2], v@[n - 1]]);
                if tail == ".md"@ {
                    assert(tail[0] == '.' && tail[1] == 'm' && tail[2] == 'd');
                }
            }
        }
        if md {
            ScanStep::Document(TreeNode { rel_path, name: name.to_owned(), is_dir: false })
        } else {
            ScanStep::Skip
        }
    }

    /// The rows of the files table to delete after a scan: those whose path
    /// the scan did not see on disk.
    pub fn pruned(rows: &Vec<String>, seen: &Vec<String>) -> (r: Vec<String>)
        ensures
            views(r@) == spec_pruned(views(rows@), views(seen@)),
    {
        let mut r: Vec<String> = Vec::new();
        let mut i: usize = 0;
        assert(views(rows@).take(0) =~= Seq::<Seq<char>>::empty());
        assert(views(r@) =~= Seq::<Seq<char>>::empty());
        while i < rows.len()
            invariant
                i <= rows.len(),
                views(r@) == spec_pruned(views(rows@).take(i as int), views(seen@)),
            decreases rows.len() - i,
        {
            let ghost pre = views(rows@).take(i as int);
            let ghost next = views(rows@).take(i + 1);
            assert(next.drop_last() =~= pre);
            assert(next.last() == rows@[i as int]@);
            if !contains_str(seen, &rows[i]) {
                let row = rows[i].clone();
                proof {
                    crate::text::lemma_views_push(r@, row);
                }
                r.push(row);
            }
            i += 1;
        }
        assert(views(rows@).take(rows.len() as int) =~= views(rows@));
        r
    }
}

/// After a scan, exactly the rows whose files were not seen are pruned.
pub proof fn lemma_pruned_exactly_unseen(rows: Seq<Seq<char>>, seen: Seq<Seq<char>>)
    ensures
        forall|r: Seq<char>|
            #[trigger] spec_pruned(rows, seen).contains(r) <==> (rows.contains(r)
                && !seen.contains(r)),
    decreases rows.len(),
{
    if rows.len() > 0 {
        lemma_pruned_exactly_unseen(rows.drop_last(), seen);
        let prev = spec_pruned(rows.drop_last(), seen);
        assert forall|r: Seq<char>| #[trigger] spec_pruned(rows, seen).contains(r) <==> (
        rows.contains(r) && !seen.contains(r)) by {
            if rows.contains(r) {
                let k = choose|k: int| 0 <= k < rows.len() && rows[k] == r;
                if k < rows.len() - 1 {
                    assert(rows.drop_last()[k] == r);
                }
            }
            if rows.drop_last().contains(r) {
                let k = choose|k: int| 0 <= k < rows.len() - 1 && rows.drop_last()[k] == r;
                assert(rows[k] == r);
            }
            if !seen.contains(rows.last()) {
                let s = spec_pruned(rows, seen);
                assert(s == prev.push(rows.last()));
                if prev.contains(r) {
                    let k = choose|k: int| 0 <= k < prev.len() && prev[k] == r;
                    assert(s[k] == r);
                }
                if s.contains(r) {
                    let k = choose|k: int| 0 <= k < s.len() && s[k] == r;
                    if k < prev.len() {
                        assert(prev[k] == r);
                    }
                }
                assert(s[prev.len() as int] == rows.last());
            }
            assert(rows[rows.len() - 1] == rows.last());
        }
    }
}

} // verus!
