//! Full-text search over the sidecar FTS5 index (trigram tokenizer, CJK
//! substring friendly). Queries with fewer than 3 characters cannot use
//! trigram tokens, so they fall back to a LIKE scan over title and body.
//! This module decides which query runs and with what parameters.

use vstd::prelude::*;

use crate::text::{
    chars_of, lemma_trim_idempotent, push_char, push_str, string_of_range, trim, trim_range,
};

verus! {

/// One search result.
#[derive(Debug, Clone)]
pub struct SearchHit {
    pub rel_path: String,
    pub title: String,
    /// 1 = title match, 0 = body match.
    pub score: u8,
}

/// The most results a query returns.
pub const LIMIT: i64 = 50;

/// The query to run for a search.
#[derive(Debug, Clone)]
pub enum SearchPlan {
    /// A blank query finds nothing.
    Nothing,
    /// `docs_fts MATCH matcher`, titles matching `title_pattern` first.
    Fts { matcher: String, title_pattern: String, limit: i64 },
    /// `title LIKE pattern ESCAPE '\' OR body LIKE pattern ESCAPE '\'`,
    /// title matches first.
    Like { pattern: String, limit: i64 },
}

/// Every `"` doubled, as inside an FTS5 string literal.
pub open spec fn double_quotes(s: Seq<char>) -> Seq<char>
    decreases s.len(),
{
    if s.len() == 0 {
        seq![]
    } else if s.last() == '"' {
        double_quotes(s.drop_last()) + seq!['"', '"']
    } else {
        double_quotes(s.drop_last()).push(s.last())
    }
}

/// The FTS5 phrase that matches `q` literally.
pub open spec fn spec_fts_matcher(q: Seq<char>) -> Seq<char> {
    seq!['"'] + double_quotes(q) + seq!['"']
}

/// The characters that LIKE escaping protects.
pub open spec fn is_like_special(c: char) -> bool {
    c == '\\' || c == '%' || c == '_'
}

/// `\`, `%` and `_` escaped with `\`, so a LIKE pattern matches them
/// literally.
pub open spec fn like_escape(s: Seq<char>) -> Seq<char>
    decreases s.len(),
{
    if s.len() == 0 {
        seq![]
    } else if is_like_special(s.last()) {
        like_escape(s.drop_last()) + seq!['\\', s.last()]
    } else {
        like_escape(s.drop_last()).push(s.last())
    }
}

/// The search to run for the query `q`: nothing for a blank query; the
/// quoted trimmed query as an FTS5 phrase when it has at least 3
/// characters; otherwise a LIKE scan for it, wildcards escaped.
pub open spec fn spec_plan(q: Seq<char>) -> (Option<bool>, Seq<char>, Seq<char>) {
    let t = trim(q);
    if t.len() == 0 {
        (None, seq![], seq![])
    } else if t.len() >= 3 {
        (Some(true), spec_fts_matcher(t), seq!['%'] + t + seq!['%'])
    } else {
        (Some(false), seq!['%'] + like_escape(t) + seq!['%'], seq![])
    }
}

/// Which search runs depends on the trimmed query alone: a query plans
/// the same search as its trimmed text; it runs nothing when that text is
/// empty, an FTS phrase when it has at least 3 characters, and a LIKE scan
/// when it has 1 or 2.
pub proof fn lemma_plan_by_trimmed_length(q: Seq<char>)
    ensures
        spec_plan(q) == spec_plan(trim(q)),
        spec_plan(q).0 is None <==> trim(q).len() == 0,
        spec_plan(q).0 == Some(true) <==> trim(q).len() >= 3,
        spec_plan(q).0 == Some(false) <==> 1 <= trim(q).len() < 3,
{
    lemma_trim_idempotent(q);
}

/// The view of a plan: which query (`None` for none, `Some(true)` for
/// FTS, `Some(false)` for LIKE) and its two text parameters.
pub open spec fn plan_view(p: SearchPlan) -> (Option<bool>, Seq<char>, Seq<char>) {
    match p {
        SearchPlan::Nothing => (None, seq![], seq![]),
        SearchPlan::Fts { matcher, title_pattern, .. } => (Some(true), matcher@, title_pattern@),
        SearchPlan::Like { pattern, .. } => (Some(false), pattern@, seq![]),
    }
}

/// The limit of a plan.
pub open spec fn plan_limit(p: SearchPlan) -> i64 {
    match p {
        SearchPlan::Nothing => 0,
        SearchPlan::Fts { limit, .. } => limit,
        SearchPlan::Like { limit, .. } => limit,
    }
}

/// Reading an FTS5 string body: each `""` stands for one `"`.
pub open spec fn undouble_quotes(s: Seq<char>) -> Seq<char>
    decreases s.len(),
{
    if s.len() >= 2 && s.last() == '"' && s[s.len() - 2] == '"' {
        undouble_quotes(s.subrange(0, s.len() - 2)).push('"')
    } else if s.len() > 0 {
        undouble_quotes(s.drop_last()).push(s.last())
    } else {
        seq![]
    }
}

/// Reading a LIKE pattern with escape `\`: `\x` stands for `x`.
pub open spec fn like_unescape(s: Seq<char>) -> Seq<char>
    decreases s.len(),
{
    if s.len() >= 2 && is_like_special(s.last()) {
        like_unescape(s.subrange(0, s.len() - 2)).push(s.last())
    } else if s.len() > 0 {
        like_unescape(s.drop_last()).push(s.last())
    } else {
        seq![]
    }
}

/// The FTS5 phrase built for a query reads back as exactly that query.
pub proof fn lemma_fts_matcher_reads_back(q: Seq<char>)
    ensures
        spec_fts_matcher(q).len() >= 2,
        spec_fts_matcher(q)[0] == '"',
        spec_fts_matcher(q).last() == '"',
        undouble_quotes(spec_fts_matcher(q).subrange(1, spec_fts_matcher(q).len() - 1)) == q,
    decreases q.len(),
{
    lemma_undouble_double(q);
    let m = spec_fts_matcher(q);
    assert(m.subrange(1, m.len() - 1) =~= double_quotes(q));
}

proof fn lemma_undouble_double(q: Seq<char>)
    ensures
        undouble_quotes(double_quotes(q)) == q,
    decreases q.len(),
{
    if q.len() > 0 {
        lemma_undouble_double(q.drop_last());
        let d = double_quotes(q);
        let prev = double_quotes(q.drop_last());
        if q.last() == '"' {
            assert(d.subrange(0, d.len() - 2) =~= prev);
        } else {
            assert(d.drop_last() =~= prev);
        }
        assert(undouble_quotes(d) =~= q);
    }
}

/// The LIKE pattern built for a short query matches exactly that query:
/// between its `%` wildcards, it reads back as the query.
pub proof fn lemma_like_pattern_reads_back(q: Seq<char>)
    ensures
        like_unescape(like_escape(q)) == q,
    decreases q.len(),
{
    if q.len() > 0 {
        lemma_like_pattern_reads_back(q.drop_last());
        let d = like_escape(q);
        let prev = like_escape(q.drop_last());
        if is_like_special(q.last()) {
            assert(d.subrange(0, d.len() - 2) =~= prev);
        } else {
            assert(d.drop_last() =~= prev);
        }
        assert(like_unescape(d) =~= q);
    }
}

pub struct SearchService;

impl SearchService {
    /// The search to run for `q`. A blank query runs nothing; one of at
    /// least 3 characters (after trimming) runs as a quoted FTS5 phrase;
    /// a shorter one as a LIKE scan with its wildcards escaped.
    pub fn plan(q: &str) -> (p: SearchPlan)
        ensures
            plan_view(p) == spec_plan(q@),
            !(p is Nothing) ==> plan_limit(p) == LIMIT,
    {
        let v = chars_of(q);
        let (a, b) = trim_range(&v, 0, v.len());
        assert(v@.subrange(0, v@.len() as int) =~= v@);
        let ghost t = v@.subrange(a as int, b as int);
        if a == b {
            return SearchPlan::Nothing;
        }
        if b - a >= 3 {
            let mut matcher = String::new();
            push_char(&mut matcher, '"');
            let mut i: usize = a;
            while i < b
                invariant
                    a <= i <= b <= v.len(),
                    matcher@ == seq!['"'] + double_quotes(v@.subrange(a as int, i as int)),
                decreases b - i,
            {
                assert(v@.subrange(a as int, i + 1).drop_last() =~= v@.subrange(a as int, i as int));
                if v[i] == '"' {
                    push_char(&mut matcher, '"');
                    push_char(&mut matcher, '"');
                } else {
                    push_char(&mut matcher, v[i]);
                }
                i += 1;
                assert(matcher@ =~= seq!['"'] + double_quotes(v@.subrange(a as int, i as int)));
            }
            push_char(&mut matcher, '"');
            let mut title_pattern = String::new();
            push_char(&mut title_pattern, '%');
            let inner = string_of_range(&v, a, b);
            push_str(&mut title_pattern, inner.as_str());
            push_char(&mut title_pattern, '%');
            assert(matcher@ =~= spec_fts_matcher(t));
            assert(title_pattern@ =~= seq!['%'] + t + seq!['%']);
            SearchPlan::Fts { matcher, title_pattern, limit: LIMIT }
        } else {
            let mut pattern = String::new();
            push_char(&mut pattern, '%');
            let mut i: usize = a;
            while i < b
                invariant
                    a <= i <= b <= v.len(),
                    pattern@ == seq!['%'] + like_escape(v@.subrange(a as int, i as int)),
                decreases b - i,
            {
                assert(v@.subrange(a as int, i + 1).drop_last() =~= v@.subrange(a as int, i as int));
                let c = v[i];
                if c == '\\' || c == '%' || c == '_' {
                    push_char(&mut pattern, '\\');
                }
                push_char(&mut pattern, c);
                i += 1;
                assert(pattern@ =~= seq!['%'] + like_escape(v@.subrange(a as int, i as int)));
            }
            push_char(&mut pattern, '%');
            assert(pattern@ =~= seq!['%'] + like_escape(t) + seq!['%']);
            SearchPlan::Like { pattern, limit: LIMIT }
        }
    }
}

} // verus!
