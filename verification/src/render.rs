//! The single markdown engine: comrak (GFM). Preview HTML and export HTML
//! go through the same pipeline. Raw HTML is dropped, and link and image
//! URLs keep only the `http:`, `https:` and `mailto:` schemes (safe).

use vstd::prelude::*;

use crate::error::AppError;
use crate::text::{
    chars_of, find_char, find_char_range, lemma_find_char, push_char, starts_with,
    starts_with_range,
};

verus! {

/// The renderer settings the service uses.
#[derive(Debug, Clone)]
pub struct RenderOptions {
    pub autolink: bool,
    pub table: bool,
    pub strikethrough: bool,
    pub tasklist: bool,
    pub superscript: bool,
    pub footnotes: bool,
    pub description_lists: bool,
    /// Heading ids, with this prefix; `None` gives headings no id.
    pub header_id_prefix: Option<String>,
    /// Smart punctuation (curly quotes, ellipsis).
    pub smart: bool,
}

/// The renderer settings as values.
pub struct RenderSettings {
    pub autolink: bool,
    pub table: bool,
    pub strikethrough: bool,
    pub tasklist: bool,
    pub superscript: bool,
    pub footnotes: bool,
    pub description_lists: bool,
    pub header_id_prefix: Option<Seq<char>>,
    pub smart: bool,
}

impl View for RenderOptions {
    type V = RenderSettings;

    open spec fn view(&self) -> RenderSettings {
        RenderSettings {
            autolink: self.autolink,
            table: self.table,
            strikethrough: self.strikethrough,
            tasklist: self.tasklist,
            superscript: self.superscript,
            footnotes: self.footnotes,
            description_lists: self.description_lists,
            header_id_prefix: match self.header_id_prefix {
                Some(p) => Some(p@),
                None => None,
            },
            smart: self.smart,
        }
    }
}

/// The HTML that `comrak::markdown_to_html` renders `content` to under the
/// given settings.
pub uninterp spec fn comrak_html(content: Seq<char>, settings: RenderSettings) -> Seq<char>;

/// Calls `comrak::markdown_to_html` with options converted field by field;
/// every other option keeps comrak's default, under which raw HTML is
/// omitted from the output. The contract says only that the HTML is the
/// named function of the content and the settings; what comrak renders is
/// left to comrak. The rendering writes into a `String`, which cannot fail.
#[verifier::external_body]
fn comrak_markdown_to_html(content: &str, o: &RenderOptions) -> (r: String)
    ensures
        r@ == comrak_html(content@, o@),
{
    let mut c = comrak::Options::default();
    c.extension.autolink = o.autolink;
    c.extension.table = o.table;
    c.extension.strikethrough = o.strikethrough;
    c.extension.tasklist = o.tasklist;
    c.extension.superscript = o.superscript;
    c.extension.footnotes = o.footnotes;
    c.extension.description_lists = o.description_lists;
    c.extension.header_id_prefix = o.header_id_prefix.clone();
    c.parse.smart = o.smart;
    comrak::markdown_to_html(content, &c)
}

/// The settings of the service: the GFM extensions, heading ids without a
/// prefix and smart punctuation; raw HTML never reaches the output.
pub open spec fn service_settings() -> RenderSettings {
    RenderSettings {
        autolink: true,
        table: true,
        strikethrough: true,
        tasklist: true,
        superscript: true,
        footnotes: true,
        description_lists: true,
        header_id_prefix: Some(Seq::<char>::empty()),
        smart: true,
    }
}

/// `href="`, the opening of a link target.
pub open spec fn href_open() -> Seq<char> {
    seq!['h', 'r', 'e', 'f', '=', '"']
}

/// `src="`, the opening of an image source.
pub open spec fn src_open() -> Seq<char> {
    seq!['s', 'r', 'c', '=', '"']
}

/// The length of the URL attribute opening at the start of `s`, or 0.
pub open spec fn url_attr_open(s: Seq<char>) -> int {
    if starts_with(s, href_open()) {
        6
    } else if starts_with(s, src_open()) {
        5
    } else {
        0
    }
}

/// `v` begins with the letters of `lower`, each in its lower or upper case
/// (`upper` holds the same letters in upper case).
pub open spec fn starts_with_fold(v: Seq<char>, lower: Seq<char>, upper: Seq<char>) -> bool {
    &&& lower.len() <= v.len()
    &&& lower.len() == upper.len()
    &&& forall|i: int| 0 <= i < lower.len() ==> #[trigger] v[i] == lower[i] || v[i] == upper[i]
}

/// A character that a URL scheme may hold: a letter, or after the first
/// place also a digit, `+`, `-` or `.`.
pub open spec fn is_scheme_char(c: char, first: bool) -> bool {
    ||| ('a' <= c && c <= 'z')
    ||| ('A' <= c && c <= 'Z')
    ||| (!first && (('0' <= c && c <= '9') || c == '+' || c == '-' || c == '.'))
}

/// `s` is the scheme whose letters `lower` gives, in any letter case.
pub open spec fn scheme_is(s: Seq<char>, lower: Seq<char>, upper: Seq<char>) -> bool {
    s.len() == lower.len() && starts_with_fold(s, lower, upper)
}

/// The schemes that may stay: `http`, `https` and `mailto`.
pub open spec fn scheme_whitelisted(s: Seq<char>) -> bool {
    ||| scheme_is(s, seq!['h', 't', 't', 'p'], seq!['H', 'T', 'T', 'P'])
    ||| scheme_is(s, seq!['h', 't', 't', 'p', 's'], seq!['H', 'T', 'T', 'P', 'S'])
    ||| scheme_is(s, seq!['m', 'a', 'i', 'l', 't', 'o'], seq!['M', 'A', 'I', 'L', 'T', 'O'])
}

/// `&amp;`, the reference for `&` in an attribute value.
pub open spec fn amp_ref() -> Seq<char> {
    seq!['&', 'a', 'm', 'p', ';']
}

/// `&#x27;`, the reference for `'` in an attribute value.
pub open spec fn apos_ref() -> Seq<char> {
    seq!['&', '#', 'x', '2', '7', ';']
}

/// Whether the URL whose remaining characters are `v` may stay, when the
/// scheme characters read so far are `acc`. The URL is read as a browser
/// reads it: leading spaces and control characters, and every tab or line
/// break, are skipped; a scheme is a letter followed by letters, digits,
/// `+`, `-` or `.`, ended by `:`; any other character ends the reading with
/// no scheme. `&amp;` and `&#x27;` stand for `&` and `'`, which no scheme
/// holds; any other `&` could stand for a scheme character, and such a URL
/// may not stay.
pub open spec fn url_allowed_after(v: Seq<char>, acc: Seq<char>) -> bool
    decreases v.len(),
{
    if v.len() == 0 {
        true
    } else {
        let c = v[0];
        if c == '\t' || c == '\n' || c == '\r' || (acc.len() == 0 && c <= ' ') {
            url_allowed_after(v.drop_first(), acc)
        } else if c == ':' {
            acc.len() == 0 || scheme_whitelisted(acc)
        } else if c == '&' {
            starts_with(v, amp_ref()) || starts_with(v, apos_ref())
        } else if is_scheme_char(c, acc.len() == 0) {
            url_allowed_after(v.drop_first(), acc.push(c))
        } else {
            true
        }
    }
}

/// The URLs that may stay in the HTML: those whose scheme is `http`,
/// `https` or `mailto` (in any letter case), and those without a scheme.
pub open spec fn url_allowed(v: Seq<char>) -> bool {
    url_allowed_after(v, Seq::empty())
}

/// Where the value of the URL attribute that opens `s` (of opening length
/// `k`) ends: at the next `"`, or at the end of `s`.
pub open spec fn url_value_end(s: Seq<char>, k: int) -> int {
    match find_char(s.skip(k), '"') {
        Some(j) => k + j,
        None => s.len() as int,
    }
}

/// `html` with the value of every `href="..."` and `src="..."` whose URL is
/// not allowed emptied; everything else is kept as it is.
pub open spec fn sanitize_urls(html: Seq<char>) -> Seq<char>
    decreases html.len(),
{
    if html.len() == 0 {
        Seq::empty()
    } else {
        let k = url_attr_open(html);
        if k > 0 {
            proof {
                lemma_find_char(html.skip(k), '"');
            }
            let e = url_value_end(html, k);
            let v = html.subrange(k, e);
            html.take(k) + (if url_allowed(v) {
                v
            } else {
                Seq::empty()
            }) + sanitize_urls(html.skip(e))
        } else {
            seq![html[0]] + sanitize_urls(html.drop_first())
        }
    }
}

/// Read left to right as the filter reads it, every `href="..."` and
/// `src="..."` value of `html` is an allowed URL.
pub open spec fn urls_allowed(html: Seq<char>) -> bool
    decreases html.len(),
{
    if html.len() == 0 {
        true
    } else {
        let k = url_attr_open(html);
        if k > 0 {
            proof {
                lemma_find_char(html.skip(k), '"');
            }
            let e = url_value_end(html, k);
            url_allowed(html.subrange(k, e)) && urls_allowed(html.skip(e))
        } else {
            urls_allowed(html.drop_first())
        }
    }
}

/// The filter only ever drops characters, and keeps the first five.
proof fn lemma_sanitize_prefix(html: Seq<char>)
    ensures
        sanitize_urls(html).len() <= html.len(),
        html.len() >= 5 ==> sanitize_urls(html).len() >= 5,
        html.len() < 5 ==> sanitize_urls(html).len() == html.len(),
        forall|j: int| 0 <= j < 5 && j < html.len() ==> #[trigger] sanitize_urls(html)[j] == html[j],
    decreases html.len(),
{
    if html.len() > 0 {
        let k = url_attr_open(html);
        let o = sanitize_urls(html);
        if k > 0 {
            lemma_find_char(html.skip(k), '"');
            let e = url_value_end(html, k);
            lemma_sanitize_prefix(html.skip(e));
            assert forall|j: int| 0 <= j < 5 && j < html.len() implies #[trigger] o[j] == html[j] by {
                assert(o[j] == html.take(k)[j]);
            }
        } else {
            let t = html.drop_first();
            lemma_sanitize_prefix(t);
            assert forall|j: int| 0 <= j < 5 && j < html.len() implies #[trigger] o[j] == html[j] by {
                if j > 0 {
                    assert(o[j] == sanitize_urls(t)[j - 1]);
                    assert(t[j - 1] == html[j]);
                }
            }
        }
    }
}

/// The filter finds the same attribute opening at the start of its output as
/// at the start of its input.
proof fn lemma_sanitize_keeps_opening(html: Seq<char>)
    requires
        html.len() > 0,
    ensures
        url_attr_open(sanitize_urls(html)) == url_attr_open(html),
{
    let o = sanitize_urls(html);
    let k = url_attr_open(html);
    if k > 0 {
        lemma_find_char(html.skip(k), '"');
        let e = url_value_end(html, k);
        lemma_sanitize_prefix(html.skip(e));
        assert(o.take(k) =~= html.take(k));
        if k == 5 {
            assert(o[0] == html[0]);
            assert(html.take(5)[0] == 's');
            if o.len() >= 6 {
                assert(o.take(6)[0] != href_open()[0]);
            }
        }
    } else {
        let t = html.drop_first();
        lemma_sanitize_prefix(t);
        let r = sanitize_urls(t);
        assert(o =~= seq![html[0]] + r);
        assert forall|j: int| 0 <= j < 6 && j < html.len() implies #[trigger] o[j] == html[j] by {
            if j > 0 {
                assert(o[j] == r[j - 1]);
                assert(t[j - 1] == html[j]);
            }
        }
        if html.len() >= 6 {
            assert(o.take(6) =~= html.take(6));
        }
        if html.len() >= 5 {
            assert(o.take(5) =~= html.take(5));
        }
    }
}

/// Every `href` or `src` value the filter leaves is an allowed URL: there
/// remains none with a scheme other than `http:`, `https:` or `mailto:`.
pub proof fn lemma_filtered_urls_allowed(html: Seq<char>)
    ensures
        urls_allowed(sanitize_urls(html)),
    decreases html.len(),
{
    if html.len() > 0 {
        let o = sanitize_urls(html);
        let k = url_attr_open(html);
        lemma_sanitize_keeps_opening(html);
        if k > 0 {
            let t = html.skip(k);
            lemma_find_char(t, '"');
            let e = url_value_end(html, k);
            let v = html.subrange(k, e);
            let w = if url_allowed(v) {
                v
            } else {
                Seq::<char>::empty()
            };
            let r = sanitize_urls(html.skip(e));
            lemma_sanitize_prefix(html.skip(e));
            lemma_filtered_urls_allowed(html.skip(e));
            assert(o =~= html.take(k) + w + r);
            let u = o.skip(k);
            assert(u =~= w + r);
            assert forall|i: int| 0 <= i < w.len() implies w[i] != '"' by {
                assert(v[i] == t[i]);
            }
            lemma_find_char(u, '"');
            if e < html.len() {
                assert(html.skip(e)[0] == html[e]);
                assert(html[e] == t[e - k]);
                assert(u[w.len() as int] == r[0]);
                if find_char(u, '"') is None {
                    assert(u[w.len() as int] != '"');
                }
                let m = find_char(u, '"')->0;
                if m < w.len() {
                    assert(u[m] == w[m]);
                }
                assert(url_value_end(o, k) == k + w.len());
            } else {
                assert(r.len() == 0);
                assert(u =~= w);
                if find_char(u, '"') is Some {
                    let m = find_char(u, '"')->0;
                    assert(u[m] == w[m]);
                }
                assert(url_value_end(o, k) == k + w.len());
            }
            assert(o.subrange(k, k + w.len()) =~= w);
            assert(o.skip(k + w.len()) =~= r);
            if !url_allowed(v) {
                assert(w.len() == 0);
                assert(url_allowed(w));
            }
        } else {
            let t = html.drop_first();
            lemma_filtered_urls_allowed(t);
            assert(o.drop_first() =~= sanitize_urls(t));
        }
    }
}

/// The HTML of a document under the service's settings, with the URLs that
/// are not allowed emptied.
pub open spec fn spec_render(content: Seq<char>) -> Seq<char> {
    sanitize_urls(comrak_html(content, service_settings()))
}

/// Whether `v[lo..hi]` begins with the letters of `lower` in either case.
fn starts_with_fold_range(
    v: &Vec<char>,
    lo: usize,
    hi: usize,
    lower: &Vec<char>,
    upper: &Vec<char>,
) -> (b: bool)
    requires
        lo <= hi <= v.len(),
        lower.len() == upper.len(),
    ensures
        b == starts_with_fold(v@.subrange(lo as int, hi as int), lower@, upper@),
{
    let ghost s = v@.subrange(lo as int, hi as int);
    if lower.len() > hi - lo {
        return false;
    }
    let mut i: usize = 0;
    while i < lower.len()
        invariant
            lower.len() <= hi - lo,
            lower.len() == upper.len(),
            lo <= hi <= v.len(),
            s == v@.subrange(lo as int, hi as int),
            0 <= i <= lower.len(),
            forall|j: int| 0 <= j < i ==> #[trigger] s[j] == lower@[j] || s[j] == upper@[j],
        decreases lower.len() - i,
    {
        let c = v[lo + i];
        assert(s[i as int] == c);
        if c != lower[i] && c != upper[i] {
            return false;
        }
        i += 1;
    }
    true
}

/// Whether `s` is `http`, `https` or `mailto`, in any letter case.
fn scheme_whitelisted_chars(s: &Vec<char>) -> (b: bool)
    ensures
        b == scheme_whitelisted(s@),
{
    let http_l = vec!['h', 't', 't', 'p'];
    let http_u = vec!['H', 'T', 'T', 'P'];
    let https_l = vec!['h', 't', 't', 'p', 's'];
    let https_u = vec!['H', 'T', 'T', 'P', 'S'];
    let mailto_l = vec!['m', 'a', 'i', 'l', 't', 'o'];
    let mailto_u = vec!['M', 'A', 'I', 'L', 'T', 'O'];
    assert(http_l@ =~= seq!['h', 't', 't', 'p']);
    assert(http_u@ =~= seq!['H', 'T', 'T', 'P']);
    assert(https_l@ =~= seq!['h', 't', 't', 'p', 's']);
    assert(https_u@ =~= seq!['H', 'T', 'T', 'P', 'S']);
    assert(mailto_l@ =~= seq!['m', 'a', 'i', 'l', 't', 'o']);
    assert(mailto_u@ =~= seq!['M', 'A', 'I', 'L', 'T', 'O']);
    assert(s@.subrange(0, s.len() as int) =~= s@);
    let n = s.len();
    (n == 4 && starts_with_fold_range(s, 0, n, &http_l, &http_u)) || (n == 5
        && starts_with_fold_range(s, 0, n, &https_l, &https_u)) || (n == 6
        && starts_with_fold_range(s, 0, n, &mailto_l, &mailto_u))
}

/// Whether `c` may stand in a scheme (at its first place, if `first`).
fn is_scheme_char_exec(c: char, first: bool) -> (b: bool)
    ensures
        b == is_scheme_char(c, first),
{
    ('a' <= c && c <= 'z') || ('A' <= c && c <= 'Z') || (!first && (('0' <= c && c <= '9') || c
        == '+' || c == '-' || c == '.'))
}

/// Whether the URL `v[lo..hi]` may stay in the HTML.
fn url_allowed_range(v: &Vec<char>, lo: usize, hi: usize) -> (b: bool)
    requires
        lo <= hi <= v.len(),
    ensures
        b == url_allowed(v@.subrange(lo as int, hi as int)),
{
    let amp = vec!['&', 'a', 'm', 'p', ';'];
    let apos = vec!['&', '#', 'x', '2', '7', ';'];
    assert(amp@ =~= amp_ref());
    assert(apos@ =~= apos_ref());
    let mut acc: Vec<char> = Vec::new();
    assert(acc@ =~= Seq::<char>::empty());
    let mut i: usize = lo;
    while i < hi
        invariant
            lo <= i <= hi <= v.len(),
            amp@ == amp_ref(),
            apos@ == apos_ref(),
            url_allowed(v@.subrange(lo as int, hi as int)) == url_allowed_after(
                v@.subrange(i as int, hi as int),
                acc@,
            ),
        decreases hi - i,
    {
        let c = v[i];
        let ghost t = v@.subrange(i as int, hi as int);
        assert(t[0] == c);
        assert(t.drop_first() =~= v@.subrange(i + 1, hi as int));
        if c == '\t' || c == '\n' || c == '\r' || (acc.len() == 0 && c <= ' ') {
            i += 1;
        } else if c == ':' {
            return acc.len() == 0 || scheme_whitelisted_chars(&acc);
        } else if c == '&' {
            return starts_with_range(v, i, hi, &amp) || starts_with_range(v, i, hi, &apos);
        } else if is_scheme_char_exec(c, acc.len() == 0) {
            acc.push(c);
            i += 1;
        } else {
            return true;
        }
    }
    assert(v@.subrange(i as int, hi as int).len() == 0);
    true
}

/// Appends `v[lo..hi]` to `out`.
fn push_range(out: &mut String, v: &Vec<char>, lo: usize, hi: usize)
    requires
        lo <= hi <= v.len(),
    ensures
        final(out)@ == old(out)@ + v@.subrange(lo as int, hi as int),
{
    let ghost before = out@;
    let mut j: usize = lo;
    while j < hi
        invariant
            lo <= j <= hi <= v.len(),
            out@ == before + v@.subrange(lo as int, j as int),
        decreases hi - j,
    {
        push_char(out, v[j]);
        j += 1;
        assert(out@ =~= before + v@.subrange(lo as int, j as int));
    }
}

/// One step of the filter over `v[i..]` where an attribute opening of
/// length `k` stands and its value ends at `e`.
proof fn lemma_sanitize_attr_step(v: Seq<char>, i: int, k: int, e: int)
    requires
        0 <= i < v.len(),
        k > 0,
        k == url_attr_open(v.subrange(i, v.len() as int)),
        i + k <= e <= v.len(),
        find_char(v.subrange(i + k, v.len() as int), '"') == if e < v.len() {
            Some(e - i - k)
        } else {
            None::<int>
        },
    ensures
        sanitize_urls(v.subrange(i, v.len() as int)) == v.subrange(i, i + k) + (if url_allowed(
            v.subrange(i + k, e),
        ) {
            v.subrange(i + k, e)
        } else {
            Seq::empty()
        }) + sanitize_urls(v.subrange(e, v.len() as int)),
{
    let n = v.len() as int;
    let s = v.subrange(i, n);
    assert(s.skip(k) =~= v.subrange(i + k, n));
    assert(url_value_end(s, k) == e - i);
    assert(s.take(k) =~= v.subrange(i, i + k));
    assert(s.subrange(k, e - i) =~= v.subrange(i + k, e));
    assert(s.skip(e - i) =~= v.subrange(e, n));
}

/// One step of the filter over `v[i..]` where no attribute opening stands.
proof fn lemma_sanitize_copy_step(v: Seq<char>, i: int)
    requires
        0 <= i < v.len(),
        url_attr_open(v.subrange(i, v.len() as int)) == 0,
    ensures
        sanitize_urls(v.subrange(i, v.len() as int)) == seq![v[i]] + sanitize_urls(
            v.subrange(i + 1, v.len() as int),
        ),
{
    let s = v.subrange(i, v.len() as int);
    assert(s.drop_first() =~= v.subrange(i + 1, v.len() as int));
}

/// Empties the value of every `href="..."` and `src="..."` of `html` whose
/// URL has a scheme other than `http`, `https` or `mailto`; the rest of the
/// HTML is kept as it is.
pub fn filter_url_schemes(html: &str) -> (r: String)
    ensures
        r@ == sanitize_urls(html@),
{
    let v = chars_of(html);
    let n = v.len();
    let href = vec!['h', 'r', 'e', 'f', '=', '"'];
    let src = vec!['s', 'r', 'c', '=', '"'];
    assert(href@ =~= href_open());
    assert(src@ =~= src_open());
    let mut out = String::new();
    let mut i: usize = 0;
    assert(v@.subrange(0, n as int) =~= v@);
    while i < n
        invariant
            i <= n == v.len(),
            v@ == html@,
            href@ == href_open(),
            src@ == src_open(),
            sanitize_urls(html@) == out@ + sanitize_urls(v@.subrange(i as int, n as int)),
        decreases n - i,
    {
        let k: usize = if starts_with_range(&v, i, n, &href) {
            6
        } else if starts_with_range(&v, i, n, &src) {
            5
        } else {
            0
        };
        assert(k == url_attr_open(v@.subrange(i as int, n as int)));
        if k > 0 {
            let e = find_char_range(&v, i + k, n, '"');
            proof {
                lemma_sanitize_attr_step(v@, i as int, k as int, e as int);
            }
            push_range(&mut out, &v, i, i + k);
            if url_allowed_range(&v, i + k, e) {
                push_range(&mut out, &v, i + k, e);
            }
            i = e;
        } else {
            proof {
                lemma_sanitize_copy_step(v@, i as int);
            }
            push_char(&mut out, v[i]);
            i += 1;
        }
    }
    assert(v@.subrange(n as int, n as int).len() == 0);
    out
}

pub struct RenderService;

impl RenderService {
    /// The renderer settings of the service.
    pub fn options() -> (o: RenderOptions)
        ensures
            o@ == service_settings(),
    {
        RenderOptions {
            autolink: true,
            table: true,
            strikethrough: true,
            tasklist: true,
            superscript: true,
            footnotes: true,
            description_lists: true,
            header_id_prefix: Some(String::new()),
            smart: true,
        }
    }

    /// Render markdown to HTML under the service's settings, then empty the
    /// URLs whose scheme is not allowed. It never fails.
    pub fn render_markdown(content: &str) -> (r: Result<String, AppError>)
        ensures
            r matches Ok(html) && html@ == spec_render(content@),
    {
        let o = Self::options();
        assert(o@ == service_settings());
        let html = comrak_markdown_to_html(content, &o);
        Ok(filter_url_schemes(&html))
    }
}

} // verus!
