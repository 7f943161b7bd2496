//! Export of documents through the shared render pipeline. HTML export is
//! a self-contained file; PDF goes through the frontend's print pipeline, so
//! this service only keeps its interface.

use vstd::prelude::*;

use crate::document::{invalid_path_of, rel_path_rejected, DocumentService};
use crate::error::AppError;
use crate::path::{file_stem, join, lemma_file_stem_plain, spec_file_stem, spec_join};
use crate::render::{spec_render, RenderService};
use crate::text::{chars_of, push_char, push_str};

verus! {

#[derive(Debug, Clone, Copy, PartialEq, Eq)]
pub enum ExportFormat {
    Html,
    Pdf,
}

/// Self-contained document shell. Typography mirrors the app's warm-paper
/// default; keeps exports readable outside the app.
pub const EXPORT_CSS: &'static str = r#"
body { margin: 0; background: #f6f1e7; color: #3d3629;
       font-family: Georgia, "Songti SC", "STSong", serif;
       font-size: 16px; line-height: 1.9; -webkit-font-smoothing: antialiased; }
.markdown-body { max-width: 46em; margin: 0 auto; padding: 48px 28px; }
h1, h2, h3 { font-weight: 600; line-height: 1.4; }
h1 { font-size: 1.7em; } h2 { font-size: 1.35em; border-bottom: 1px solid #d9cbb0; padding-bottom: .25em; }
p, ul, ol, blockquote, pre, table { margin: .9em 0; }
a { color: #8a6d3b; text-decoration: none; }
blockquote { margin-left: 0; padding-left: 1.2em; border-left: 2px solid #d9cbb0; color: #6b6150; }
code { font-family: Consolas, "Cascadia Code", monospace; font-size: .88em; background: #efe8d6; padding: .15em .4em; }
pre { background: #efe8d6; border: 1px solid #d9cbb0; border-radius: 6px; padding: 1em; overflow-x: auto; }
pre code { background: transparent; padding: 0; }
table { border-collapse: collapse; font-size: .92em; }
th, td { border: 1px solid #d9cbb0; padding: .4em .8em; }
th { background: #efe8d6; }
img { max-width: 100%; }
"#;

/// The escape of one character in HTML text or attribute values.
pub open spec fn escape_char(c: char) -> Seq<char> {
    if c == '&' {
        "&amp;"@
    } else if c == '<' {
        "&lt;"@
    } else if c == '>' {
        "&gt;"@
    } else if c == '"' {
        "&quot;"@
    } else {
        seq![c]
    }
}

/// Every character escaped.
pub open spec fn spec_html_escape(s: Seq<char>) -> Seq<char>
    decreases s.len(),
{
    if s.len() == 0 {
        seq![]
    } else {
        spec_html_escape(s.drop_last()) + escape_char(s.last())
    }
}

/// The stem an export is named after: the document's file stem, else
/// `export`.
pub open spec fn export_stem(rel_path: Seq<char>) -> Seq<char> {
    match spec_file_stem(rel_path) {
        Some(s) => s,
        None => "export"@,
    }
}

/// Where an HTML export is written: `{stem}.html` in the chosen directory,
/// or in the vault's `export` directory.
pub open spec fn spec_export_dest(vault: Seq<char>, rel_path: Seq<char>, dest_dir: Option<
    Seq<char>,
>) -> Seq<char> {
    let file = export_stem(rel_path) + ".html"@;
    match dest_dir {
        Some(dir) => spec_join(dir, file),
        None => spec_join(spec_join(vault, "export"@), file),
    }
}

/// An HTML export is the file `{stem}.html`, a name without `/`, and it
/// lands in the chosen directory: `dir/{stem}.html` (with no second `/`
/// when `dir` already ends with one), or, with no directory chosen,
/// `vault/export/{stem}.html`.
pub proof fn lemma_export_dest_in_directory(vault: Seq<char>, rel_path: Seq<char>, dir: Seq<char>)
    ensures
        ({
            let f = export_stem(rel_path) + ".html"@;
            &&& f.len() > 5
            &&& forall|i: int| 0 <= i < f.len() ==> f[i] != '/'
            &&& dir.len() > 0 && dir.last() != '/' ==> spec_export_dest(vault, rel_path, Some(dir))
                == dir + seq!['/'] + f
            &&& dir.len() > 0 && dir.last() == '/' ==> spec_export_dest(vault, rel_path, Some(dir))
                == dir + f
            &&& dir.len() == 0 ==> spec_export_dest(vault, rel_path, Some(dir)) == f
            &&& vault.len() > 0 && vault.last() != '/' ==> spec_export_dest(vault, rel_path, None)
                == vault + "/export/"@ + f
        }),
{
    reveal_strlit(".html");
    reveal_strlit("export");
    reveal_strlit("/export/");
    lemma_file_stem_plain(rel_path);
    let st = export_stem(rel_path);
    let f = st + ".html"@;
    assert(st.len() > 0);
    assert forall|i: int| 0 <= i < f.len() implies f[i] != '/' by {
        if i < st.len() {
            assert(f[i] == st[i]);
        } else {
            assert(f[i] == ".html"@[i - st.len()]);
        }
    }
    assert(f[0] != '/');
    if vault.len() > 0 && vault.last() != '/' {
        let e = vault + seq!['/'] + "export"@;
        assert(spec_join(vault, "export"@) == e);
        assert(e.last() == 't');
        assert(e + seq!['/'] + f =~= vault + "/export/"@ + f);
    }
}

/// The exported HTML file: the shell with the escaped title, the style
/// sheet and the rendered body.
pub open spec fn spec_export_document(stem: Seq<char>, body: Seq<char>) -> Seq<char> {
    "<!doctype html>\n<html lang=\"zh-CN\">\n<head>\n<meta charset=\"utf-8\">\n<title>"@
        + spec_html_escape(stem) + "</title>\n<style>"@ + EXPORT_CSS@
        + "</style>\n</head>\n<body>\n<div class=\"markdown-body\">"@ + body
        + "</div>\n</body>\n</html>\n"@
}

/// The characters HTML escaping removes from text.
pub open spec fn is_html_special(c: char) -> bool {
    c == '<' || c == '>' || c == '"'
}

/// Escaped text holds no `<`, `>` or `"`: it can stand in HTML text and in
/// a quoted attribute value without changing the markup around it.
pub proof fn lemma_html_escape_no_markup(s: Seq<char>)
    ensures
        forall|i: int|
            0 <= i < spec_html_escape(s).len() ==> !is_html_special(
                #[trigger] spec_html_escape(s)[i],
            ),
    decreases s.len(),
{
    if s.len() > 0 {
        lemma_html_escape_no_markup(s.drop_last());
        reveal_strlit("&amp;");
        reveal_strlit("&lt;");
        reveal_strlit("&gt;");
        reveal_strlit("&quot;");
        let prev = spec_html_escape(s.drop_last());
        let e = escape_char(s.last());
        assert forall|i: int| 0 <= i < e.len() implies !is_html_special(#[trigger] e[i]) by {}
        assert forall|i: int| 0 <= i < spec_html_escape(s).len() implies !is_html_special(
            #[trigger] spec_html_escape(s)[i],
        ) by {
            if i < prev.len() {
                assert(spec_html_escape(s)[i] == prev[i]);
            } else {
                assert(spec_html_escape(s)[i] == e[i - prev.len()]);
            }
        }
    }
}

/// Escapes `&`, `<`, `>` and `"` for HTML.
pub fn html_escape(s: &str) -> (r: String)
    ensures
        r@ == spec_html_escape(s@),
{
    let v = chars_of(s);
    let mut r = String::new();
    let mut i: usize = 0;
    assert(v@.take(0) =~= Seq::<char>::empty());
    while i < v.len()
        invariant
            i <= v.len(),
            r@ == spec_html_escape(v@.take(i as int)),
        decreases v.len() - i,
    {
        let c = v[i];
        assert(v@.take(i + 1).drop_last() =~= v@.take(i as int));
        if c == '&' {
            push_str(&mut r, "&amp;");
        } else if c == '<' {
            push_str(&mut r, "&lt;");
        } else if c == '>' {
            push_str(&mut r, "&gt;");
        } else if c == '"' {
            push_str(&mut r, "&quot;");
        } else {
            push_char(&mut r, c);
            assert(r@ =~= spec_html_escape(v@.take(i as int)) + escape_char(c));
        }
        i += 1;
    }
    assert(v@.take(v.len() as int) =~= v@);
    r
}

/// What an export writes: the destination path and the document.
#[derive(Debug, Clone)]
pub struct ExportPlan {
    pub dest: String,
    pub document: String,
}

pub struct ExportService;

impl ExportService {
    /// The stem an export is named after.
    pub fn stem(rel_path: &str) -> (s: String)
        ensures
            s@ == export_stem(rel_path@),
    {
        match file_stem(rel_path) {
            Some(s) => s,
            None => "export".to_owned(),
        }
    }

    /// The exported HTML file for a document titled `stem` whose rendered
    /// body is `body`.
    pub fn export_document(stem: &str, body: &str) -> (r: String)
        ensures
            r@ == spec_export_document(stem@, body@),
    {
        let mut r =
            "<!doctype html>\n<html lang=\"zh-CN\">\n<head>\n<meta charset=\"utf-8\">\n<title>".to_owned();
        let t = html_escape(stem);
        push_str(&mut r, t.as_str());
        push_str(&mut r, "</title>\n<style>");
        push_str(&mut r, EXPORT_CSS);
        push_str(&mut r, "</style>\n</head>\n<body>\n<div class=\"markdown-body\">");
        push_str(&mut r, body);
        push_str(&mut r, "</div>\n</body>\n</html>\n");
        r
    }

    /// Export a document whose markdown is `content`: an HTML file at
    /// `{dest_dir or <vault>/export}/{stem}.html`. The document path must
    /// meet the same rule as for opening and saving (else `InvalidPath`).
    /// PDF export is not done here (the frontend prints), and is refused as
    /// not implemented.
    pub fn export_plan(
        vault: &str,
        rel_path: &str,
        format: ExportFormat,
        dest_dir: Option<&str>,
        content: &str,
    ) -> (r: Result<ExportPlan, AppError>)
        ensures
            rel_path_rejected(rel_path@) ==> (r matches Err(e) && invalid_path_of(e, rel_path@)),
            !rel_path_rejected(rel_path@) && format is Pdf ==> (r matches Err(e) && e matches AppError::NotImplemented(m) && m@
                == "ExportService::export pdf (use print pipeline)"@),
            !rel_path_rejected(rel_path@) && format is Html ==> (r matches Ok(p) && p.dest@ == spec_export_dest(
                vault@,
                rel_path@,
                match dest_dir {
                    Some(d) => Some(d@),
                    None => None,
                },
            ) && p.document@ == spec_export_document(
                export_stem(rel_path@),
                spec_render(content@),
            )),
    {
        DocumentService::validate_rel_path(rel_path)?;
        let body = match RenderService::render_markdown(content) {
            Ok(b) => b,
            Err(e) => return Err(e),
        };
        let stem = Self::stem(rel_path);
        let mut file = stem.clone();
        push_str(&mut file, ".html");
        let dest = match format {
            ExportFormat::Html => match dest_dir {
                Some(dir) => join(dir, file.as_str()),
                None => {
                    let d = join(vault, "export");
                    join(d.as_str(), file.as_str())
                },
            },
            ExportFormat::Pdf => {
                return Err(
                    AppError::NotImplemented("ExportService::export pdf (use print pipeline)"),
                );
            },
        };
        let document = Self::export_document(stem.as_str(), body.as_str());
        Ok(ExportPlan { dest, document })
    }
}

} // verus!
