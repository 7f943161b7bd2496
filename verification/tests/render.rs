use ruach::render::{filter_url_schemes, RenderService};

fn render(content: &str) -> String {
    RenderService::render_markdown(content).expect("render")
}

#[test]
fn renders_gfm_table() {
    let html = render("| a | b |\n|---|---|\n| 1 | 2 |\n");
    assert!(html.contains("<table>"));
    assert!(html.contains("<td>1</td>"));
}

#[test]
fn renders_strikethrough() {
    let html = render("~~删除~~");
    assert!(html.contains("<del>删除</del>"));
}

#[test]
fn drops_raw_html() {
    let html = render("正文\n\n<script>alert(1)</script>\n\n<img src=x onerror=alert(1)>");
    assert!(!html.contains("<script>"));
    assert!(!html.contains("onerror"));
}

#[test]
fn renders_code_block() {
    let html = render("```rust\nfn main() {}\n```\n");
    assert!(html.contains("<pre>"));
    assert!(html.contains("fn main() {}"));
}

#[test]
fn renders_tasklist() {
    let html = render("- [x] done\n- [ ] todo\n");
    assert!(html.contains("type=\"checkbox\""));
    assert!(html.contains("checked"));
}

#[test]
fn renders_heading_id() {
    let html = render("# 风的形状\n");
    assert!(html.contains("<h1"));
    assert!(html.contains("id="));
}

#[test]
fn render_settings_are_gfm_without_raw_html() {
    let o = RenderService::options();
    assert!(o.autolink && o.table && o.strikethrough && o.tasklist);
    assert!(o.superscript && o.footnotes && o.description_lists && o.smart);
    assert_eq!(o.header_id_prefix.as_deref(), Some(""));
}

#[test]
fn render_empties_links_with_other_schemes() {
    let html = render("[x](ftp://example.com/a.md)\n");
    assert!(html.contains("href=\"\""));
    assert!(!html.contains("ftp:"));
}

#[test]
fn render_drops_javascript_links() {
    let html = render("[x](javascript:alert(1))\n");
    assert!(!html.contains("javascript"));
    assert!(html.contains("href=\"\""));
}

#[test]
fn render_keeps_web_and_relative_urls() {
    let html = render("[x](https://example.com/a)\n\n![i](attachments/a.png)\n");
    assert!(html.contains("href=\"https://example.com/a\""));
    assert!(html.contains("src=\"attachments/a.png\""));
}

#[test]
fn filter_empties_disallowed_schemes() {
    assert_eq!(
        filter_url_schemes("<a href=\"JavaScript:alert(1)\">x</a>"),
        "<a href=\"\">x</a>"
    );
    assert_eq!(
        filter_url_schemes("<img src=\"data:image/png;base64,AAAA\" alt=\"\" />"),
        "<img src=\"\" alt=\"\" />"
    );
    assert_eq!(
        filter_url_schemes("<a href=\"javascript&#58;x\">y</a>"),
        "<a href=\"\">y</a>"
    );
    assert_eq!(filter_url_schemes("<a href=\"javascript:x"), "<a href=\"");
}

#[test]
fn filter_keeps_allowed_urls_and_text() {
    let kept = [
        "<a href=\"HTTPS://example.com/a\">x</a>",
        "<a href=\"http://example.com\">x</a>",
        "<a href=\"mailto:a@b.c\">x</a>",
        "<a href=\"#fn-1\">1</a>",
        "<img src=\"docs/a.png?x=1&amp;y=2\" alt=\"\" />",
        "<a href=\"\">x</a>",
        "<p>plain text, no links: a:b</p>",
        "",
    ];
    for h in kept {
        assert_eq!(filter_url_schemes(h), h);
    }
}

/// The scheme of a URL without tabs, line breaks or character references.
fn scheme_of(url: &str) -> Option<String> {
    let url = url.trim_start();
    let end = url.find(':')?;
    let head = &url[..end];
    let mut cs = head.chars();
    let first = cs.next()?;
    if first.is_ascii_alphabetic()
        && cs.all(|c| c.is_ascii_alphanumeric() || c == '+' || c == '-' || c == '.')
    {
        Some(head.to_string())
    } else {
        None
    }
}

fn url_values(html: &str) -> Vec<String> {
    let mut out = Vec::new();
    let mut rest = html;
    loop {
        let h = rest.find("href=\"").map(|i| (i, 6));
        let s = rest.find("src=\"").map(|i| (i, 5));
        let next = match (h, s) {
            (Some(a), Some(b)) => Some(if a.0 <= b.0 { a } else { b }),
            (a, b) => a.or(b),
        };
        let Some((i, k)) = next else { break };
        let after = &rest[i + k..];
        let end = after.find('"').unwrap_or(after.len());
        out.push(after[..end].to_string());
        rest = &after[end..];
    }
    out
}

#[test]
fn filtered_output_has_only_allowed_urls() {
    let html = "<a href=\"javascript:alert(1)\">a</a><img src=\"ftp://h/p\" />\
                <a href=\"https://ok.example/x\">b</a><a href=\"vbscript:x\">c</a>\
                <a href=\"notes/a.md\">d</a>";
    let out = filter_url_schemes(html);
    let values = url_values(&out);
    assert_eq!(values, vec!["", "", "https://ok.example/x", "", "notes/a.md"]);
    for v in values {
        let scheme = scheme_of(&v).map(|s| s.to_ascii_lowercase());
        assert!(matches!(scheme.as_deref(), None | Some("http" | "https" | "mailto")));
    }
}

#[test]
fn render_keeps_relative_names_with_ampersand_or_colon() {
    let html = render("[x](Tom&Jerry.md)\n\n[y](2024:notes.md)\n\n[z](it's.md)\n");
    assert!(html.contains("href=\"Tom&amp;Jerry.md\""));
    assert!(html.contains("href=\"2024:notes.md\""));
    assert!(html.contains("href=\"it&#x27;s.md\""));
}

#[test]
fn filter_reads_schemes_as_a_browser_does() {
    let dropped = [
        "<a href=\"jav&#97;script:x\">y</a>",
        "<a href=\" javascript:x\">y</a>",
        "<a href=\"java\tscript:x\">y</a>",
        "<a href=\"notes:a.md\">y</a>",
        "<a href=\"a&lt;b:c\">y</a>",
    ];
    for h in dropped {
        assert_eq!(filter_url_schemes(h), "<a href=\"\">y</a>");
    }
    let kept = [
        "<a href=\"Tom&amp;Jerry.md\">y</a>",
        "<a href=\"2024:notes.md\">y</a>",
        "<a href=\"it&#x27;s.md\">y</a>",
        "<a href=\"a_b:c\">y</a>",
        "<a href=\"Mailto:a@b.c\">y</a>",
        "<a href=\"ht\ttp://example.com\">y</a>",
    ];
    for h in kept {
        assert_eq!(filter_url_schemes(h), h);
    }
}
