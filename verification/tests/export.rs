use ruach::error::AppError;
use ruach::export::{html_escape, ExportFormat, ExportService};

#[test]
fn html_escape_escapes_markup() {
    assert_eq!(html_escape("a & <b> \"c\""), "a &amp; &lt;b&gt; &quot;c&quot;");
    assert_eq!(html_escape("风的形状"), "风的形状");
    assert_eq!(html_escape("&amp;"), "&amp;amp;");
}

#[test]
fn html_export_is_self_contained() {
    let p = ExportService::export_plan("/v", "风的形状.md", ExportFormat::Html, None, "# 风的形状\n\n正文\n")
        .unwrap();
    assert_eq!(p.dest, "/v/export/风的形状.html");
    assert!(p.document.starts_with("<!doctype html>"));
    assert!(p.document.contains("<h1"));
    assert!(p.document.contains("风的形状"));
    assert!(p.document.contains("<style>"));
    assert!(p.document.contains("<title>风的形状</title>"));
}

#[test]
fn export_goes_to_the_chosen_directory() {
    let p = ExportService::export_plan("/v", "notes/a<b>.md", ExportFormat::Html, Some("/out/"), "x")
        .unwrap();
    assert_eq!(p.dest, "/out/a<b>.html");
    assert!(p.document.contains("<title>a&lt;b&gt;</title>"));
}

#[test]
fn pdf_export_is_not_implemented() {
    match ExportService::export_plan("/v", "a.md", ExportFormat::Pdf, None, "x") {
        Err(AppError::NotImplemented(m)) => {
            assert_eq!(m, "ExportService::export pdf (use print pipeline)")
        }
        other => panic!("unexpected {:?}", other),
    }
    assert_eq!(ExportService::stem(".."), "export");
}

#[test]
fn escaped_titles_hold_no_markup() {
    let e = html_escape("<script>\"x\" & 'y'</script>");
    assert!(!e.contains('<') && !e.contains('>') && !e.contains('"'));
    assert_eq!(e, "&lt;script&gt;&quot;x&quot; &amp; 'y'&lt;/script&gt;");
}

#[test]
fn export_refuses_paths_outside_the_vault() {
    match ExportService::export_plan("/v", "../secret.md", ExportFormat::Html, None, "x") {
        Err(AppError::InvalidPath(p)) => assert_eq!(p, "../secret.md"),
        other => panic!("unexpected {:?}", other),
    }
    assert!(matches!(
        ExportService::export_plan("/v", "/etc/passwd", ExportFormat::Pdf, None, "x"),
        Err(AppError::InvalidPath(_))
    ));
}
