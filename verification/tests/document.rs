use ruach::document::DocumentService;
use ruach::error::AppError;

#[test]
fn validate_rejects_traversal_and_absolute() {
    assert!(DocumentService::validate_rel_path("../escape.md").is_err());
    assert!(DocumentService::validate_rel_path("/etc/passwd").is_err());
    assert!(DocumentService::validate_rel_path("C:/windows").is_err());
    assert!(DocumentService::validate_rel_path("").is_err());
    assert!(DocumentService::validate_rel_path("notes/a.md").is_ok());
}

#[test]
fn validate_rejects_backslash_and_double_slash() {
    assert!(DocumentService::validate_rel_path("notes\\a.md").is_err());
    assert!(DocumentService::validate_rel_path("notes//a.md").is_err());
    assert!(DocumentService::validate_rel_path("a/../b.md").is_err());
    assert!(DocumentService::validate_rel_path("a/..").is_err());
    assert!(DocumentService::validate_rel_path("..").is_err());
    assert!(DocumentService::validate_rel_path("d:\\x").is_err());
    assert!(DocumentService::validate_rel_path("C:foo").is_err());
    assert!(DocumentService::validate_rel_path("c:").is_err());
    assert!(DocumentService::validate_rel_path("notes/c:d.md").is_ok());
    assert!(DocumentService::validate_rel_path("notes/风的形状.md").is_ok());
    match DocumentService::validate_rel_path("../x") {
        Err(AppError::InvalidPath(p)) => assert_eq!(p, "../x"),
        other => panic!("unexpected {:?}", other),
    }
}

#[test]
fn validate_accepts_dots_inside_names() {
    assert!(DocumentService::validate_rel_path("my..notes.md").is_ok());
    assert!(DocumentService::validate_rel_path("a..b/").is_ok());
    assert!(DocumentService::validate_rel_path("a..b.md").is_ok());
    assert!(DocumentService::validate_rel_path("x/...md").is_ok());
}

#[test]
fn title_from_first_heading() {
    assert_eq!(DocumentService::title_from("# 风的形状\n\n正文", "a"), "风的形状");
    assert_eq!(DocumentService::title_from("无标题", "a"), "a");
}

#[test]
fn title_skips_blank_headings_and_subheadings() {
    assert_eq!(DocumentService::title_from("#    \n## Sub\n#  Real  \r\n", "x"), "Real");
    assert_eq!(DocumentService::title_from("  # indented\n", "x"), "x");
    assert_eq!(DocumentService::title_from("", "stem"), "stem");
    assert_eq!(DocumentService::title_from("#NoSpace\n", "stem"), "stem");
}

#[test]
fn opened_document_is_titled_by_heading_or_stem() {
    let r = DocumentService::opened("notes/a.md", "# Hello\n".to_string(), 42, 8);
    assert_eq!(r.content, "# Hello\n");
    assert_eq!(r.meta.title, "Hello");
    assert_eq!(r.meta.rel_path, "notes/a.md");
    assert_eq!(r.meta.mtime, 42);
    assert_eq!(r.meta.size, 8);
    let r = DocumentService::opened("notes/draft.md", "body".to_string(), 0, 4);
    assert_eq!(r.meta.title, "draft");
}

#[test]
fn save_conflicts_only_on_stale_mtime() {
    assert!(DocumentService::check_save("a.md", Some(10), Some(10)).is_ok());
    assert!(DocumentService::check_save("a.md", Some(10), None).is_ok());
    assert!(DocumentService::check_save("a.md", None, Some(3)).is_ok());
    assert!(matches!(
        DocumentService::check_save("a.md", Some(10), Some(0)),
        Err(AppError::FileChanged)
    ));
    assert!(matches!(
        DocumentService::check_save("../a.md", Some(10), Some(0)),
        Err(AppError::InvalidPath(_))
    ));
}

#[test]
fn temp_file_sits_beside_the_document() {
    assert_eq!(DocumentService::temp_file_name("a.md", 4242), ".a.md.4242.ruach-tmp");
}

#[test]
fn accepted_paths_join_below_the_vault() {
    for rel in ["notes/a.md", "a.md", "x/y/z.md"] {
        assert!(DocumentService::validate_rel_path(rel).is_ok());
        assert_eq!(ruach::path::join("/vault", rel), format!("/vault/{rel}"));
    }
    assert!(DocumentService::validate_rel_path("/vault2/a.md").is_err());
}
