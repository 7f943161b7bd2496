use ruach::index::IndexService;
use ruach::error::AppError;

#[test]
fn extracts_tags_and_links() {
    let content = "# 标题\n\n正文\n\n#tag, #daily/2026-08-03\n\n参考 [[另一个笔记]] 和 [[未创建]]\n";
    let m = IndexService::extract_markers(content);
    assert!(m.tags.contains(&"tag".to_string()));
    assert!(m.tags.contains(&"daily/2026-08-03".to_string()));
    assert_eq!(m.links, vec!["另一个笔记", "未创建"]);
}

#[test]
fn heading_is_not_tag() {
    let m = IndexService::extract_markers("# 标题\n");
    assert!(m.tags.is_empty());
}

#[test]
fn tag_lines_are_whole_lines() {
    let m = IndexService::extract_markers("text #nottag\n  #a, b ,#c#  \n##h2\n#x y\n#\n#,,#d\r\n");
    assert_eq!(m.tags, vec!["a", "b", "c", "d"]);
}

#[test]
fn links_are_trimmed_and_need_a_close() {
    let m = IndexService::extract_markers("[[ a ]] [[]] [[  ]] [[b]] [[[c]]] [[open");
    assert_eq!(m.links, vec!["a", "b", "[c"]);
    let m = IndexService::extract_markers("[[x\ny]]");
    assert_eq!(m.links, vec!["x\ny"]);
}

#[test]
fn index_rows_carry_title_and_markers() {
    let r = IndexService::index_rows("notes/a.md", "# 风的形状\n\n#tag\n\n[[b]]\n");
    assert_eq!(r.rel_path, "notes/a.md");
    assert_eq!(r.title, "风的形状");
    assert_eq!(r.tags, vec!["tag"]);
    assert_eq!(r.links, vec!["b"]);
    assert_eq!(r.body, "# 风的形状\n\n#tag\n\n[[b]]\n");
    let r = IndexService::index_rows("notes/b.md", "无标记\n");
    assert_eq!(r.title, "b");
    assert!(r.tags.is_empty());
    assert!(r.links.is_empty());
}

#[test]
fn only_markdown_paths_are_indexable() {
    assert!(IndexService::check_indexable("notes/a.md").is_ok());
    assert!(IndexService::check_indexable("my..notes.md").is_ok());
    for p in ["notes/a.txt", "notes/a.md.bak", "md", "../a.md", "/etc/a.md", "C:a.md", ""] {
        match IndexService::check_indexable(p) {
            Err(AppError::InvalidPath(q)) => assert_eq!(q, p),
            other => panic!("unexpected {:?} for {p}", other),
        }
    }
}
