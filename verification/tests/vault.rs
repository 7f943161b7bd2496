use ruach::vault::{ScanStep, VaultService};

#[test]
fn sidecar_lives_in_dot_ruach() {
    assert_eq!(VaultService::sidecar_path("/home/me/vault"), "/home/me/vault/.ruach/index.db");
    assert_eq!(VaultService::sidecar_path("/home/me/vault/"), "/home/me/vault/.ruach/index.db");
}

#[test]
fn scan_lists_markdown_and_directories_only() {
    match VaultService::scan_step("", "notes", true) {
        ScanStep::Descend(n) => {
            assert_eq!(n.rel_path, "notes");
            assert!(n.is_dir);
        }
        other => panic!("unexpected {:?}", other),
    }
    match VaultService::scan_step("notes/sub", "b.md", false) {
        ScanStep::Document(n) => {
            assert_eq!(n.rel_path, "notes/sub/b.md");
            assert_eq!(n.name, "b.md");
            assert!(!n.is_dir);
        }
        other => panic!("unexpected {:?}", other),
    }
    assert!(matches!(VaultService::scan_step("notes", "img.png", false), ScanStep::Skip));
    assert!(matches!(VaultService::scan_step("", ".ruach", true), ScanStep::Skip));
    assert!(matches!(VaultService::scan_step("", ".hidden.md", false), ScanStep::Skip));
}

#[test]
fn prune_drops_rows_not_seen() {
    let rows = vec!["a.md".to_string(), "b.md".to_string(), "c.md".to_string()];
    let seen = vec!["c.md".to_string(), "a.md".to_string()];
    assert_eq!(VaultService::pruned(&rows, &seen), vec!["b.md".to_string()]);
    assert!(VaultService::pruned(&rows, &rows).is_empty());
    assert_eq!(VaultService::pruned(&rows, &vec![]), rows);
}
