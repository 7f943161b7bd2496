use ruach::path::{extension, file_name, file_stem, join};

#[test]
fn file_names_like_std_paths() {
    assert_eq!(file_name("notes/a.md").as_deref(), Some("a.md"));
    assert_eq!(file_name("foo.txt/.").as_deref(), Some("foo.txt"));
    assert_eq!(file_name("a/b/").as_deref(), Some("b"));
    assert_eq!(file_name("a/.."), None);
    assert_eq!(file_name("/"), None);
    assert_eq!(file_name(""), None);
}

#[test]
fn stems_and_extensions_like_std_paths() {
    assert_eq!(file_stem("notes/a.tar.gz").as_deref(), Some("a.tar"));
    assert_eq!(extension("notes/a.tar.gz").as_deref(), Some("gz"));
    assert_eq!(file_stem(".gitignore").as_deref(), Some(".gitignore"));
    assert_eq!(extension(".gitignore"), None);
    assert_eq!(file_stem("a.").as_deref(), Some("a"));
    assert_eq!(extension("a.").as_deref(), Some(""));
    assert_eq!(file_stem("noext").as_deref(), Some("noext"));
    assert_eq!(extension("noext"), None);
}

#[test]
fn join_like_std_paths() {
    assert_eq!(join("/v", "a.md"), "/v/a.md");
    assert_eq!(join("/v/", "a.md"), "/v/a.md");
    assert_eq!(join("", "a.md"), "a.md");
    assert_eq!(join("/v", "/etc/x"), "/etc/x");
}
