use ruach::db::{SchemaPlanner, SCHEMA_VERSION};
use ruach::error::AppError;
use ruach::snapshot::SnapshotService;

#[test]
fn error_codes_and_messages() {
    let e = AppError::NotFound("a.md".to_string());
    assert_eq!(e.code(), "not_found");
    assert_eq!(e.message(), "document not found: a.md");
    assert_eq!(AppError::FileChanged.code(), "file_changed");
    assert_eq!(AppError::FileChanged.message(), "file changed on disk; refusing to overwrite");
    assert_eq!(AppError::Other("boom".to_string()).code(), "internal");
    assert_eq!(AppError::Other("boom".to_string()).message(), "boom");
    let e = AppError::SchemaVersion { found: 7, max: 2 };
    assert_eq!(e.code(), "schema_version");
    assert_eq!(e.message(), "vault database version 7 is newer than app version 2");
    let e = AppError::SchemaVersion { found: -12, max: 2 };
    assert_eq!(e.message(), "vault database version -12 is newer than app version 2");
    assert_eq!(AppError::Io("x".to_string()).message(), "io error: x");
    assert_eq!(AppError::Parse("x".to_string()).code(), "parse");
}

#[test]
fn schema_steps_by_version() {
    let s = SchemaPlanner::steps(0).unwrap();
    assert!(s.create_base && s.migrate_v2);
    let s = SchemaPlanner::steps(1).unwrap();
    assert!(!s.create_base && s.migrate_v2);
    let s = SchemaPlanner::steps(SCHEMA_VERSION).unwrap();
    assert!(!s.create_base && !s.migrate_v2);
    match SchemaPlanner::steps(3) {
        Err(AppError::SchemaVersion { found, max }) => {
            assert_eq!(found, 3);
            assert_eq!(max, 2);
        }
        other => panic!("unexpected {:?}", other),
    }
}

#[test]
fn snapshots_are_not_implemented_yet() {
    let conn = rusqlite::Connection::open_in_memory().unwrap();
    assert!(matches!(SnapshotService::create(&conn, "a.md"), Err(AppError::NotImplemented(_))));
    assert!(matches!(SnapshotService::restore(&conn, "a.md", 1), Err(AppError::NotImplemented(_))));
    assert!(matches!(SnapshotService::list(&conn, "a.md"), Err(AppError::NotImplemented(_))));
}
