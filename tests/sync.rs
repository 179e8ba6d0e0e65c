use pacman_dl::input::list_entry;
use pacman_dl::sync::{conditional_headers, fetch_status, sync_actions, FetchOutcome, FetchStatus, SyncAction};

#[test]
fn not_modified_leaves_directory_alone() {
    assert_eq!(sync_actions(&FetchOutcome::NotModified), vec![]);
}

#[test]
fn fetched_archive_replaces_directory() {
    let outcome = FetchOutcome::Fetched {
        last_modified: Some("Sat, 01 Jan 2022 00:00:00 GMT".to_string()),
        etag: None,
    };
    assert_eq!(
        sync_actions(&outcome),
        vec![
            SyncAction::RemoveValidators,
            SyncAction::RecreateDirectory,
            SyncAction::Extract,
            SyncAction::StoreLastModified("Sat, 01 Jan 2022 00:00:00 GMT".to_string()),
        ]
    );
    let outcome = FetchOutcome::Fetched { last_modified: None, etag: Some("\"abc\"".to_string()) };
    assert_eq!(
        sync_actions(&outcome),
        vec![
            SyncAction::RemoveValidators,
            SyncAction::RecreateDirectory,
            SyncAction::Extract,
            SyncAction::StoreEtag("\"abc\"".to_string()),
        ]
    );
}

#[test]
fn status_classification() {
    assert_eq!(fetch_status(304), FetchStatus::NotModified);
    assert_eq!(fetch_status(200), FetchStatus::Fetched);
    assert_eq!(fetch_status(404), FetchStatus::Failed);
    assert_eq!(fetch_status(503), FetchStatus::Failed);
    assert_eq!(fetch_status(302), FetchStatus::Failed);
    assert_eq!(fetch_status(204), FetchStatus::Fetched);
}

#[test]
fn headers_for_stored_validators() {
    assert_eq!(conditional_headers(None, None), vec![]);
    assert_eq!(
        conditional_headers(Some("yesterday"), Some("tag")),
        vec![
            ("If-Modified-Since".to_string(), "yesterday".to_string()),
            ("If-None-Match".to_string(), "tag".to_string()),
        ]
    );
    assert_eq!(conditional_headers(None, Some("tag")), vec![("If-None-Match".to_string(), "tag".to_string())]);
}

#[test]
fn list_lines() {
    assert_eq!(list_entry("  foo \r"), Some("foo".to_string()));
    assert_eq!(list_entry("# comment"), None);
    assert_eq!(list_entry("   "), None);
    assert_eq!(list_entry("\tbar"), Some("bar".to_string()));
}
