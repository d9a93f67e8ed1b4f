use launcher::download_marker::MarkerFile;
use launcher::file_marker_manager::FileMarkerManager;
use launcher::marker_manager::{MarkerManager, MarkerStore, ReconcileOutcome};

fn marker(sha256: &str, url: &str) -> MarkerFile {
    MarkerFile {
        sha256: sha256.to_string(),
        url: url.to_string(),
    }
}

#[test]
fn test_encode_is_deterministic_two_line_form() {
    let marker_file = marker("dummysha256", "https://example.com/test.zip");
    assert_eq!(
        marker_file.encode(),
        "sha256: dummysha256\nurl: https://example.com/test.zip\n"
    );
    assert_eq!(marker_file.encode(), marker_file.encode());
}

#[test]
fn test_is_stale_decides_by_serialized_bytes() {
    let marker_file = marker("dummysha256", "https://example.com/test.zip");
    let missing = MarkerStore::new();
    assert!(missing.is_stale(&marker_file));
    let same = MarkerStore {
        contents: Some(marker_file.encode()),
    };
    assert!(!same.is_stale(&marker_file));
    let other = MarkerStore {
        contents: Some(marker("othersha256", "https://example.com/test.zip").encode()),
    };
    assert!(other.is_stale(&marker_file));
}

#[test]
fn test_invoke_if_different_creates_file_when_missing() {
    let marker_file = marker("dummysha256", "https://example.com/test.zip");
    let manager = FileMarkerManager::new();
    let mut store = MarkerStore::new();

    let outcome = manager.invoke_if_different(&mut store, &marker_file, true);

    assert_eq!(outcome, ReconcileOutcome::Refreshed);
    assert!(store.contents.is_some());
    assert_eq!(store.contents.unwrap(), marker_file.encode());
}

#[test]
fn test_invoke_if_different_does_not_call_callback_when_file_is_same() {
    let marker_file = marker("dummysha256", "https://example.com/test.zip");
    let manager = FileMarkerManager::new();
    let mut store = MarkerStore {
        contents: Some(marker_file.encode()),
    };

    let outcome = manager.invoke_if_different(&mut store, &marker_file, true);

    assert_eq!(outcome, ReconcileOutcome::Fresh);
    assert_eq!(store.contents.unwrap(), marker_file.encode());
}

#[test]
fn test_invoke_if_different_replaces_file_when_different() {
    let old_marker_file = marker("oldsha256", "https://example.com/old.zip");
    let new_marker_file = marker("newsha256", "https://example.com/new.zip");
    let manager = FileMarkerManager::new();
    let mut store = MarkerStore {
        contents: Some(old_marker_file.encode()),
    };

    let outcome = manager.invoke_if_different(&mut store, &new_marker_file, true);

    assert_eq!(outcome, ReconcileOutcome::Refreshed);
    assert_eq!(store.contents.unwrap(), new_marker_file.encode());
}

#[test]
fn test_failed_refresh_leaves_no_marker() {
    let old_marker_file = marker("oldsha256", "https://example.com/old.zip");
    let new_marker_file = marker("newsha256", "https://example.com/new.zip");
    let manager = FileMarkerManager::new();
    let mut store = MarkerStore {
        contents: Some(old_marker_file.encode()),
    };

    let outcome = manager.invoke_if_different(&mut store, &new_marker_file, false);

    assert_eq!(outcome, ReconcileOutcome::RefreshFailed);
    assert!(store.contents.is_none());

    // The very next reconcile, with any fingerprint, finds the cache stale.
    let outcome = manager.invoke_if_different(&mut store, &old_marker_file, true);
    assert_eq!(outcome, ReconcileOutcome::Refreshed);
    assert_eq!(store.contents.unwrap(), old_marker_file.encode());
}

#[test]
fn test_second_reconcile_with_same_fingerprint_is_noop() {
    let marker_file = marker("dummysha256", "https://example.com/test.zip");
    let manager = FileMarkerManager::new();
    let mut store = MarkerStore::new();

    let first = manager.invoke_if_different(&mut store, &marker_file, true);
    let second = manager.invoke_if_different(&mut store, &marker_file, true);

    assert_eq!(first, ReconcileOutcome::Refreshed);
    assert_eq!(second, ReconcileOutcome::Fresh);
    assert_eq!(store.contents.unwrap(), marker_file.encode());
}

#[test]
fn test_url_change_alone_invalidates_cache() {
    let first = marker("samesha256", "https://example.com/a.zip");
    let second = marker("samesha256", "https://example.com/b.zip");
    let manager = FileMarkerManager::new();
    let mut store = MarkerStore {
        contents: Some(first.encode()),
    };

    let outcome = manager.invoke_if_different(&mut store, &second, true);

    assert_eq!(outcome, ReconcileOutcome::Refreshed);
    assert_eq!(store.contents.unwrap(), second.encode());
}
