use download_manager::{DownloadItem, DownloadStatus, DownloadStore};

fn item(path: &str, url: &str, progress: u64, status: DownloadStatus) -> DownloadItem {
    DownloadItem {
        url: url.to_string(),
        path: path.to_string(),
        progress,
        status,
    }
}

#[test]
fn serialized_form_is_exact() {
    let mut store = DownloadStore::new();
    store
        .create(item(
            "/tmp/a.bin",
            "https://h/a.bin",
            25,
            DownloadStatus::InProgress,
        ))
        .unwrap();
    assert_eq!(
        store.to_json(),
        "[{\"url\":\"https://h/a.bin\",\"path\":\"/tmp/a.bin\",\"progress\":25,\"status\":\"inProgress\"}]"
    );
}

#[test]
fn empty_store_serializes_to_empty_array() {
    let store = DownloadStore::new();
    assert_eq!(store.to_json(), "[]");
    let mut other = DownloadStore::new();
    other.load("[]").unwrap();
    assert!(other.list().unwrap().is_empty());
}

#[test]
fn escapes_are_written_and_read_back() {
    let mut store = DownloadStore::new();
    store
        .create(item(
            "/tmp/we\"ird\\name\n.bin",
            "https://h/q?x=\"1\"",
            7,
            DownloadStatus::Paused,
        ))
        .unwrap();
    let json = store.to_json();
    assert!(json.contains("we\\\"ird\\\\name\\n.bin"));

    let mut reloaded = DownloadStore::new();
    reloaded.load(&json).unwrap();
    let found = reloaded.find_by_path("/tmp/we\"ird\\name\n.bin").unwrap().unwrap();
    assert_eq!(found.url, "https://h/q?x=\"1\"");
    assert_eq!(found.progress, 7);
    assert_eq!(found.status, DownloadStatus::Paused);
}

#[test]
fn round_trip_preserves_any_record_set() {
    let mut store = DownloadStore::new();
    store
        .create(item(
            "/tmp/a.bin",
            "https://example.com/a.bin",
            0,
            DownloadStatus::Idle,
        ))
        .unwrap();
    store
        .create(item(
            "/tmp/b tab\t.bin",
            "http://example.com/b?r=\r",
            42,
            DownloadStatus::InProgress,
        ))
        .unwrap();
    store
        .create(item(
            "/tmp/c.bin",
            "https://example.com/c.bin",
            100,
            DownloadStatus::Paused,
        ))
        .unwrap();

    let json = store.to_json();
    let mut reloaded = DownloadStore::new();
    reloaded.load(&json).unwrap();

    let before = store.list().unwrap();
    let after = reloaded.list().unwrap();
    assert_eq!(before.len(), after.len());
    for (x, y) in before.iter().zip(after.iter()) {
        assert_eq!(x.url, y.url);
        assert_eq!(x.path, y.path);
        assert_eq!(x.progress, y.progress);
        assert_eq!(x.status, y.status);
    }
}

#[test]
fn trailing_garbage_is_rejected() {
    let mut store = DownloadStore::new();
    assert!(store.load("[]x").is_err());
    assert!(store.load("").is_err());
    assert!(store
        .load("[{\"url\":\"u\",\"path\":\"/p\",\"progress\":1,\"status\":\"idle\"}]extra")
        .is_err());
}

#[test]
fn unknown_status_label_is_rejected() {
    let mut store = DownloadStore::new();
    assert!(store
        .load("[{\"url\":\"u\",\"path\":\"/p\",\"progress\":1,\"status\":\"running\"}]")
        .is_err());
}

#[test]
fn oversized_progress_is_rejected() {
    let mut store = DownloadStore::new();
    assert!(store
        .load("[{\"url\":\"u\",\"path\":\"/p\",\"progress\":99999999999999999999999,\"status\":\"idle\"}]")
        .is_err());
}

#[test]
fn every_status_label_round_trips() {
    let statuses = [
        DownloadStatus::Unknown,
        DownloadStatus::Pending,
        DownloadStatus::Idle,
        DownloadStatus::InProgress,
        DownloadStatus::Paused,
        DownloadStatus::Cancelled,
        DownloadStatus::Completed,
    ];
    let mut store = DownloadStore::new();
    for (i, status) in statuses.iter().enumerate() {
        store
            .create(item(
                &format!("/tmp/s{}.bin", i),
                "https://h/s.bin",
                i as u64,
                *status,
            ))
            .unwrap();
    }
    let mut reloaded = DownloadStore::new();
    reloaded.load(&store.to_json()).unwrap();
    let after = reloaded.list().unwrap();
    assert_eq!(after.len(), statuses.len());
    for (i, status) in statuses.iter().enumerate() {
        assert_eq!(after[i].status, *status);
        assert_eq!(after[i].progress, i as u64);
    }
}
