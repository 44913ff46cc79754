use download_manager::{ChangeSink, DownloadItem, DownloadManager, DownloadStatus, Error};

struct RecordingSink {
    events: Vec<DownloadItem>,
}

impl ChangeSink for RecordingSink {
    fn on_changed(&mut self, item: DownloadItem) {
        self.events.push(item);
    }
}

fn new_manager() -> DownloadManager<RecordingSink> {
    DownloadManager::new(RecordingSink { events: Vec::new() })
}

#[test]
fn create_inserts_idle_record() {
    let mut mgr = new_manager();
    let resp = mgr.create("/tmp/a.bin", "https://host/a.bin").unwrap();
    assert!(resp.is_expected_status);
    assert_eq!(resp.download.status, DownloadStatus::Idle);
    assert_eq!(resp.download.progress, 0);
    assert_eq!(mgr.list().unwrap().len(), 1);
}

#[test]
fn create_rejects_bad_inputs() {
    let mut mgr = new_manager();
    assert!(matches!(
        mgr.create("relative.bin", "https://host/a.bin"),
        Err(Error::Path(_))
    ));
    assert!(matches!(
        mgr.create("/tmp/a.bin", "ftp://host/a.bin"),
        Err(Error::Url(_))
    ));
    assert!(mgr.list().unwrap().is_empty());
}

#[test]
fn create_is_idempotent_safe() {
    let mut mgr = new_manager();
    let first = mgr.create("/tmp/a.bin", "https://host/a.bin").unwrap();
    let second = mgr.create("/tmp/a.bin", "https://host/a.bin").unwrap();
    assert_eq!(first.download.path, second.download.path);
    assert_eq!(first.download.url, second.download.url);
    assert_eq!(first.download.status, second.download.status);
    assert_eq!(second.expected_status, DownloadStatus::Idle);
    assert!(second.is_expected_status);
    assert_eq!(mgr.list().unwrap().len(), 1);
}

#[test]
fn get_missing_returns_pending() {
    let mgr = new_manager();
    let item = mgr.get("/tmp/none.bin").unwrap();
    assert_eq!(item.status, DownloadStatus::Pending);
    assert_eq!(item.progress, 0);
    assert_eq!(item.url, "");
    assert_eq!(item.path, "/tmp/none.bin");
}

#[test]
fn cancel_removes_record_and_requests_file_removal() {
    let mut mgr = new_manager();
    mgr.create("/tmp/a.bin", "https://host/a.bin").unwrap();
    let (resp, remove_file) = mgr.cancel("/tmp/a.bin").unwrap();
    assert!(remove_file);
    assert_eq!(resp.download.status, DownloadStatus::Cancelled);
    assert!(mgr.list().unwrap().is_empty());

    // A later get reports the synthetic Pending record.
    let after = mgr.get("/tmp/a.bin").unwrap();
    assert_eq!(after.status, DownloadStatus::Pending);

    // The cancellation was notified.
    assert_eq!(
        mgr.sink.events.last().unwrap().status,
        DownloadStatus::Cancelled
    );
}

#[test]
fn cancel_unknown_path_is_not_found() {
    let mut mgr = new_manager();
    assert!(matches!(
        mgr.cancel("/tmp/none.bin"),
        Err(Error::NotFound(_))
    ));
}

#[test]
fn init_demotes_in_progress_records() {
    let mut mgr = new_manager();
    mgr.load(
        "[{\"url\":\"https://h/a\",\"path\":\"/tmp/a\",\"progress\":0,\"status\":\"inProgress\"},{\"url\":\"https://h/b\",\"path\":\"/tmp/b\",\"progress\":45,\"status\":\"inProgress\"},{\"url\":\"https://h/c\",\"path\":\"/tmp/c\",\"progress\":10,\"status\":\"paused\"}]",
    )
    .unwrap();
    mgr.init();
    let items = mgr.list().unwrap();
    assert_eq!(items[0].status, DownloadStatus::Idle);
    assert_eq!(items[0].progress, 0);
    assert_eq!(items[1].status, DownloadStatus::Paused);
    assert_eq!(items[1].progress, 45);
    // Untouched record keeps its state.
    assert_eq!(items[2].status, DownloadStatus::Paused);
    assert_eq!(items[2].progress, 10);
}

#[test]
fn start_gates_on_idle() {
    let mut mgr = new_manager();
    mgr.create("/tmp/a.bin", "https://host/a.bin").unwrap();
    let (resp, task) = mgr.start("/tmp/a.bin").unwrap();
    assert!(resp.is_expected_status);
    assert_eq!(resp.download.status, DownloadStatus::InProgress);
    let item = task.expect("start from Idle must hand out a task");
    assert_eq!(item.status, DownloadStatus::InProgress);

    // Once the task has persisted InProgress, a second start is a no-op.
    mgr.download_started(&item);
    let (resp2, task2) = mgr.start("/tmp/a.bin").unwrap();
    assert!(task2.is_none());
    assert_eq!(resp2.expected_status, DownloadStatus::InProgress);
}

#[test]
fn start_unknown_path_is_not_found() {
    let mgr = new_manager();
    assert!(matches!(mgr.start("/tmp/none.bin"), Err(Error::NotFound(_))));
}

#[test]
fn pause_gates_on_in_progress() {
    let mut mgr = new_manager();
    mgr.create("/tmp/a.bin", "https://host/a.bin").unwrap();

    // Still idle: pausing changes nothing and succeeds anyway.
    let resp = mgr.pause("/tmp/a.bin").unwrap();
    assert!(!resp.is_expected_status);
    assert_eq!(resp.download.status, DownloadStatus::Idle);

    let (_, task) = mgr.start("/tmp/a.bin").unwrap();
    mgr.download_started(&task.unwrap());
    let resp = mgr.pause("/tmp/a.bin").unwrap();
    assert!(resp.is_expected_status);
    assert_eq!(resp.download.status, DownloadStatus::Paused);
    assert_eq!(
        mgr.sink.events.last().unwrap().status,
        DownloadStatus::Paused
    );

    // Resume finds the paused record and hands out a task again.
    let (resp, task) = mgr.resume("/tmp/a.bin").unwrap();
    assert!(resp.is_expected_status);
    assert!(task.is_some());
}

#[test]
fn resume_gates_on_paused() {
    let mut mgr = new_manager();
    mgr.create("/tmp/a.bin", "https://host/a.bin").unwrap();
    // Idle, not Paused: no task is handed out.
    let (resp, task) = mgr.resume("/tmp/a.bin").unwrap();
    assert!(task.is_none());
    assert_eq!(resp.expected_status, DownloadStatus::InProgress);
    assert!(!resp.is_expected_status);
}
