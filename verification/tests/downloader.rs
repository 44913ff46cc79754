use download_manager::{
    ChangeSink, ChunkOutcome, DownloadItem, DownloadManager, DownloadSession, DownloadStatus,
    Error,
};

struct RecordingSink {
    events: Vec<DownloadItem>,
}

impl ChangeSink for RecordingSink {
    fn on_changed(&mut self, item: DownloadItem) {
        self.events.push(item);
    }
}

fn new_manager() -> DownloadManager<RecordingSink> {
    DownloadManager::new(RecordingSink { events: Vec::new() })
}

#[test]
fn full_download_scenario() {
    let mut mgr = new_manager();
    mgr.create("/tmp/a.bin", "https://host/a.bin").unwrap();
    let (resp, task) = mgr.start("/tmp/a.bin").unwrap();
    assert!(resp.is_expected_status);
    let item = task.expect("start from Idle must hand out a task");

    // The task persists InProgress before the first byte.
    mgr.download_started(&item);

    // Plain 200 response with content-length 2000, delivered in 500-byte
    // chunks.
    let mut session = DownloadSession::begin(item.clone(), 0, 200, Some(2000)).unwrap();
    let mut samples: Vec<u64> = Vec::new();
    for expected in [25u64, 50, 75] {
        match mgr.download_chunk(&mut session, 500) {
            ChunkOutcome::Progressed(it) => {
                assert_eq!(it.progress, expected);
                assert_eq!(it.status, DownloadStatus::InProgress);
                samples.push(it.progress);
            }
            other => panic!("expected a progress emission, got {:?}", other),
        }
    }
    match mgr.download_chunk(&mut session, 500) {
        ChunkOutcome::Completed(it) => {
            assert_eq!(it.progress, 100);
            assert_eq!(it.status, DownloadStatus::Completed);
        }
        other => panic!("expected completion, got {:?}", other),
    }

    // The record is gone after completion.
    assert!(mgr.list().unwrap().is_empty());

    // The final emission is Completed at exactly 100, and progress never
    // decreased across the emitted samples.
    let events = &mgr.sink.events;
    let last = events.last().unwrap();
    assert_eq!(last.status, DownloadStatus::Completed);
    assert_eq!(last.progress, 100);
    for pair in events.windows(2) {
        assert!(pair[0].progress <= pair[1].progress);
    }
}

#[test]
fn throttle_skips_sub_point_samples() {
    let mut mgr = new_manager();
    mgr.create("/tmp/t.bin", "https://host/t.bin").unwrap();
    let (_, task) = mgr.start("/tmp/t.bin").unwrap();
    let item = task.unwrap();
    mgr.download_started(&item);

    let mut session = DownloadSession::begin(item, 0, 200, Some(1000)).unwrap();
    // 5 of 1000 bytes: not yet a full percentage point.
    assert!(matches!(
        mgr.download_chunk(&mut session, 5),
        ChunkOutcome::Continue
    ));
    // 10 of 1000 bytes: crossed 1%.
    match mgr.download_chunk(&mut session, 5) {
        ChunkOutcome::Progressed(it) => assert_eq!(it.progress, 1),
        other => panic!("expected a progress emission, got {:?}", other),
    }
}

#[test]
fn unknown_total_reports_zero_progress() {
    let mut mgr = new_manager();
    mgr.create("/tmp/u.bin", "https://host/u.bin").unwrap();
    let (_, task) = mgr.start("/tmp/u.bin").unwrap();
    let item = task.unwrap();
    mgr.download_started(&item);

    // No content length: progress stays 0 and nothing is emitted.
    let mut session = DownloadSession::begin(item, 0, 200, None).unwrap();
    assert!(matches!(
        mgr.download_chunk(&mut session, 4096),
        ChunkOutcome::Continue
    ));
}

#[test]
fn pause_stops_streaming_and_resume_continues() {
    let mut mgr = new_manager();
    mgr.create("/tmp/p.bin", "https://host/p.bin").unwrap();
    let (_, task) = mgr.start("/tmp/p.bin").unwrap();
    let item = task.unwrap();
    mgr.download_started(&item);

    let mut session = DownloadSession::begin(item, 0, 200, Some(100)).unwrap();
    match mgr.download_chunk(&mut session, 40) {
        ChunkOutcome::Progressed(it) => assert_eq!(it.progress, 40),
        other => panic!("expected a progress emission, got {:?}", other),
    }

    // Pause lands in the store; the task observes it at its next sample.
    mgr.pause("/tmp/p.bin").unwrap();
    assert!(matches!(
        mgr.download_chunk(&mut session, 10),
        ChunkOutcome::Paused
    ));

    // The paused record keeps its persisted progress.
    let paused = mgr.get("/tmp/p.bin").unwrap();
    assert_eq!(paused.status, DownloadStatus::Paused);
    assert_eq!(paused.progress, 40);

    // Resume hands out a task; the new session starts at the bytes on
    // disk, at least the offset at pause time.
    let (resp, task) = mgr.resume("/tmp/p.bin").unwrap();
    assert!(resp.is_expected_status);
    let item = task.expect("resume from Paused must hand out a task");
    mgr.download_started(&item);
    let disk_bytes = 50u64;
    assert!(disk_bytes >= 40);
    let mut session = DownloadSession::begin(item, disk_bytes, 206, Some(50)).unwrap();
    match mgr.download_chunk(&mut session, 50) {
        ChunkOutcome::Completed(it) => assert_eq!(it.progress, 100),
        other => panic!("expected completion, got {:?}", other),
    }
    assert!(mgr.list().unwrap().is_empty());
}

#[test]
fn cancelled_record_detaches_stream() {
    let mut mgr = new_manager();
    mgr.create("/tmp/c.bin", "https://host/c.bin").unwrap();
    let (_, task) = mgr.start("/tmp/c.bin").unwrap();
    let item = task.unwrap();
    mgr.download_started(&item);
    let mut session = DownloadSession::begin(item, 0, 200, Some(100)).unwrap();

    mgr.cancel("/tmp/c.bin").unwrap();
    assert!(matches!(
        mgr.download_chunk(&mut session, 50),
        ChunkOutcome::Detached
    ));
}

#[test]
fn resume_without_partial_support_fails_and_rolls_back() {
    let mut mgr = new_manager();
    mgr.load(
        "[{\"url\":\"https://host/a.bin\",\"path\":\"/tmp/a.bin\",\"progress\":40,\"status\":\"paused\"}]",
    )
    .unwrap();

    let (resp, task) = mgr.resume("/tmp/a.bin").unwrap();
    assert!(resp.is_expected_status);
    let item = task.expect("resume from Paused must hand out a task");
    let original = mgr.get("/tmp/a.bin").unwrap();

    // The server answers the offset-40 range request with a plain 200.
    let r = DownloadSession::begin(item, 40, 200, Some(60));
    let err = match r {
        Err(e) => e,
        Ok(_) => panic!("a non-partial answer to a ranged request must fail"),
    };
    assert!(matches!(err, Error::Http(_)));
    assert!(err.message().contains("partial"));

    // The manager restores the pre-resume record and emits it.
    mgr.download_rollback(original);
    let after = mgr.get("/tmp/a.bin").unwrap();
    assert_eq!(after.status, DownloadStatus::Paused);
    assert_eq!(after.progress, 40);
    let last = mgr.sink.events.last().unwrap();
    assert_eq!(last.status, DownloadStatus::Paused);
    assert_eq!(last.progress, 40);
}

#[test]
fn stream_error_abandons_the_download() {
    let mut mgr = new_manager();
    mgr.create("/tmp/e.bin", "https://host/e.bin").unwrap();
    let (_, task) = mgr.start("/tmp/e.bin").unwrap();
    let item = task.unwrap();
    mgr.download_started(&item);

    // The stream broke: the record is deleted; the caller removes the
    // partial file and rolls the original record back in.
    mgr.download_failed("/tmp/e.bin");
    assert!(mgr.list().unwrap().is_empty());

    let original = DownloadItem {
        url: "https://host/e.bin".to_string(),
        path: "/tmp/e.bin".to_string(),
        progress: 0,
        status: DownloadStatus::Idle,
    };
    mgr.download_rollback(original);
    let after = mgr.get("/tmp/e.bin").unwrap();
    assert_eq!(after.status, DownloadStatus::Idle);
}
