//! Data model: download records, lifecycle states, and the response shape
//! shared by all gated state-transition operations.

use vstd::prelude::*;

verus! {

/// Lifecycle state of a download.
#[derive(Debug, Clone, Copy, PartialEq, Eq, Structural)]
pub enum DownloadStatus {
    /// Status could not be determined.
    Unknown,
    /// Download has not yet been created/persisted.
    Pending,
    /// Download has been created and is ready to start.
    Idle,
    /// Download is in progress.
    InProgress,
    /// Download was in progress but has been paused.
    Paused,
    /// Download was cancelled by the user.
    Cancelled,
    /// Download completed.
    Completed,
}

impl Default for DownloadStatus {
    fn default() -> (r: Self)
        ensures
            r == DownloadStatus::Unknown,
    {
        DownloadStatus::Unknown
    }
}

/// The human-readable label of a status.
pub open spec fn status_label(s: DownloadStatus) -> Seq<char> {
    match s {
        DownloadStatus::Unknown => "Unknown"@,
        DownloadStatus::Pending => "Pending"@,
        DownloadStatus::Idle => "Idle"@,
        DownloadStatus::InProgress => "InProgress"@,
        DownloadStatus::Paused => "Paused"@,
        DownloadStatus::Cancelled => "Cancelled"@,
        DownloadStatus::Completed => "Completed"@,
    }
}

impl DownloadStatus {
    /// The human-readable label of this status.
    pub fn as_str(&self) -> (r: &'static str)
        ensures
            r@ == status_label(*self),
    {
        match self {
            DownloadStatus::Unknown => "Unknown",
            DownloadStatus::Pending => "Pending",
            DownloadStatus::Idle => "Idle",
            DownloadStatus::InProgress => "InProgress",
            DownloadStatus::Paused => "Paused",
            DownloadStatus::Cancelled => "Cancelled",
            DownloadStatus::Completed => "Completed",
        }
    }
}

/// One download record: the persisted unit of work.
///
/// `path` is the destination location and doubles as the record's key.
/// `progress` is a percentage in `[0, 100]` whenever the record was produced
/// by the manager's own transitions.
#[derive(Debug)]
pub struct DownloadItem {
    pub url: String,
    pub path: String,
    pub progress: u64,
    pub status: DownloadStatus,
}

/// Mathematical value of a [`DownloadItem`].
pub ghost struct ItemView {
    pub url: Seq<char>,
    pub path: Seq<char>,
    pub progress: u64,
    pub status: DownloadStatus,
}

impl View for DownloadItem {
    type V = ItemView;

    open spec fn view(&self) -> ItemView {
        ItemView {
            url: self.url@,
            path: self.path@,
            progress: self.progress,
            status: self.status,
        }
    }
}

impl Clone for DownloadItem {
    fn clone(&self) -> (r: Self)
        ensures
            r@ == self@,
    {
        DownloadItem {
            url: self.url.clone(),
            path: self.path.clone(),
            progress: self.progress,
            status: self.status,
        }
    }
}

/// The record with its progress replaced and its status forced to
/// `InProgress`; everything else is kept.
pub open spec fn item_with_progress(v: ItemView, new_progress: u64) -> ItemView {
    ItemView {
        url: v.url,
        path: v.path,
        progress: new_progress,
        status: DownloadStatus::InProgress,
    }
}

/// The record with its status replaced. Setting `Completed` also forces the
/// progress to exactly 100; every other status keeps the progress.
pub open spec fn item_with_status(v: ItemView, new_status: DownloadStatus) -> ItemView {
    ItemView {
        url: v.url,
        path: v.path,
        progress: if new_status == DownloadStatus::Completed {
            100
        } else {
            v.progress
        },
        status: new_status,
    }
}

impl DownloadItem {
    /// Copy of this record carrying new progress and status `InProgress`.
    pub fn with_progress(&self, new_progress: u64) -> (r: DownloadItem)
        ensures
            r@ == item_with_progress(self@, new_progress),
    {
        DownloadItem {
            url: self.url.clone(),
            path: self.path.clone(),
            progress: new_progress,
            status: DownloadStatus::InProgress,
        }
    }

    /// Copy of this record carrying the new status; progress becomes exactly
    /// 100 when the new status is `Completed` and is kept otherwise.
    pub fn with_status(&self, new_status: DownloadStatus) -> (r: DownloadItem)
        ensures
            r@ == item_with_status(self@, new_status),
    {
        DownloadItem {
            url: self.url.clone(),
            path: self.path.clone(),
            progress: if new_status == DownloadStatus::Completed {
                100
            } else {
                self.progress
            },
            status: new_status,
        }
    }
}

/// Result of a gated state-transition operation: the resulting record, the
/// status the operation wanted to reach, and whether it was reached.
#[derive(Debug)]
pub struct DownloadActionResponse {
    pub download: DownloadItem,
    pub expected_status: DownloadStatus,
    pub is_expected_status: bool,
}

/// Mathematical value of a [`DownloadActionResponse`].
pub ghost struct ResponseView {
    pub download: ItemView,
    pub expected_status: DownloadStatus,
    pub is_expected_status: bool,
}

impl View for DownloadActionResponse {
    type V = ResponseView;

    open spec fn view(&self) -> ResponseView {
        ResponseView {
            download: self.download@,
            expected_status: self.expected_status,
            is_expected_status: self.is_expected_status,
        }
    }
}

/// Response for an operation that reached the status it aimed for: the
/// record's own status is the expected one.
pub open spec fn response_reached(v: ItemView) -> ResponseView {
    ResponseView { download: v, expected_status: v.status, is_expected_status: true }
}

/// Response reporting the record as it stands against the status the
/// operation aimed for.
pub open spec fn response_against(v: ItemView, expected: DownloadStatus) -> ResponseView {
    ResponseView {
        download: v,
        expected_status: expected,
        is_expected_status: v.status == expected,
    }
}

impl DownloadActionResponse {
    /// Response for an operation that reached the status it aimed for.
    pub fn new(download: DownloadItem) -> (r: DownloadActionResponse)
        ensures
            r@ == response_reached(download@),
    {
        let expected_status = download.status;
        DownloadActionResponse { download, expected_status, is_expected_status: true }
    }

    /// Response reporting `download` as it stands against `expected_status`.
    pub fn with_expected_status(
        download: DownloadItem,
        expected_status: DownloadStatus,
    ) -> (r: DownloadActionResponse)
        ensures
            r@ == response_against(download@, expected_status),
    {
        let is_expected_status = download.status == expected_status;
        DownloadActionResponse { download, expected_status, is_expected_status }
    }
}

} // verus!
