//! Decision logic of the streaming downloader: resume negotiation, the
//! emission throttle, and the branch on the live record at every acted-upon
//! sample. The caller performs the network and file work and feeds the
//! outcomes back in.

use vstd::prelude::*;
use vstd::arithmetic::div_mod::{
    lemma_div_is_ordered, lemma_div_pos_is_pos, lemma_multiply_divide_lt,
};

use crate::error::Error;
use crate::manager::{ChangeSink, DownloadManager};
use crate::models::{
    item_with_progress, item_with_status, DownloadItem, DownloadStatus, ItemView,
};
use crate::store::{find_index, store_update, without_path};
use vstd::string::StringExecFns;

verus! {

broadcast use crate::manager::lemma_manager_view;

/// The HTTP status a server answers a honored range request with.
pub const STATUS_PARTIAL_CONTENT: u16 = 206;

/// Percentage of `total` completed by `downloaded`: 0 of an unknown total,
/// the floor of `downloaded * 100 / total` otherwise, capped at 100.
pub open spec fn progress_of(downloaded: int, total: int) -> int {
    if total <= 0 {
        0
    } else if downloaded >= total {
        100
    } else {
        downloaded * 100 / total
    }
}

/// The progress percentage always lies in `[0, 100]`.
pub proof fn lemma_progress_bounds(downloaded: int, total: int)
    requires
        downloaded >= 0,
    ensures
        0 <= progress_of(downloaded, total) <= 100,
{
    if total > 0 && downloaded < total {
        lemma_div_pos_is_pos(downloaded * 100, total);
        lemma_multiply_divide_lt(downloaded * 100, total, 100);
    }
}

/// Progress is monotone in the bytes downloaded: streaming more of the
/// same resource never lowers the percentage. Since a session's byte count
/// only grows and every acted-upon sample persists exactly the percentage
/// of the bytes then on disk, the progress persisted for a path never
/// decreases while its record streams.
pub proof fn lemma_progress_monotone(d1: int, d2: int, total: int)
    requires
        0 <= d1 <= d2,
    ensures
        progress_of(d1, total) <= progress_of(d2, total),
{
    if total > 0 {
        lemma_progress_bounds(d1, total);
        lemma_progress_bounds(d2, total);
        if d2 < total {
            lemma_div_is_ordered(d1 * 100, d2 * 100, total);
        }
    }
}

/// A record forced to `Completed` carries progress exactly 100.
pub proof fn lemma_completed_is_full(v: ItemView)
    ensures
        item_with_status(v, DownloadStatus::Completed).progress == 100,
{
}

/// A progress sample is acted upon only when it reached 100, or grew by at
/// least one full percentage point since the last acted-upon sample.
pub open spec fn should_emit(progress: int, last_emitted: int) -> bool {
    progress >= 100 || progress - last_emitted >= 1
}

/// The progress percentage, as executable arithmetic.
pub fn progress_pct(downloaded: u64, total: u64) -> (r: u64)
    ensures
        r == progress_of(downloaded as int, total as int),
{
    if total == 0 {
        0
    } else if downloaded >= total {
        100
    } else {
        proof {
            lemma_progress_bounds(downloaded as int, total as int);
        }
        ((downloaded as u128) * 100 / (total as u128)) as u64
    }
}

/// The byte offset a resume request must ask the server for: a range is
/// attached exactly when some bytes already stand on disk.
pub fn resume_range(resume_offset: u64) -> (r: Option<u64>)
    ensures
        resume_offset > 0 ==> r == Some(resume_offset),
        resume_offset == 0 ==> r is None,
{
    if resume_offset > 0 {
        Some(resume_offset)
    } else {
        None
    }
}

/// The streaming state of one download task.
#[derive(Debug)]
pub struct DownloadSession {
    /// The record the task was spawned for.
    pub item: DownloadItem,
    /// Expected size of the whole file, 0 when the server gave none.
    pub total: u64,
    /// Bytes standing in the partial file, the resume offset included.
    pub downloaded: u64,
    /// The last progress percentage acted upon.
    pub last_emitted: u64,
}

/// A session is well-formed while its throttle mark is a percentage.
pub open spec fn session_wf(s: DownloadSession) -> bool {
    s.last_emitted <= 100
}

/// What one acted-upon or throttled chunk led to.
#[derive(Debug)]
pub enum ChunkOutcome {
    /// Below the emission threshold: keep streaming, no store access.
    Continue,
    /// Progress persisted and emitted: keep streaming.
    Progressed(DownloadItem),
    /// The download completed: the record is removed and the emitted record
    /// is carried; the caller renames the partial file to its destination.
    Completed(DownloadItem),
    /// The live record is `Paused`: stop streaming, keep the partial file
    /// and the persisted progress.
    Paused,
    /// The record is gone or in an unexpected state: treat as externally
    /// cancelled and stop streaming without further mutation.
    Detached,
}

impl DownloadSession {
    /// Decision on the response to a (possibly ranged) request. A non-zero
    /// resume offset answered by anything but partial content is a hard
    /// `Http` error: resuming must never silently restart from zero.
    /// Otherwise the expected total is the remaining content length plus
    /// what already stands on disk, or 0 when the server gave no length.
    pub fn begin(
        item: DownloadItem,
        resume_offset: u64,
        status: u16,
        content_length: Option<u64>,
    ) -> (r: Result<DownloadSession, Error>)
        requires
            content_length matches Some(l) ==> l + resume_offset <= u64::MAX,
        ensures
            resume_offset > 0 && status != STATUS_PARTIAL_CONTENT ==> (r matches Err(e) && e
                matches Error::Http(m) && m@ == "Server does not support partial downloads"@),
            !(resume_offset > 0 && status != STATUS_PARTIAL_CONTENT) ==> (r matches Ok(s) && ({
                &&& s.item@ == item@
                &&& s.downloaded == resume_offset
                &&& s.last_emitted == 0
                &&& s.total as int == (match content_length {
                    Some(l) => l + resume_offset,
                    None => 0int,
                })
                &&& session_wf(s)
            })),
    {
        if resume_offset > 0 && status != STATUS_PARTIAL_CONTENT {
            return Err(
                Error::Http(String::from_str("Server does not support partial downloads")),
            );
        }
        let total = match content_length {
            Some(l) => l + resume_offset,
            None => 0,
        };
        Ok(DownloadSession { item, total, downloaded: resume_offset, last_emitted: 0 })
    }
}

impl<S: ChangeSink> DownloadManager<S> {
    /// A spawned task persists its record as `InProgress`, and emits the
    /// change, before the first byte is written: a crash right after start
    /// still shows `InProgress`, which startup reconciliation resolves.
    pub fn download_started(&mut self, item: &DownloadItem)
        ensures
            final(self)@ == store_update(
                old(self)@,
                item_with_status(item@, DownloadStatus::InProgress),
            ),
    {
        let started = item.with_status(DownloadStatus::InProgress);
        match self.store.update(started.clone()) {
            Ok(()) => {},
            Err(_) => {
                proof {
                    assert(false);
                }
            },
        }
        self.sink.on_changed(started);
    }

    /// Decision on one chunk of `len` bytes appended to the partial file.
    ///
    /// The session advances by the chunk. A sample below the emission
    /// threshold touches nothing. An acted-upon sample re-reads the live
    /// record — not the task's own copy — and branches on it: `InProgress`
    /// below 100 persists and emits the new progress; `InProgress` at 100
    /// removes the record and emits `Completed`; `Paused` stops the task
    /// cooperatively; anything else, or a missing record, detaches.
    pub fn download_chunk(&mut self, s: &mut DownloadSession, len: u64) -> (r: ChunkOutcome)
        requires
            old(s).downloaded + len <= u64::MAX,
            session_wf(*old(s)),
        ensures
            session_wf(*final(s)),
            final(s).item@ == old(s).item@,
            final(s).total == old(s).total,
            final(s).downloaded == old(s).downloaded + len,
            ({
                let progress = progress_of(
                    old(s).downloaded + len,
                    old(s).total as int,
                );
                let idx = find_index(old(self)@, old(s).item@.path);
                if !should_emit(progress, old(s).last_emitted as int) {
                    &&& r is Continue
                    &&& final(self)@ == old(self)@
                    &&& final(s).last_emitted == old(s).last_emitted
                } else {
                    &&& final(s).last_emitted == progress
                    &&& if idx == -1 {
                        r is Detached && final(self)@ == old(self)@
                    } else {
                        let live = old(self)@[idx];
                        if live.status == DownloadStatus::InProgress && progress < 100 {
                            (r matches ChunkOutcome::Progressed(it) && it@ == item_with_progress(
                                live,
                                progress as u64,
                            )) && final(self)@ == store_update(
                                old(self)@,
                                item_with_progress(live, progress as u64),
                            )
                        } else if live.status == DownloadStatus::InProgress && progress == 100 {
                            (r matches ChunkOutcome::Completed(it) && it@ == item_with_status(
                                live,
                                DownloadStatus::Completed,
                            )) && final(self)@ == without_path(old(self)@, old(s).item@.path)
                        } else if live.status == DownloadStatus::Paused {
                            r is Paused && final(self)@ == old(self)@
                        } else {
                            r is Detached && final(self)@ == old(self)@
                        }
                    }
                }
            }),
    {
        s.downloaded = s.downloaded + len;
        let progress = progress_pct(s.downloaded, s.total);
        proof {
            lemma_progress_bounds(s.downloaded as int, s.total as int);
        }
        if !(progress == 100 || progress >= s.last_emitted + 1) {
            return ChunkOutcome::Continue;
        }
        s.last_emitted = progress;
        let found = match self.store.find_by_path(s.item.path.as_str()) {
            Ok(o) => o,
            Err(_) => {
                proof {
                    assert(false);
                }
                return ChunkOutcome::Detached;
            },
        };
        match found {
            None => ChunkOutcome::Detached,
            Some(live) => match live.status {
                DownloadStatus::InProgress => {
                    if progress < 100 {
                        let updated = live.with_progress(progress);
                        match self.store.update(updated.clone()) {
                            Ok(()) => {},
                            Err(_) => {
                                proof {
                                    assert(false);
                                }
                            },
                        }
                        self.sink.on_changed(updated.clone());
                        ChunkOutcome::Progressed(updated)
                    } else {
                        match self.store.delete(s.item.path.as_str()) {
                            Ok(()) => {},
                            Err(_) => {
                                proof {
                                    assert(false);
                                }
                            },
                        }
                        let done = live.with_status(DownloadStatus::Completed);
                        self.sink.on_changed(done.clone());
                        ChunkOutcome::Completed(done)
                    }
                },
                DownloadStatus::Paused => ChunkOutcome::Paused,
                _ => ChunkOutcome::Detached,
            },
        }
    }

    /// On a stream error the record is deleted — the partial download is
    /// abandoned rather than left as an orphaned entry — and the caller
    /// removes the partial file.
    pub fn download_failed(&mut self, path: &str)
        ensures
            final(self)@ == without_path(old(self)@, path@),
    {
        match self.store.delete(path) {
            Ok(()) => {},
            Err(_) => {
                proof {
                    assert(false);
                }
            },
        }
    }

    /// When a spawned task ultimately fails, the pre-download record state
    /// is restored into the store — re-inserted when the failure path had
    /// removed it — and the restored state is emitted.
    pub fn download_rollback(&mut self, original: DownloadItem)
        ensures
            find_index(old(self)@, original@.path) >= 0 ==> final(self)@ == store_update(
                old(self)@,
                original@,
            ),
            find_index(old(self)@, original@.path) == -1 ==> final(self)@ == old(self)@.push(
                original@,
            ),
    {
        let found = match self.store.find_by_path(original.path.as_str()) {
            Ok(o) => o,
            Err(_) => {
                proof {
                    assert(false);
                }
                return ;
            },
        };
        match found {
            Some(_) => {
                match self.store.update(original.clone()) {
                    Ok(()) => {},
                    Err(_) => {
                        proof {
                            assert(false);
                        }
                    },
                }
            },
            None => {
                match self.store.create(original.clone()) {
                    Ok(_) => {},
                    Err(_) => {
                        proof {
                            assert(false);
                        }
                    },
                }
            },
        }
        self.sink.on_changed(original);
    }
}

} // verus!
