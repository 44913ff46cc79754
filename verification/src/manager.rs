//! The state-machine facade: validates inputs, gates transitions against the
//! record's current status, applies them to the store, and notifies the sink.

use vstd::prelude::*;
use vstd::string::StringExecFns;

use crate::error::Error;
use crate::models::{
    item_with_status, response_against, response_reached, DownloadActionResponse, DownloadItem,
    DownloadStatus, ItemView, ResponseView,
};
use crate::store::{
    find_index, lemma_find_index_hit, lemma_find_index_miss, lemma_find_index_props, store_update,
    views_of, without_path, DownloadStore,
};
use crate::validate;

verus! {

/// The change-notification sink: an external observer handed the full
/// updated record on every persisted status or progress change. Delivery is
/// fire-and-forget; nothing is promised of what the observer does.
pub trait ChangeSink {
    fn on_changed(&mut self, item: DownloadItem);
}

/// The download manager: owns the record store and the notification sink.
pub struct DownloadManager<S: ChangeSink> {
    pub(crate) store: DownloadStore,
    /// The change-notification sink, reachable by the owner.
    pub sink: S,
}

impl<S: ChangeSink> View for DownloadManager<S> {
    type V = Seq<ItemView>;

    closed spec fn view(&self) -> Seq<ItemView> {
        self.store@
    }
}

/// The manager's mathematical value is its store's table.
pub(crate) broadcast proof fn lemma_manager_view<S: ChangeSink>(m: DownloadManager<S>)
    ensures
        #[trigger] m@ == m.store@,
{
}

/// The synthetic record `get` reports for a path with no stored record.
pub open spec fn pending_item(path: Seq<char>) -> ItemView {
    ItemView { url: Seq::empty(), path, progress: 0, status: DownloadStatus::Pending }
}

/// The record `get` reports: the stored one, or the synthetic `Pending`.
pub open spec fn spec_get(m: Seq<ItemView>, path: Seq<char>) -> ItemView {
    if find_index(m, path) >= 0 {
        m[find_index(m, path)]
    } else {
        pending_item(path)
    }
}

/// The `create` transition: an existing record is reported against `Idle`
/// and the table is kept; otherwise a fresh `Idle` record is appended.
pub open spec fn spec_create(m: Seq<ItemView>, path: Seq<char>, url: Seq<char>) -> (
    Seq<ItemView>,
    ResponseView,
) {
    if find_index(m, path) >= 0 {
        (m, response_against(m[find_index(m, path)], DownloadStatus::Idle))
    } else {
        let v = ItemView { url, path, progress: 0, status: DownloadStatus::Idle };
        (m.push(v), response_reached(v))
    }
}

/// The startup reconciliation of one record: `InProgress` at progress 0 is
/// demoted to `Idle`, `InProgress` at any other progress to `Paused`, and
/// every other record is kept.
pub open spec fn spec_init_one(v: ItemView) -> ItemView {
    if v.status == DownloadStatus::InProgress {
        if v.progress == 0 {
            item_with_status(v, DownloadStatus::Idle)
        } else {
            item_with_status(v, DownloadStatus::Paused)
        }
    } else {
        v
    }
}

/// The startup reconciliation of the whole table.
pub open spec fn spec_init(m: Seq<ItemView>) -> Seq<ItemView> {
    Seq::new(m.len(), |i: int| spec_init_one(m[i]))
}

impl<S: ChangeSink> DownloadManager<S> {
    /// Creates a manager over an empty store.
    pub fn new(sink: S) -> (r: Self)
        ensures
            r@ == Seq::<ItemView>::empty(),
    {
        DownloadManager { store: DownloadStore::new(), sink }
    }

    /// The serialized persisted form of the store.
    pub fn to_json(&self) -> (r: String)
        ensures
            r@ == crate::codec::enc_store(self@),
    {
        self.store.to_json()
    }

    /// Replaces the store with the records parsed from `data`; malformed
    /// content is a `Store` error and leaves the store unchanged.
    pub fn load(&mut self, data: &str) -> (r: Result<(), Error>)
        ensures
            crate::codec::sp_store(data@) matches Some(m) ==> r is Ok && final(self)@ == m,
            crate::codec::sp_store(data@) is None ==> final(self)@ == old(self)@ && (r
                matches Err(e) && e is Store),
    {
        self.store.load(data)
    }

    /// Startup reconciliation: every record still marked `InProgress` is
    /// demoted, to `Idle` at progress 0 and to `Paused` otherwise. Runs
    /// once, before the system is considered ready.
    pub fn init(&mut self)
        ensures
            final(self)@ == spec_init(old(self)@),
    {
        let items = match self.store.list() {
            Ok(v) => v,
            Err(_) => {
                proof {
                    assert(false);
                }
                return ;
            },
        };
        let n = items.len();
        let mut i: usize = 0;
        while i < n
            invariant
                i <= n,
                n == items@.len(),
                views_of(items@) == old(self)@,
                self@.len() == n,
                forall|j: int| 0 <= j < i ==> self@[j] == spec_init_one(old(self)@[j]),
                forall|j: int| i <= j < n ==> self@[j] == old(self)@[j],
            decreases n - i,
        {
            let keep_status = match items[i].status {
                DownloadStatus::InProgress => false,
                _ => true,
            };
            if !keep_status {
                let new_status = if items[i].progress == 0 {
                    DownloadStatus::Idle
                } else {
                    DownloadStatus::Paused
                };
                let updated = items[i].with_status(new_status);
                self.store.set_at(i, updated);
            }
            i += 1;
        }
        proof {
            assert(self@ =~= spec_init(old(self)@));
        }
    }

    /// All persisted records, as a snapshot copy.
    pub fn list(&self) -> (r: Result<Vec<DownloadItem>, Error>)
        ensures
            r matches Ok(v) && views_of(v@) == self@,
    {
        self.store.list()
    }

    /// The record stored for `path`, or a synthetic `Pending` record (never
    /// persisted) when there is none. The path is validated first.
    pub fn get(&self, path: &str) -> (r: Result<DownloadItem, Error>)
        ensures
            validate::path_valid(path@) ==> (r matches Ok(it) && it@ == spec_get(self@, path@)),
            !validate::path_valid(path@) ==> (r matches Err(e) && e is Path),
    {
        match validate::path(path) {
            Err(e) => {
                return Err(e);
            },
            Ok(()) => {},
        }
        match self.store.find_by_path(path) {
            Ok(Some(item)) => Ok(item),
            Ok(None) => Ok(
                DownloadItem {
                    url: String::new(),
                    path: String::from_str(path),
                    progress: 0,
                    status: DownloadStatus::Pending,
                },
            ),
            Err(e) => {
                proof {
                    assert(false);
                }
                Err(e)
            },
        }
    }

    /// Creates a download record in `Idle` state. A record already keyed by
    /// `path` is returned unchanged, reported against the expected `Idle`
    /// status; no duplicate is ever inserted. Path and URL are validated
    /// before any mutation.
    pub fn create(&mut self, path: &str, url: &str) -> (r: Result<DownloadActionResponse, Error>)
        ensures
            !validate::path_valid(path@) ==> final(self)@ == old(self)@ && (r matches Err(e)
                && e is Path),
            validate::path_valid(path@) && !validate::url_valid(url@) ==> final(self)@ == old(
                self,
            )@ && (r matches Err(e) && e is Url),
            validate::path_valid(path@) && validate::url_valid(url@) ==> final(self)@
                == spec_create(old(self)@, path@, url@).0 && (r matches Ok(resp) && resp@
                == spec_create(old(self)@, path@, url@).1),
    {
        match validate::path(path) {
            Err(e) => {
                return Err(e);
            },
            Ok(()) => {},
        }
        match validate::url(url) {
            Err(e) => {
                return Err(e);
            },
            Ok(()) => {},
        }
        let found = match self.store.find_by_path(path) {
            Ok(o) => o,
            Err(e) => {
                proof {
                    assert(false);
                }
                return Err(e);
            },
        };
        match found {
            Some(existing) => Ok(
                DownloadActionResponse::with_expected_status(existing, DownloadStatus::Idle),
            ),
            None => {
                let item = DownloadItem {
                    url: String::from_str(url),
                    path: String::from_str(path),
                    progress: 0,
                    status: DownloadStatus::Idle,
                };
                match self.store.create(item) {
                    Ok(it) => Ok(DownloadActionResponse::new(it)),
                    Err(e) => {
                        proof {
                            assert(false);
                        }
                        Err(e)
                    },
                }
            },
        }
    }

    /// Gate for starting a download: only a record in `Idle` starts. On
    /// success the second component holds the `InProgress` record to hand
    /// to a fresh downloader task; the store is untouched here, since the
    /// task itself persists `InProgress` before streaming. In every other
    /// state the response reports the record as it stands, with nothing to
    /// spawn.
    pub fn start(&self, path: &str) -> (r: Result<
        (DownloadActionResponse, Option<DownloadItem>),
        Error,
    >)
        ensures
            !validate::path_valid(path@) ==> (r matches Err(e) && e is Path),
            validate::path_valid(path@) && find_index(self@, path@) == -1 ==> (r matches Err(e)
                && e matches Error::NotFound(p) && p@ == path@),
            validate::path_valid(path@) && find_index(self@, path@) >= 0 ==> (r matches Ok(p)
                && ({
                let v = self@[find_index(self@, path@)];
                &&& v.status == DownloadStatus::Idle ==> p.0@ == response_reached(
                    item_with_status(v, DownloadStatus::InProgress),
                ) && (p.1 matches Some(it) && it@ == item_with_status(
                    v,
                    DownloadStatus::InProgress,
                ))
                &&& v.status != DownloadStatus::Idle ==> p.0@ == response_against(
                    v,
                    DownloadStatus::InProgress,
                ) && p.1 is None
            })),
    {
        self.gate_spawn(path, DownloadStatus::Idle)
    }

    /// Gate for resuming a download: only a record in `Paused` resumes;
    /// the same spawning shape as `start`.
    pub fn resume(&self, path: &str) -> (r: Result<
        (DownloadActionResponse, Option<DownloadItem>),
        Error,
    >)
        ensures
            !validate::path_valid(path@) ==> (r matches Err(e) && e is Path),
            validate::path_valid(path@) && find_index(self@, path@) == -1 ==> (r matches Err(e)
                && e matches Error::NotFound(p) && p@ == path@),
            validate::path_valid(path@) && find_index(self@, path@) >= 0 ==> (r matches Ok(p)
                && ({
                let v = self@[find_index(self@, path@)];
                &&& v.status == DownloadStatus::Paused ==> p.0@ == response_reached(
                    item_with_status(v, DownloadStatus::InProgress),
                ) && (p.1 matches Some(it) && it@ == item_with_status(
                    v,
                    DownloadStatus::InProgress,
                ))
                &&& v.status != DownloadStatus::Paused ==> p.0@ == response_against(
                    v,
                    DownloadStatus::InProgress,
                ) && p.1 is None
            })),
    {
        self.gate_spawn(path, DownloadStatus::Paused)
    }

    /// Shared gate of `start` and `resume`: from `from_status` the record
    /// moves to `InProgress` and is handed out for spawning.
    fn gate_spawn(&self, path: &str, from_status: DownloadStatus) -> (r: Result<
        (DownloadActionResponse, Option<DownloadItem>),
        Error,
    >)
        ensures
            !validate::path_valid(path@) ==> (r matches Err(e) && e is Path),
            validate::path_valid(path@) && find_index(self@, path@) == -1 ==> (r matches Err(e)
                && e matches Error::NotFound(p) && p@ == path@),
            validate::path_valid(path@) && find_index(self@, path@) >= 0 ==> (r matches Ok(p)
                && ({
                let v = self@[find_index(self@, path@)];
                &&& v.status == from_status ==> p.0@ == response_reached(
                    item_with_status(v, DownloadStatus::InProgress),
                ) && (p.1 matches Some(it) && it@ == item_with_status(
                    v,
                    DownloadStatus::InProgress,
                ))
                &&& v.status != from_status ==> p.0@ == response_against(
                    v,
                    DownloadStatus::InProgress,
                ) && p.1 is None
            })),
    {
        match validate::path(path) {
            Err(e) => {
                return Err(e);
            },
            Ok(()) => {},
        }
        let found = match self.store.find_by_path(path) {
            Ok(o) => o,
            Err(e) => {
                proof {
                    assert(false);
                }
                return Err(e);
            },
        };
        let item = match found {
            Some(it) => it,
            None => {
                return Err(Error::NotFound(String::from_str(path)));
            },
        };
        if item.status == from_status {
            let started = item.with_status(DownloadStatus::InProgress);
            Ok((DownloadActionResponse::new(started.clone()), Some(started)))
        } else {
            Ok((DownloadActionResponse::with_expected_status(item, DownloadStatus::InProgress), None))
        }
    }

    /// Pauses a download: only effective from `InProgress`, where the
    /// record is persisted as `Paused` and the change is emitted at once
    /// (a live downloader observes it at its next acted-upon sample). From
    /// any other status the record is reported against `Paused` unchanged.
    pub fn pause(&mut self, path: &str) -> (r: Result<DownloadActionResponse, Error>)
        ensures
            !validate::path_valid(path@) ==> final(self)@ == old(self)@ && (r matches Err(e)
                && e is Path),
            validate::path_valid(path@) && find_index(old(self)@, path@) == -1 ==> final(self)@
                == old(self)@ && (r matches Err(e) && e matches Error::NotFound(p) && p@
                == path@),
            validate::path_valid(path@) && find_index(old(self)@, path@) >= 0 ==> ({
                let v = old(self)@[find_index(old(self)@, path@)];
                &&& v.status == DownloadStatus::InProgress ==> final(self)@ == store_update(
                    old(self)@,
                    item_with_status(v, DownloadStatus::Paused),
                ) && (r matches Ok(resp) && resp@ == response_reached(
                    item_with_status(v, DownloadStatus::Paused),
                ))
                &&& v.status != DownloadStatus::InProgress ==> final(self)@ == old(self)@ && (
                r matches Ok(resp) && resp@ == response_against(v, DownloadStatus::Paused))
            }),
    {
        match validate::path(path) {
            Err(e) => {
                return Err(e);
            },
            Ok(()) => {},
        }
        let found = match self.store.find_by_path(path) {
            Ok(o) => o,
            Err(e) => {
                proof {
                    assert(false);
                }
                return Err(e);
            },
        };
        let item = match found {
            Some(it) => it,
            None => {
                return Err(Error::NotFound(String::from_str(path)));
            },
        };
        match item.status {
            DownloadStatus::InProgress => {
                let paused = item.with_status(DownloadStatus::Paused);
                match self.store.update(paused.clone()) {
                    Ok(()) => {},
                    Err(_) => {
                        proof {
                            assert(false);
                        }
                    },
                }
                self.sink.on_changed(paused.clone());
                Ok(DownloadActionResponse::new(paused))
            },
            _ => Ok(DownloadActionResponse::with_expected_status(item, DownloadStatus::Paused)),
        }
    }

    /// Cancels a download: effective from `Idle`, `InProgress` or `Paused`,
    /// where the record is removed, the change is emitted as `Cancelled`,
    /// and the second component tells the caller to remove the partial file
    /// (best-effort, non-fatal). From any other status the record is
    /// reported against `Cancelled` unchanged and no file is touched.
    pub fn cancel(&mut self, path: &str) -> (r: Result<(DownloadActionResponse, bool), Error>)
        ensures
            !validate::path_valid(path@) ==> final(self)@ == old(self)@ && (r matches Err(e)
                && e is Path),
            validate::path_valid(path@) && find_index(old(self)@, path@) == -1 ==> final(self)@
                == old(self)@ && (r matches Err(e) && e matches Error::NotFound(p) && p@
                == path@),
            validate::path_valid(path@) && find_index(old(self)@, path@) >= 0 ==> ({
                let v = old(self)@[find_index(old(self)@, path@)];
                &&& (v.status == DownloadStatus::Idle || v.status == DownloadStatus::InProgress
                    || v.status == DownloadStatus::Paused) ==> final(self)@ == without_path(
                    old(self)@,
                    path@,
                ) && (r matches Ok(p) && p.0@ == response_reached(
                    item_with_status(v, DownloadStatus::Cancelled),
                ) && p.1 == true)
                &&& !(v.status == DownloadStatus::Idle || v.status == DownloadStatus::InProgress
                    || v.status == DownloadStatus::Paused) ==> final(self)@ == old(self)@ && (
                r matches Ok(p) && p.0@ == response_against(v, DownloadStatus::Cancelled) && p.1
                    == false)
            }),
    {
        match validate::path(path) {
            Err(e) => {
                return Err(e);
            },
            Ok(()) => {},
        }
        let found = match self.store.find_by_path(path) {
            Ok(o) => o,
            Err(e) => {
                proof {
                    assert(false);
                }
                return Err(e);
            },
        };
        let item = match found {
            Some(it) => it,
            None => {
                return Err(Error::NotFound(String::from_str(path)));
            },
        };
        let effective = match item.status {
            DownloadStatus::Idle => true,
            DownloadStatus::InProgress => true,
            DownloadStatus::Paused => true,
            _ => false,
        };
        if effective {
            match self.store.delete(path) {
                Ok(()) => {},
                Err(_) => {
                    proof {
                        assert(false);
                    }
                },
            }
            let cancelled = item.with_status(DownloadStatus::Cancelled);
            self.sink.on_changed(cancelled.clone());
            Ok((DownloadActionResponse::new(cancelled), true))
        } else {
            Ok((DownloadActionResponse::with_expected_status(item, DownloadStatus::Cancelled), false))
        }
    }
}

/// Creating the same path twice returns the existing record both times and
/// never duplicates it: the second `create` leaves the table exactly as the
/// first left it and reports the same record.
pub proof fn lemma_create_idempotent(m: Seq<ItemView>, path: Seq<char>, url: Seq<char>)
    ensures
        ({
            let first = spec_create(m, path, url);
            let second = spec_create(first.0, path, url);
            second.0 == first.0 && second.1.download == first.1.download
        }),
{
    lemma_find_index_props(m, path);
    if find_index(m, path) == -1 {
        let v = ItemView { url, path, progress: 0, status: DownloadStatus::Idle };
        let m1 = m.push(v);
        assert forall|j: int| 0 <= j < m.len() implies m1[j].path != path by {
            assert(m1[j] == m[j]);
        }
        lemma_find_index_hit(m1, path, m.len() as int);
    }
}

/// After `cancel` removes a path, `get` for that path reports the synthetic
/// `Pending` record.
pub proof fn lemma_cancel_then_get(m: Seq<ItemView>, path: Seq<char>)
    ensures
        spec_get(without_path(m, path), path) == pending_item(path),
{
    crate::store::lemma_without_path_misses(m, path);
    lemma_find_index_miss(without_path(m, path), path);
}

/// A record paused from `InProgress` stands `Paused` under the same path
/// with its progress intact, so the next `resume` finds it and its gate
/// passes; the partial file and persisted progress were left in place.
pub proof fn lemma_pause_then_resume(m: Seq<ItemView>, path: Seq<char>)
    requires
        find_index(m, path) >= 0,
        m[find_index(m, path)].status == DownloadStatus::InProgress,
    ensures
        ({
            let v = m[find_index(m, path)];
            let m1 = store_update(m, item_with_status(v, DownloadStatus::Paused));
            &&& find_index(m1, path) == find_index(m, path)
            &&& m1[find_index(m1, path)].status == DownloadStatus::Paused
            &&& m1[find_index(m1, path)].progress == v.progress
            &&& m1[find_index(m1, path)].url == v.url
        }),
{
    let idx = find_index(m, path);
    lemma_find_index_props(m, path);
    let v = m[idx];
    let w = item_with_status(v, DownloadStatus::Paused);
    let m1 = store_update(m, w);
    assert(m1 == m.update(idx, w));
    assert forall|j: int| 0 <= j < idx implies m1[j].path != path by {
        assert(m1[j] == m[j]);
    }
    lemma_find_index_hit(m1, path, idx);
}

/// After startup reconciliation no record remains `InProgress`.
pub proof fn lemma_init_no_in_progress(m: Seq<ItemView>)
    ensures
        forall|i: int|
            0 <= i < spec_init(m).len() ==> (#[trigger] spec_init(m)[i]).status
                != DownloadStatus::InProgress,
{
}

} // verus!
