//! The record store: an in-memory table of download records keyed by
//! destination path, together with the serialized form it persists through.

use vstd::prelude::*;
use vstd::string::{StrSliceExecFns, StringExecFns};

use crate::codec::{enc_store, sp_store};
use crate::error::Error;
use crate::models::{DownloadItem, ItemView};
use crate::text::str_eq;

verus! {

/// Element-wise mathematical value of a record vector.
pub open spec fn views_of(v: Seq<DownloadItem>) -> Seq<ItemView> {
    Seq::new(v.len(), |i: int| v[i]@)
}

/// Index of the first record keyed by `path`, or -1 when there is none.
pub open spec fn find_index(m: Seq<ItemView>, path: Seq<char>) -> int
    decreases m.len(),
{
    if m.len() == 0 {
        -1
    } else if m[0].path == path {
        0
    } else {
        let r = find_index(m.drop_first(), path);
        if r == -1 {
            -1
        } else {
            r + 1
        }
    }
}

/// The table after an update keyed by `v.path`: the first record under that
/// path is replaced by `v`, and a table without that path is unchanged.
pub open spec fn store_update(m: Seq<ItemView>, v: ItemView) -> Seq<ItemView> {
    if find_index(m, v.path) == -1 {
        m
    } else {
        m.update(find_index(m, v.path), v)
    }
}

/// The table without any record keyed by `path`.
pub open spec fn without_path(m: Seq<ItemView>, path: Seq<char>) -> Seq<ItemView> {
    m.filter(|v: ItemView| v.path != path)
}

/// No record of the table without `path` carries `path`.
pub proof fn lemma_without_path_misses(m: Seq<ItemView>, path: Seq<char>)
    ensures
        forall|j: int|
            0 <= j < without_path(m, path).len() ==> (#[trigger] without_path(m, path)[j]).path
                != path,
{
    broadcast use vstd::seq_lib::group_filter_ensures;

}

/// One step of `without_path` over a record appended at the end.
pub(crate) proof fn lemma_without_path_push(m: Seq<ItemView>, path: Seq<char>, x: ItemView)
    ensures
        without_path(m.push(x), path) == (if x.path != path {
            without_path(m, path).push(x)
        } else {
            without_path(m, path)
        }),
{
    reveal_with_fuel(Seq::<_>::filter, 2);
    assert(m.push(x).drop_last() =~= m);
}

pub(crate) proof fn lemma_find_index_hit(m: Seq<ItemView>, path: Seq<char>, i: int)
    requires
        0 <= i < m.len(),
        m[i].path == path,
        forall|j: int| 0 <= j < i ==> m[j].path != path,
    ensures
        find_index(m, path) == i,
    decreases m.len(),
{
    if i > 0 {
        lemma_find_index_hit(m.drop_first(), path, i - 1);
    }
}

pub(crate) proof fn lemma_find_index_miss(m: Seq<ItemView>, path: Seq<char>)
    requires
        forall|j: int| 0 <= j < m.len() ==> m[j].path != path,
    ensures
        find_index(m, path) == -1,
    decreases m.len(),
{
    if m.len() > 0 {
        lemma_find_index_miss(m.drop_first(), path);
    }
}

/// What a successful search means: the index is in range, keyed by `path`,
/// and is the first such index; a miss means no record carries `path`.
pub proof fn lemma_find_index_props(m: Seq<ItemView>, path: Seq<char>)
    ensures
        -1 <= find_index(m, path) < m.len(),
        find_index(m, path) == -1 ==> forall|j: int| 0 <= j < m.len() ==> m[j].path != path,
        find_index(m, path) >= 0 ==> {
            let r = find_index(m, path);
            &&& r < m.len()
            &&& m[r].path == path
            &&& forall|j: int| 0 <= j < r ==> m[j].path != path
        },
    decreases m.len(),
{
    if m.len() > 0 && m[0].path != path {
        lemma_find_index_props(m.drop_first(), path);
        let r0 = find_index(m.drop_first(), path);
        if r0 >= 0 {
            assert(m.drop_first()[r0] == m[r0 + 1]);
            assert forall|j: int| 0 <= j < r0 + 1 implies m[j].path != path by {
                if j > 0 {
                    assert(m.drop_first()[j - 1].path != path);
                }
            }
        } else {
            assert(forall|k: int|
                0 <= k < m.drop_first().len() ==> #[trigger] m.drop_first()[k].path != path);
            assert forall|j: int| 0 <= j < m.len() implies m[j].path != path by {
                if j > 0 {
                    assert(m.drop_first()[j - 1] == m[j]);
                    assert(m.drop_first()[j - 1].path != path);
                }
            }
        }
    }
}

/// The in-memory table of download records, keyed by destination path.
pub struct DownloadStore {
    items: Vec<DownloadItem>,
}

impl View for DownloadStore {
    type V = Seq<ItemView>;

    closed spec fn view(&self) -> Seq<ItemView> {
        views_of(self.items@)
    }
}

impl DownloadStore {
    /// Creates an empty store.
    pub fn new() -> (r: Self)
        ensures
            r@ == Seq::<ItemView>::empty(),
    {
        let r = DownloadStore { items: Vec::new() };
        proof {
            assert(r@ =~= Seq::<ItemView>::empty());
        }
        r
    }

    /// Index of the first record keyed by `path` in the backing vector.
    fn position_of(&self, path: &str) -> (r: Option<usize>)
        ensures
            match r {
                Some(i) => 0 <= find_index(self@, path@) == i < self@.len(),
                None => find_index(self@, path@) == -1,
            },
    {
        let n = self.items.len();
        let mut i: usize = 0;
        while i < n
            invariant
                i <= n,
                n == self.items@.len(),
                forall|j: int| 0 <= j < i ==> self@[j].path != path@,
            decreases n - i,
        {
            if str_eq(self.items[i].path.as_str(), path) {
                proof {
                    lemma_find_index_hit(self@, path@, i as int);
                }
                return Some(i);
            }
            i += 1;
        }
        proof {
            lemma_find_index_miss(self@, path@);
        }
        None
    }

    /// A snapshot copy of all records.
    pub fn list(&self) -> (r: Result<Vec<DownloadItem>, Error>)
        ensures
            r matches Ok(v) && views_of(v@) == self@,
    {
        let mut out: Vec<DownloadItem> = Vec::new();
        let n = self.items.len();
        let mut i: usize = 0;
        while i < n
            invariant
                i <= n,
                n == self.items@.len(),
                out@.len() == i,
                forall|j: int| 0 <= j < i ==> out@[j]@ == self@[j],
            decreases n - i,
        {
            out.push(self.items[i].clone());
            i += 1;
        }
        proof {
            assert(views_of(out@) =~= self@);
        }
        Ok(out)
    }

    /// A snapshot copy of the first record keyed by `path`, when one exists.
    pub fn find_by_path(&self, path: &str) -> (r: Result<Option<DownloadItem>, Error>)
        ensures
            r matches Ok(o) && match o {
                Some(it) => find_index(self@, path@) >= 0 && it@ == self@[find_index(
                    self@,
                    path@,
                )],
                None => find_index(self@, path@) == -1,
            },
    {
        match self.position_of(path) {
            Some(i) => Ok(Some(self.items[i].clone())),
            None => Ok(None),
        }
    }

    /// Inserts a new record; a record already keyed by its path is a `Store`
    /// error and leaves the table unchanged.
    pub fn create(&mut self, item: DownloadItem) -> (r: Result<DownloadItem, Error>)
        ensures
            find_index(old(self)@, item@.path) >= 0 ==> final(self)@ == old(self)@ && (r
                matches Err(e) && e is Store),
            find_index(old(self)@, item@.path) == -1 ==> final(self)@ == old(self)@.push(item@)
                && (r matches Ok(it) && it@ == item@),
    {
        match self.position_of(item.path.as_str()) {
            Some(_) => Err(
                Error::Store(
                    String::from_str("Item already exists for path: ").concat(item.path.as_str()),
                ),
            ),
            None => {
                let out = item.clone();
                self.items.push(item);
                proof {
                    assert(self@ =~= old(self)@.push(out@));
                }
                Ok(out)
            },
        }
    }

    /// Replaces the first record keyed by `item`'s path; a path with no
    /// existing record is a silent no-op.
    pub fn update(&mut self, item: DownloadItem) -> (r: Result<(), Error>)
        ensures
            r is Ok,
            final(self)@ == store_update(old(self)@, item@),
    {
        match self.position_of(item.path.as_str()) {
            Some(i) => {
                self.items.remove(i);
                self.items.insert(i, item);
                proof {
                    assert(self@ =~= store_update(old(self)@, item@));
                }
            },
            None => {},
        }
        Ok(())
    }

    /// Same replacement rule as [`Self::update`]; callers use it when the
    /// change need not reach the persisted form.
    pub fn update_no_persist(&mut self, item: DownloadItem) -> (r: Result<(), Error>)
        ensures
            r is Ok,
            final(self)@ == store_update(old(self)@, item@),
    {
        self.update(item)
    }

    /// Removes every record keyed by `path`; an absent path is a no-op.
    pub fn delete(&mut self, path: &str) -> (r: Result<(), Error>)
        ensures
            r is Ok,
            final(self)@ == without_path(old(self)@, path@),
    {
        let mut kept: Vec<DownloadItem> = Vec::new();
        let n = self.items.len();
        let mut i: usize = 0;
        while i < n
            invariant
                i <= n,
                n == self.items@.len(),
                self.items@ == old(self).items@,
                views_of(kept@) == without_path(self@.take(i as int), path@),
            decreases n - i,
        {
            let keep = !str_eq(self.items[i].path.as_str(), path);
            proof {
                let prefix = self@.take(i as int);
                assert(self@.take(i + 1) =~= prefix.push(self@[i as int]));
                lemma_without_path_push(prefix, path@, self@[i as int]);
                if keep {
                    assert(views_of(kept@.push(self.items@[i as int])) =~= views_of(kept@).push(
                        self@[i as int],
                    ));
                }
            }
            if keep {
                kept.push(self.items[i].clone());
            }
            i += 1;
        }
        proof {
            assert(self@.take(n as int) =~= self@);
        }
        self.items = kept;
        Ok(())
    }

    /// Replaces the record at a known position.
    pub(crate) fn set_at(&mut self, i: usize, item: DownloadItem)
        requires
            i < old(self)@.len(),
        ensures
            final(self)@ == old(self)@.update(i as int, item@),
    {
        self.items.remove(i);
        self.items.insert(i, item);
        proof {
            assert(self@ =~= old(self)@.update(i as int, item@));
        }
    }

    /// The serialized persisted form of the table.
    pub fn to_json(&self) -> (r: String)
        ensures
            r@ == enc_store(self@),
    {
        crate::codec::encode_items(&self.items)
    }

    /// Replaces the table with the records parsed from `data`; malformed
    /// content is a `Store` error and leaves the table unchanged.
    pub fn load(&mut self, data: &str) -> (r: Result<(), Error>)
        ensures
            sp_store(data@) matches Some(m) ==> r is Ok && final(self)@ == m,
            sp_store(data@) is None ==> final(self)@ == old(self)@ && (r matches Err(e)
                && e is Store),
    {
        match crate::codec::parse_items(data) {
            Some(v) => {
                self.items = v;
                Ok(())
            },
            None => Err(Error::Store(String::from_str("Failed to parse store"))),
        }
    }
}

} // verus!
