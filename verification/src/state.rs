//! The per-connection state: the named stores, the current selection, the
//! bulk-add flag and the server configuration.
use vstd::prelude::*;
use crate::codec::{enc_batch, spec_file, spec_flush};
use crate::store::{Store, StoreModel};
use crate::update::{Update, UpdateModel};

verus! {

/// The immutable server configuration a connection works under.
pub struct Settings {
    pub autoflush: bool,
    pub dtf_folder: String,
    pub flush_interval: u32,
}

/// The model of [`Settings`].
pub ghost struct SettingsModel {
    pub autoflush: bool,
    pub dtf_folder: Seq<char>,
    pub flush_interval: u32,
}

impl View for Settings {
    type V = SettingsModel;

    open spec fn view(&self) -> SettingsModel {
        SettingsModel {
            autoflush: self.autoflush,
            dtf_folder: self.dtf_folder@,
            flush_interval: self.flush_interval,
        }
    }
}

impl Clone for Settings {
    fn clone(&self) -> (r: Self)
        ensures
            r@ == self@,
    {
        Settings {
            autoflush: self.autoflush,
            dtf_folder: self.dtf_folder.clone(),
            flush_interval: self.flush_interval,
        }
    }
}

/// One client's state.
pub struct State {
    pub is_adding: bool,
    pub stores: Vec<Store>,
    pub current: String,
    pub settings: Settings,
}

/// The model of a [`State`].
pub ghost struct StateModel {
    pub is_adding: bool,
    pub stores: Seq<StoreModel>,
    pub current: Seq<char>,
    pub settings: SettingsModel,
}

impl View for State {
    type V = StateModel;

    open spec fn view(&self) -> StateModel {
        StateModel {
            is_adding: self.is_adding,
            stores: self.stores@.map_values(|s: Store| s@),
            current: self.current@,
            settings: self.settings@,
        }
    }
}

/// The first index holding a store of the given name, or `-1`.
pub open spec fn find_idx(stores: Seq<StoreModel>, name: Seq<char>) -> int
    decreases stores.len(),
{
    if stores.len() == 0 {
        -1
    } else if stores[0].name == name {
        0
    } else {
        let r = find_idx(stores.drop_first(), name);
        if r == -1 {
            -1
        } else {
            r + 1
        }
    }
}

pub open spec fn has_store(stores: Seq<StoreModel>, name: Seq<char>) -> bool {
    find_idx(stores, name) >= 0
}

/// `find_idx` names the first matching index.
pub proof fn lemma_find_idx_at(stores: Seq<StoreModel>, name: Seq<char>, i: int)
    requires
        0 <= i < stores.len(),
        stores[i].name == name,
        forall|k: int| 0 <= k < i ==> (#[trigger] stores[k]).name != name,
    ensures
        find_idx(stores, name) == i,
    decreases stores.len(),
{
    if i == 0 {
    } else {
        assert(stores[0].name != name);
        lemma_find_idx_at(stores.drop_first(), name, i - 1);
    }
}

/// When no store matches, `find_idx` reports `-1`.
pub proof fn lemma_find_idx_none(stores: Seq<StoreModel>, name: Seq<char>)
    requires
        forall|k: int| 0 <= k < stores.len() ==> (#[trigger] stores[k]).name != name,
    ensures
        find_idx(stores, name) == -1,
    decreases stores.len(),
{
    if stores.len() > 0 {
        lemma_find_idx_none(stores.drop_first(), name);
    }
}

/// A found index is in range and names a matching store, and nothing
/// before it matches.
pub proof fn lemma_find_idx_found(stores: Seq<StoreModel>, name: Seq<char>)
    ensures
        find_idx(stores, name) >= 0 ==> {
            let i = find_idx(stores, name);
            &&& i < stores.len()
            &&& stores[i].name == name
            &&& forall|k: int| 0 <= k < i ==> (#[trigger] stores[k]).name != name
        },
        find_idx(stores, name) == -1 || find_idx(stores, name) >= 0,
    decreases stores.len(),
{
    if stores.len() > 0 && stores[0].name != name {
        lemma_find_idx_found(stores.drop_first(), name);
        let r = find_idx(stores.drop_first(), name);
        if r >= 0 {
            assert(stores[r + 1] == stores.drop_first()[r]);
            assert forall|k: int| 0 <= k < r + 1 implies (#[trigger] stores[k]).name != name by {
                if k > 0 {
                    assert(stores.drop_first()[k - 1] == stores[k]);
                }
            }
        }
    }
}

/// A missing name matches no store.
pub proof fn lemma_find_idx_none_names(stores: Seq<StoreModel>, name: Seq<char>)
    requires
        find_idx(stores, name) == -1,
    ensures
        forall|k: int| 0 <= k < stores.len() ==> (#[trigger] stores[k]).name != name,
    decreases stores.len(),
{
    if stores.len() > 0 {
        assert(stores[0].name != name);
        lemma_find_idx_found(stores.drop_first(), name);
        lemma_find_idx_none_names(stores.drop_first(), name);
        assert forall|k: int| 0 <= k < stores.len() implies (#[trigger] stores[k]).name != name by {
            if k > 0 {
                assert(stores.drop_first()[k - 1] == stores[k]);
            }
        }
    }
}

impl StateModel {
    /// Store names are unique, the current name is present, the flush
    /// interval is positive, and every store is well-formed.
    pub open spec fn wf(self) -> bool {
        &&& forall|i: int, j: int|
            0 <= i < j < self.stores.len() ==> (#[trigger] self.stores[i]).name != (
            #[trigger] self.stores[j]).name
        &&& has_store(self.stores, self.current)
        &&& self.settings.flush_interval >= 1
        &&& forall|i: int| 0 <= i < self.stores.len() ==> (#[trigger] self.stores[i]).wf()
    }

    /// The index of the current store.
    pub open spec fn cur_idx(self) -> int {
        find_idx(self.stores, self.current)
    }

    /// The current store.
    pub open spec fn cur(self) -> StoreModel {
        self.stores[self.cur_idx()]
    }
}

/// Whether an automatic flush follows a single-update insert.
pub open spec fn autoflush_fires(st: StateModel) -> bool {
    st.settings.autoflush && st.cur().size % (st.settings.flush_interval as u64) == 0
}

/// What an automatic flush leaves behind when it fires and the current
/// file image can be read: the current store's `size` refreshed from the
/// image just written.
pub open spec fn spec_autoflushed(st: StateModel, file: Option<Seq<u8>>) -> StateModel {
    let img = spec_flush(file, st.cur().v)->0;
    StateModel {
        stores: st.stores.update(
            st.cur_idx(),
            StoreModel { size: crate::codec::spec_file_count(img), ..st.cur() },
        ),
        ..st
    }
}

/// The outcome of an automatic flush.
pub enum FlushOutcome {
    /// The flush did not fire.
    Skipped,
    /// The flush fired; the image is to be written to the current store's
    /// file.
    Flushed(Vec<u8>),
    /// The flush fired but the existing file image could not be read.
    Failed,
}

impl State {
    pub open spec fn wf(self) -> bool {
        self@.wf()
    }

    /// The first index holding a store of the given name.
    pub fn find_store(&self, name: &String) -> (r: Option<usize>)
        ensures
            r is Some <==> has_store(self@.stores, name@),
            r is Some ==> r->0 as int == find_idx(self@.stores, name@) && (r->0 as int)
                < self@.stores.len(),
    {
        let ghost stores = self@.stores;
        let mut i: usize = 0;
        while i < self.stores.len()
            invariant
                i <= self.stores@.len(),
                stores == self@.stores,
                stores.len() == self.stores@.len(),
                forall|k: int| 0 <= k < i ==> (#[trigger] stores[k]).name != name@,
            decreases self.stores@.len() - i,
        {
            if self.stores[i].name == *name {
                proof {
                    lemma_find_idx_at(stores, name@, i as int);
                }
                return Some(i);
            }
            i += 1;
        }
        proof {
            lemma_find_idx_none(stores, name@);
        }
        None
    }

    /// Appends one update to the named store. Returns false, leaving the
    /// state unchanged, when the name is unknown or the store's count is
    /// at its ceiling.
    pub fn insert(&mut self, up: Update, store_name: &String) -> (ok: bool)
        requires
            old(self).wf(),
            up.wf(),
        ensures
            final(self).wf(),
            ok <==> (has_store(old(self)@.stores, store_name@) && old(self)@.stores[find_idx(
                old(self)@.stores,
                store_name@,
            )].size < u64::MAX),
            ok ==> final(self)@ == (StateModel {
                stores: old(self)@.stores.update(
                    find_idx(old(self)@.stores, store_name@),
                    StoreModel {
                        size: (old(self)@.stores[find_idx(old(self)@.stores, store_name@)].size
                            + 1) as u64,
                        v: old(self)@.stores[find_idx(old(self)@.stores, store_name@)].v.push(up@),
                        ..old(self)@.stores[find_idx(old(self)@.stores, store_name@)]
                    },
                ),
                ..old(self)@
            }),
            !ok ==> final(self)@ == old(self)@,
    {
        let idx = match self.find_store(store_name) {
            Some(i) => i,
            None => {
                return false;
            },
        };
        proof {
            lemma_find_idx_found(self@.stores, store_name@);
        }
        let mut st = self.stores.remove(idx);
        if st.size == u64::MAX {
            self.stores.insert(idx, st);
            proof {
                assert(self.stores@.map_values(|s: Store| s@) =~= old(self)@.stores);
                assert(self@ == old(self)@);
            }
            return false;
        }
        st.add(up);
        self.stores.insert(idx, st);
        proof {
            let i = find_idx(old(self)@.stores, store_name@);
            assert(self.stores@.map_values(|s: Store| s@) =~= old(self)@.stores.update(
                i,
                self.stores@[i]@,
            ));
            lemma_wf_after_update(old(self)@, self@, i);
        }
        true
    }

    /// Appends one update to the current store; false when its count is at
    /// its ceiling.
    pub fn add(&mut self, up: Update) -> (ok: bool)
        requires
            old(self).wf(),
            up.wf(),
        ensures
            final(self).wf(),
            ok <==> old(self)@.cur().size < u64::MAX,
            ok ==> final(self)@ == (StateModel {
                stores: old(self)@.stores.update(
                    old(self)@.cur_idx(),
                    StoreModel {
                        size: (old(self)@.cur().size + 1) as u64,
                        v: old(self)@.cur().v.push(up@),
                        ..old(self)@.cur()
                    },
                ),
                ..old(self)@
            }),
            !ok ==> final(self)@ == old(self)@,
    {
        let name = self.current.clone();
        proof {
            assert(name@ == old(self)@.current);
        }
        self.insert(up, &name)
    }

    /// Flushes the current store and refreshes its count from the written
    /// image, when the configuration asks for it.
    pub fn autoflush(&mut self, file: &Option<Vec<u8>>) -> (r: FlushOutcome)
        requires
            old(self).wf(),
        ensures
            final(self).wf(),
            !autoflush_fires(old(self)@) ==> r is Skipped && final(self)@ == old(self)@,
            autoflush_fires(old(self)@) && spec_flush(spec_file(file), old(self)@.cur().v)
                is None ==> r is Failed && final(self)@ == old(self)@,
            autoflush_fires(old(self)@) && spec_flush(spec_file(file), old(self)@.cur().v)
                is Some ==> r is Flushed && r->0@ == spec_flush(
                spec_file(file),
                old(self)@.cur().v,
            )->0 && final(self)@ == spec_autoflushed(old(self)@, spec_file(file)),
    {
        proof {
            lemma_find_idx_found(self@.stores, self@.current);
        }
        if !self.settings.autoflush {
            return FlushOutcome::Skipped;
        }
        let idx_opt = self.find_store(&self.current);
        let idx = match idx_opt {
            Some(i) => i,
            None => {
                proof {
                    assert(false);
                }
                0
            },
        };
        let cur_size = self.stores[idx].size;
        proof {
            assert(self@.stores[idx as int] == self.stores@[idx as int]@);
        }
        if cur_size % (self.settings.flush_interval as u64) != 0 {
            return FlushOutcome::Skipped;
        }
        let mut st = self.stores.remove(idx);
        let img = match st.flush(file) {
            Some(img) => img,
            None => {
                self.stores.insert(idx, st);
                proof {
                    assert(self.stores@.map_values(|s: Store| s@) =~= old(self)@.stores);
                    assert(self@ == old(self)@);
                }
                return FlushOutcome::Failed;
            },
        };
        let wrapped = Some(img);
        st.load_size_from_file(&wrapped);
        self.stores.insert(idx, st);
        proof {
            let i = idx as int;
            assert(self.stores@.map_values(|s: Store| s@) =~= old(self)@.stores.update(
                i,
                self.stores@[i]@,
            ));
            assert(self@.stores =~= spec_autoflushed(old(self)@, spec_file(file)).stores);
            lemma_wf_after_update(old(self)@, self@, i);
        }
        match wrapped {
            Some(img) => FlushOutcome::Flushed(img),
            None => {
                proof {
                    assert(false);
                }
                FlushOutcome::Failed
            },
        }
    }

    /// The binary image of the first `count` updates of the current store
    /// (`None` asks for the whole buffer). Nothing is produced when the
    /// store counts zero, counts fewer than asked, or buffers fewer than
    /// asked.
    pub fn get(&self, count: Option<u64>) -> (r: Option<Vec<u8>>)
        requires
            self.wf(),
        ensures
            match count {
                None => (r is Some <==> self@.cur().size > 0) && (r is Some ==> r->0@ == enc_batch(
                    self@.cur().v,
                )),
                Some(n) => (r is Some <==> (self@.cur().size >= n && self@.cur().size > 0 && n
                    <= self@.cur().v.len())) && (r is Some ==> r->0@ == enc_batch(
                    self@.cur().v.take(n as int),
                )),
            },
    {
        proof {
            lemma_find_idx_found(self@.stores, self@.current);
        }
        let idx_opt = self.find_store(&self.current);
        let idx = match idx_opt {
            Some(i) => i,
            None => {
                proof {
                    assert(false);
                }
                0
            },
        };
        let cur = &self.stores[idx];
        proof {
            assert(self@.cur() == cur@);
        }
        if cur.size == 0 {
            return None;
        }
        proof {
            assert forall|m: int| 0 <= m < cur.v@.len() implies (#[trigger] cur.v@[m]).wf() by {
                assert(cur@.v[m] == cur.v@[m]@);
            }
        }
        match count {
            None => Some(crate::codec::encode_batch(&cur.v)),
            Some(n) => {
                if cur.size < n {
                    return None;
                }
                if (cur.v.len() as u64) < n {
                    return None;
                }
                let k = n as usize;
                let mut pre: Vec<Update> = Vec::new();
                let mut i: usize = 0;
                proof {
                    assert(crate::update::views_of(pre@) =~= Seq::<UpdateModel>::empty());
                }
                while i < k
                    invariant
                        i <= k,
                        k <= cur.v@.len(),
                        cur.wf(),
                        crate::update::views_of(pre@) == crate::update::views_of(
                            cur.v@.subrange(0, i as int),
                        ),
                        forall|m: int| 0 <= m < pre@.len() ==> (#[trigger] pre@[m]).wf(),
                    decreases k - i,
                {
                    proof {
                        assert(crate::update::views_of(cur.v@.subrange(0, i + 1)) =~= crate::update::views_of(
                            cur.v@.subrange(0, i as int),
                        ).push(cur.v@[i as int]@));
                        assert(cur@.v[i as int] == cur.v@[i as int]@);
                    }
                    let u = cur.v[i].clone();
                    proof {
                        assert(crate::update::views_of(pre@.push(u)) =~= crate::update::views_of(
                            pre@,
                        ).push(u@));
                    }
                    pre.push(u);
                    i += 1;
                }
                proof {
                    assert(crate::update::views_of(cur.v@.subrange(0, k as int)) =~= self@.cur().v.take(
                        n as int,
                    ));
                }
                Some(crate::codec::encode_batch(&pre))
            },
        }
    }
}

/// Replacing one store by a well-formed store of the same name keeps the
/// state well-formed.
pub proof fn lemma_wf_after_update(old_st: StateModel, new_st: StateModel, i: int)
    requires
        old_st.wf(),
        0 <= i < old_st.stores.len(),
        new_st.stores == old_st.stores.update(i, new_st.stores[i]),
        new_st.stores[i].name == old_st.stores[i].name,
        new_st.stores[i].wf(),
        new_st.current == old_st.current,
        new_st.settings == old_st.settings,
    ensures
        new_st.wf(),
{
    lemma_find_idx_same_names(old_st.stores, new_st.stores, old_st.current);
}

/// Two rows of stores with the same names in the same order agree on
/// `find_idx`.
pub proof fn lemma_find_idx_same_names(a: Seq<StoreModel>, b: Seq<StoreModel>, name: Seq<char>)
    requires
        a.len() == b.len(),
        forall|k: int| 0 <= k < a.len() ==> (#[trigger] a[k]).name == (#[trigger] b[k]).name,
    ensures
        find_idx(a, name) == find_idx(b, name),
    decreases a.len(),
{
    if a.len() > 0 {
        assert(a[0].name == b[0].name);
        lemma_find_idx_same_names(a.drop_first(), b.drop_first(), name);
    }
}

} // verus!
