//! Connection start-up: the `default` store, and one store per file the
//! embedding program found in the data folder.
use vstd::prelude::*;
use vstd::string::StringExecFns;
use crate::disk::{DiskEntry, DiskEntryModel};
use crate::state::{
    find_idx, has_store, lemma_find_idx_at, lemma_find_idx_found, lemma_find_idx_none_names,
    Settings, State, StateModel,
};
use crate::store::{spec_opt_count, Store, StoreModel};
use crate::update::UpdateModel;

verus! {

/// The store bootstrap makes for one file: metadata only, nothing loaded.
pub open spec fn disk_store(e: DiskEntryModel, folder: Seq<char>) -> StoreModel {
    StoreModel {
        name: e.name,
        folder,
        in_memory: false,
        size: spec_opt_count(e.bytes),
        v: Seq::empty(),
    }
}

/// A roster with one store replaced or appended.
pub open spec fn upsert(stores: Seq<StoreModel>, st: StoreModel) -> Seq<StoreModel> {
    if has_store(stores, st.name) {
        stores.update(find_idx(stores, st.name), st)
    } else {
        stores.push(st)
    }
}

/// The roster after every file entry has been registered, in order.
pub open spec fn boot_fold(
    stores: Seq<StoreModel>,
    es: Seq<DiskEntryModel>,
    folder: Seq<char>,
) -> Seq<StoreModel>
    decreases es.len(),
{
    if es.len() == 0 {
        stores
    } else {
        upsert(boot_fold(stores, es.drop_last(), folder), disk_store(es.last(), folder))
    }
}

/// A fresh connection state: not adding, one `default` store selected.
/// The `default` store is authoritative in memory exactly when no file
/// backs it yet.
pub fn init_state(settings: &Settings, default_file_exists: bool) -> (r: State)
    requires
        settings@.flush_interval >= 1,
    ensures
        r.wf(),
        r@ == (StateModel {
            is_adding: false,
            stores: seq![
                StoreModel {
                    name: "default"@,
                    folder: settings@.dtf_folder,
                    in_memory: !default_file_exists,
                    size: 0,
                    v: Seq::<UpdateModel>::empty(),
                },
            ],
            current: "default"@,
            settings: settings@,
        }),
{
    let name = String::from_str("default");
    let mut st = Store::new_store(name, settings.dtf_folder.clone());
    st.in_memory = !default_file_exists;
    let mut stores: Vec<Store> = Vec::new();
    stores.push(st);
    let r = State {
        is_adding: false,
        stores,
        current: String::from_str("default"),
        settings: settings.clone(),
    };
    proof {
        assert(r@.stores =~= seq![
            StoreModel {
                name: "default"@,
                folder: settings@.dtf_folder,
                in_memory: !default_file_exists,
                size: 0,
                v: Seq::<UpdateModel>::empty(),
            },
        ]);
        lemma_find_idx_at(r@.stores, "default"@, 0);
        assert(r@.stores[0].wf());
    }
    r
}

/// Registers one store per file entry: the file's name, its header count,
/// an empty buffer, nothing in memory. An entry whose name is already
/// taken replaces that store, as a fresh bootstrap would.
pub fn init_dbs(state: &mut State, files: &Vec<DiskEntry>)
    requires
        old(state).wf(),
    ensures
        final(state).wf(),
        final(state)@ == (StateModel {
            stores: boot_fold(
                old(state)@.stores,
                files@.map_values(|e: DiskEntry| e@),
                old(state)@.settings.dtf_folder,
            ),
            ..old(state)@
        }),
{
    let ghost es = files@.map_values(|e: DiskEntry| e@);
    let ghost folder = old(state)@.settings.dtf_folder;
    let n = files.len();
    let mut i: usize = 0;
    proof {
        assert(boot_fold(old(state)@.stores, es.subrange(0, 0), folder) =~= old(state)@.stores);
    }
    while i < n
        invariant
            i <= n,
            n == files@.len(),
            es == files@.map_values(|e: DiskEntry| e@),
            es.len() == n,
            folder == old(state)@.settings.dtf_folder,
            state.wf(),
            state@.current == old(state)@.current,
            state@.settings == old(state)@.settings,
            state@.is_adding == old(state)@.is_adding,
            state@.stores == boot_fold(old(state)@.stores, es.subrange(0, i as int), folder),
        decreases n - i,
    {
        proof {
            assert(es.subrange(0, i + 1).drop_last() =~= es.subrange(0, i as int));
            assert(es.subrange(0, i + 1).last() == es[i as int]);
            assert(es[i as int] == files@[i as int]@);
        }
        let count = match &files[i].bytes {
            Some(b) => crate::codec::file_count(b),
            None => 0,
        };
        proof {
            assert(count == spec_opt_count(es[i as int].bytes));
        }
        let ghost pre = state@.stores;
        register_store(state, &files[i].name, count);
        proof {
            let ds = disk_store(es[i as int], folder);
            assert(ds.v =~= Seq::<UpdateModel>::empty());
            assert(ds.name == files@[i as int].name@);
            assert(ds.folder == old(state)@.settings.dtf_folder);
            assert(ds.size == count);
            assert(ds == (StoreModel {
                name: files@[i as int].name@,
                folder: old(state)@.settings.dtf_folder,
                in_memory: false,
                size: count,
                v: Seq::<UpdateModel>::empty(),
            }));
            assert(state@.stores == upsert(pre, ds));
        }
        i += 1;
    }
    proof {
        assert(es.subrange(0, n as int) =~= es);
    }
}

/// Replaces or appends one metadata-only store.
fn register_store(state: &mut State, name: &String, count: u64)
    requires
        old(state).wf(),
    ensures
        final(state).wf(),
        final(state)@ == (StateModel {
            stores: upsert(
                old(state)@.stores,
                StoreModel {
                    name: name@,
                    folder: old(state)@.settings.dtf_folder,
                    in_memory: false,
                    size: count,
                    v: Seq::<UpdateModel>::empty(),
                },
            ),
            ..old(state)@
        }),
{
    let mut st = Store::new_store(name.clone(), state.settings.dtf_folder.clone());
    st.size = count;
    match state.find_store(name) {
        Some(i) => {
            proof {
                lemma_find_idx_found(state@.stores, name@);
            }
            let _old_store = state.stores.remove(i);
            state.stores.insert(i, st);
            proof {
                assert(state.stores@.map_values(|s: Store| s@) =~= old(state)@.stores.update(
                    i as int,
                    state.stores@[i as int]@,
                ));
                crate::state::lemma_wf_after_update(old(state)@, state@, i as int);
            }
        },
        None => {
            let ghost olds = state@.stores;
            proof {
                lemma_find_idx_found(olds, name@);
                lemma_find_idx_none_names(olds, name@);
            }
            state.stores.push(st);
            proof {
                assert(state.stores@.map_values(|s: Store| s@) =~= olds.push(
                    StoreModel {
                        name: name@,
                        folder: old(state)@.settings.dtf_folder,
                        in_memory: false,
                        size: count,
                        v: Seq::<UpdateModel>::empty(),
                    },
                ));
                lemma_find_idx_found(olds, old(state)@.current);
                let ci = find_idx(olds, old(state)@.current);
                assert forall|k: int| 0 <= k < ci implies (#[trigger] state@.stores[k]).name
                    != old(state)@.current by {
                    assert(state@.stores[k] == olds[k]);
                }
                lemma_find_idx_at(state@.stores, old(state)@.current, ci);
                assert forall|a: int, b: int| 0 <= a < b < state@.stores.len() implies (
                #[trigger] state@.stores[a]).name != (#[trigger] state@.stores[b]).name by {
                    if b < olds.len() {
                        assert(state@.stores[a] == olds[a]);
                        assert(state@.stores[b] == olds[b]);
                    } else {
                        assert(state@.stores[a] == olds[a]);
                        assert(state@.stores[b].name == name@);
                    }
                }
                assert(state@.wf());
            }
        },
    }
}

} // verus!
