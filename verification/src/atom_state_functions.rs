//! The operations on cells: creating, reading and writing atoms.
use crate::access::{
    AllowUndo, AtomStateAccess, Getter, IsAComputedState, IsAnAtomState, NoUndo, StoreError,
};
use crate::context::ambient_getter;
use crate::model::StoreModel;
use crate::propagation::{execute_computed_nodes, propagated, rebuild_ok};
use crate::registry::{AtomStore, Computed};
use crate::store::CellStore;
use crate::undo::UndoVec;
use crate::value::{Storable, Value};
use vstd::prelude::*;

verus! {

/// Creates the atom `current_id` of type `T`. The first creation stores the
/// value that `data_fn` gives; where a value of type `T` is stored under
/// `current_id` already, `data_fn` is not called and nothing changes.
pub fn atom<T: Storable, F: FnOnce() -> T, U>(
    store: &mut CellStore,
    current_id: &str,
    data_fn: F,
) -> (access: AtomStateAccess<T, U, IsAnAtomState>)
    requires
        old(store).wf(),
        !old(store)@.holds::<T>(current_id@) ==> data_fn.requires(()),
    ensures
        final(store).wf(),
        access.id@ == current_id@,
        old(store)@.holds::<T>(current_id@) ==> final(store)@ == old(store)@,
        !old(store)@.holds::<T>(current_id@) ==> exists|initial: T| #[trigger]
            data_fn.ensures((), initial) && final(store)@ == old(store)@.created(
                current_id@,
                initial,
            ),
{
    if !atom_state_exists_for_id::<T>(store, current_id) {
        set_atom_state_with_id::<T>(store, data_fn(), current_id);
    }
    AtomStateAccess::new(current_id)
}

/// Creates the atom `current_id` of type `T` with an undo history, whose
/// baseline is the initial value. Where a value of type `T` is stored under
/// `current_id` already, `data_fn` is not called and nothing changes.
pub fn atom_with_undo<T: Storable, F: FnOnce() -> T>(
    store: &mut CellStore,
    current_id: &str,
    data_fn: F,
) -> (access: AtomStateAccess<T, AllowUndo, IsAnAtomState>)
    requires
        old(store).wf(),
        !old(store)@.holds::<T>(current_id@) ==> data_fn.requires(()),
    ensures
        final(store).wf(),
        access.id@ == current_id@,
        old(store)@.holds::<T>(current_id@) ==> final(store)@ == old(store)@,
        !old(store)@.holds::<T>(current_id@) ==> exists|initial: T| #[trigger]
            data_fn.ensures((), initial) && final(store)@ == old(store)@.created_with_undo(
                current_id@,
                initial,
            ),
{
    if !atom_state_exists_for_id::<T>(store, current_id) {
        let item = data_fn().into_value();
        let mut baseline: Vec<Value> = Vec::new();
        baseline.push(item.duplicate());
        assert(baseline@ =~= seq![item]);
        store.put(current_id, item);
        store.set_history(current_id, UndoVec(baseline));
    }
    AtomStateAccess::new(current_id)
}

/// Stores `data` under `current_id`, in place of whatever was stored there.
/// Nothing is rebuilt.
pub fn set_atom_state_with_id<T: Storable>(store: &mut CellStore, data: T, current_id: &str)
    requires
        old(store).wf(),
    ensures
        final(store).wf(),
        final(store)@ == old(store)@.put(current_id@, data.erased()),
{
    store.set_state_with_id::<T>(data, current_id)
}

/// Whether a value of type `T` is stored under `id`.
pub fn atom_state_exists_for_id<T: Storable>(store: &CellStore, id: &str) -> (exists: bool)
    requires
        store.wf(),
    ensures
        exists == store@.holds::<T>(id@),
{
    store.state_exists_with_id::<T>(id)
}

/// A copy of the value of type `T` stored under `id`: none where nothing is
/// stored there, and none where what is stored is of another type.
pub fn clone_atom_state_with_id<T: Storable>(store: &CellStore, id: &str) -> (value: Option<T>)
    requires
        store.wf(),
    ensures
        value == store@.typed_at::<T>(id@),
{
    store.get_state_with_id::<T>(id)
}

/// Takes the value of type `T` stored under `id` out of the store. Where
/// nothing is stored there, or a value of another type, nothing is taken and
/// the store is not changed.
pub fn remove_atom_state_with_id<T: Storable>(store: &mut CellStore, id: &str) -> (value: Option<
    T,
>)
    requires
        old(store).wf(),
    ensures
        final(store).wf(),
        value == old(store)@.typed_at::<T>(id@),
        final(store)@ == if value.is_some() {
            old(store)@.vacate(id@)
        } else {
            old(store)@
        },
{
    store.remove_state_with_id::<T>(id)
}

/// Hands the value of type `T` stored under `id` to `func` and returns what
/// `func` makes of it. The value is taken out for the call and put back after
/// it, so the store ends as it began. Where no value of type `T` is stored
/// under `id`, `func` is not called.
pub fn read_atom_state_with_id<T: Storable, F: FnOnce(&T) -> R, R>(
    store: &mut CellStore,
    id: &str,
    func: F,
) -> (read: Result<R, StoreError>)
    requires
        old(store).wf(),
        old(store)@.typed_at::<T>(id@) matches Some(item) ==> func.requires((&item,)),
    ensures
        final(store).wf(),
        final(store)@ == old(store)@,
        match read {
            Ok(seen) => old(store)@.typed_at::<T>(id@) matches Some(item) && func.ensures(
                (&item,),
                seen,
            ),
            Err(error) => error == StoreError::MissingState && old(store)@.typed_at::<T>(
                id@,
            ).is_none(),
        },
{
    match remove_atom_state_with_id::<T>(store, id) {
        Some(item) => {
            let read = func(&item);
            proof {
                T::lemma_erased_of_typed(old(store)@.value_at(id@).unwrap());
                old(store)@.lemma_put_back(id@);
            }
            set_atom_state_with_id(store, item, id);
            Ok(read)
        },
        None => Err(StoreError::MissingState),
    }
}

/// Writes `data` under `current_id` and keeps the value it replaces at the
/// end of the undo history. Nothing is rebuilt. The write is refused where no
/// value of type `T` is stored under `current_id`, or where `current_id`
/// keeps no undo history.
pub fn set_atom_state_with_id_with_undo<T: Storable>(
    store: &mut CellStore,
    data: T,
    current_id: &str,
) -> (written: Result<(), StoreError>)
    requires
        old(store).wf(),
    ensures
        final(store).wf(),
        written.is_ok() == (old(store)@.holds::<T>(current_id@) && old(store)@.history_at(
            current_id@,
        ).is_some()),
        match written {
            Ok(_) => final(store)@ == old(store)@.written_with_undo(current_id@, data.erased()),
            Err(error) => error == StoreError::MissingState && final(store)@ == old(store)@,
        },
{
    if !atom_state_exists_for_id::<T>(store, current_id) || !store.history_exists(current_id) {
        return Err(StoreError::MissingState);
    }
    match store.peek(current_id) {
        Some(cell) => {
            let previous = cell.duplicate();
            store.record_before_write(current_id, previous);
            set_atom_state_with_id(store, data, current_id);
            Ok(())
        },
        None => Err(StoreError::MissingState),
    }
}

/// What a linked read of `source` comes to, given the rebuild context it is
/// made in: without a context it is refused; where no value of type `T` is
/// stored under `source` it is refused too; else it gives that value, and the
/// store records that the computed of the context depends on `source`.
pub open spec fn link_outcome<T: Storable>(
    before: StoreModel,
    source: Seq<char>,
    context: Option<Getter>,
    after: StoreModel,
    linked: Result<T, StoreError>,
) -> bool {
    match context {
        None => linked == Err::<T, StoreError>(StoreError::NoRebuildContext) && after == before,
        Some(getter) => match before.typed_at::<T>(source) {
            None => linked == Err::<T, StoreError>(StoreError::MissingState) && after == before,
            Some(value) => linked == Ok::<T, StoreError>(value) && after == before.link(
                source,
                getter.computed_key@,
            ),
        },
    }
}

/// Reads the cell behind `access` on behalf of the computed named in
/// `context`, and records that this computed depends on the cell. See
/// `link_outcome`.
pub fn link_state_within<T: Storable, U, A>(
    store: &mut CellStore,
    access: AtomStateAccess<T, U, A>,
    context: Option<Getter>,
) -> (linked: Result<T, StoreError>)
    requires
        old(store).wf(),
    ensures
        final(store).wf(),
        link_outcome(old(store)@, access.id@, context, final(store)@, linked),
{
    match context {
        None => Err(StoreError::NoRebuildContext),
        Some(getter) => match clone_atom_state_with_id::<T>(store, access.id.as_str()) {
            None => Err(StoreError::MissingState),
            Some(value) => {
                store.add_dependency(access.id.as_str(), getter.computed_key.as_str());
                Ok(value)
            },
        },
    }
}

/// Reads the cell behind `access` from inside a rebuild: the computed that is
/// being rebuilt is the one that the ambient rebuild context names, and the
/// store records that it depends on the cell. The outcome is that of
/// `link_state_within` for whatever context was offered.
pub fn link_state<T: Storable, U, A>(
    store: &mut CellStore,
    access: AtomStateAccess<T, U, A>,
) -> (linked: Result<T, StoreError>)
    requires
        old(store).wf(),
    ensures
        final(store).wf(),
        exists|context: Option<Getter>| #[trigger]
            link_outcome(old(store)@, access.id@, context, final(store)@, linked),
{
    let context = ambient_getter();
    link_state_within(store, access, context)
}

/// Creates the computed `current_id` of type `T`, rebuilt by `data_fn`.
///
/// The first creation registers the identifier, runs `data_fn` once, which
/// stores the computed's first value and records the cells it read, and then
/// makes `data_fn` the computed's rebuild function. Where a value of type `T`
/// is stored under `current_id` already, `data_fn` is not called and nothing
/// changes.
pub fn computed<T: Storable, F: Fn(CellStore, &str) -> CellStore>(
    store: &mut AtomStore<F>,
    current_id: &str,
    data_fn: F,
) -> (access: AtomStateAccess<T, NoUndo, IsAComputedState>)
    requires
        old(store).wf(),
        !old(store).cells@.holds::<T>(current_id@) ==> exists|rank: spec_fn(Seq<char>) -> nat|
            old(store).ranked_by(rank) && rebuild_ok(data_fn, current_id@, rank),
    ensures
        access.id@ == current_id@,
        final(store).wf(),
        forall|rank: spec_fn(Seq<char>) -> nat|
            old(store).ranked_by(rank) && rebuild_ok(data_fn, current_id@, rank)
                ==> final(store).ranked_by(rank),
        old(store).cells@.holds::<T>(current_id@) ==> *final(store) == *old(store),
        !old(store).cells@.holds::<T>(current_id@) ==> final(store).computeds@
            == old(store).computeds@.insert(current_id@, data_fn),
        !old(store).cells@.holds::<T>(current_id@) ==> exists|registered: CellStore|
            registered@ == old(store).cells@.register(current_id@) && #[trigger] data_fn.ensures(
                (registered, current_id),
                final(store).cells,
            ),
{
    if !atom_state_exists_for_id::<T>(&store.cells, current_id) {
        let mut cells = CellStore::new();
        core::mem::swap(&mut store.cells, &mut cells);
        cells.register(current_id);
        proof {
            old(store).cells@.lemma_writes_keep_graph(current_id@, arbitrary(), arbitrary());
        }
        let built = data_fn(cells, current_id);
        store.cells = built;
        store.new_computed(current_id, Computed { func: data_fn });
    }
    AtomStateAccess::new(current_id)
}

/// Changes the value of type `T` stored under `id` with `func`, then rebuilds
/// everything that depends on `id`. Returns the computeds that were rebuilt,
/// in order. Where no value of type `T` is stored under `id`, the update is
/// refused, `func` is not called and nothing changes.
pub fn update_atom_state_with_id<
    T: Storable,
    F: FnOnce(&mut T) -> (),
    R: Fn(CellStore, &str) -> CellStore,
>(store: &mut AtomStore<R>, id: &str, func: F) -> (updated: Result<Vec<String>, StoreError>)
    requires
        old(store).wf(),
        old(store).has_ranking(),
        old(store).cells@.typed_at::<T>(id@) matches Some(item) ==> forall|slot: &mut T|
            *slot == item ==> #[trigger] func.requires((slot,)),
    ensures
        final(store).wf(),
        final(store).computeds == old(store).computeds,
        final(store).keeps_rankings_of(*old(store)),
        updated.is_ok() == old(store).cells@.holds::<T>(id@),
        match updated {
            Ok(trace) => (exists|slot: &mut T, written: CellStore|
                #![trigger func.ensures((slot,), ()), written@]
                {
                    &&& old(store).cells@.typed_at::<T>(id@) == Some(*slot)
                    &&& func.ensures((slot,), ())
                    &&& written@ == old(store).cells@.put(id@, final(slot).erased())
                    &&& propagated(
                        old(store).computeds@,
                        written,
                        written@.dependents_of(id@),
                        final(store).cells,
                        trace.deep_view(),
                    )
                }),
            Err(error) => error == StoreError::MissingState && *final(store) == *old(store),
        },
{
    if !atom_state_exists_for_id::<T>(&store.cells, id) {
        return Err(StoreError::MissingState);
    }
    match remove_atom_state_with_id::<T>(&mut store.cells, id) {
        Some(item) => {
            let mut item = item;
            func(&mut item);
            proof {
                old(store).cells@.lemma_put_after_vacate(id@, item.erased());
                old(store).cells@.lemma_writes_keep_graph(id@, item.erased(), arbitrary());
            }
            set_atom_state_with_id(&mut store.cells, item, id);
            proof {
                store.lemma_rankings_kept(*old(store));
            }
            let trace = execute_computed_nodes(store, id);
            Ok(trace)
        },
        None => Err(StoreError::MissingState),
    }
}

/// Changes the value of type `T` stored under `id` with `func`, keeping the
/// value it had at the end of the undo history, then rebuilds everything that
/// depends on `id`. Returns the computeds that were rebuilt, in order. Where
/// no value of type `T` is stored under `id`, or `id` keeps no undo history,
/// the update is refused, `func` is not called and nothing changes.
pub fn update_atom_state_with_id_with_undo<
    T: Storable,
    F: FnOnce(&mut T) -> (),
    R: Fn(CellStore, &str) -> CellStore,
>(store: &mut AtomStore<R>, id: &str, func: F) -> (updated: Result<Vec<String>, StoreError>)
    requires
        old(store).wf(),
        old(store).has_ranking(),
        old(store).cells@.typed_at::<T>(id@) matches Some(item) ==> forall|slot: &mut T|
            *slot == item ==> #[trigger] func.requires((slot,)),
    ensures
        final(store).wf(),
        final(store).computeds == old(store).computeds,
        final(store).keeps_rankings_of(*old(store)),
        updated.is_ok() == (old(store).cells@.holds::<T>(id@) && old(store).cells@.history_at(
            id@,
        ).is_some()),
        match updated {
            Ok(trace) => (exists|slot: &mut T, written: CellStore|
                #![trigger func.ensures((slot,), ()), written@]
                {
                    &&& old(store).cells@.typed_at::<T>(id@) == Some(*slot)
                    &&& func.ensures((slot,), ())
                    &&& written@ == old(store).cells@.written_with_undo(
                        id@,
                        final(slot).erased(),
                    )
                    &&& propagated(
                        old(store).computeds@,
                        written,
                        written@.dependents_of(id@),
                        final(store).cells,
                        trace.deep_view(),
                    )
                }),
            Err(error) => error == StoreError::MissingState && *final(store) == *old(store),
        },
{
    if !atom_state_exists_for_id::<T>(&store.cells, id) || !store.cells.history_exists(id) {
        return Err(StoreError::MissingState);
    }
    let previous = match store.cells.peek(id) {
        Some(cell) => cell.duplicate(),
        None => {
            return Err(StoreError::MissingState);
        },
    };
    let ghost recorded = old(store).cells@.with_history(
        id@,
        old(store).cells@.history_at(id@).unwrap().push(previous),
    );
    store.cells.record_before_write(id, previous);
    match remove_atom_state_with_id::<T>(&mut store.cells, id) {
        Some(item) => {
            let mut item = item;
            func(&mut item);
            proof {
                old(store).cells@.lemma_writes_keep_graph(
                    id@,
                    arbitrary(),
                    old(store).cells@.history_at(id@).unwrap().push(previous),
                );
                recorded.lemma_put_after_vacate(id@, item.erased());
                recorded.lemma_writes_keep_graph(id@, item.erased(), arbitrary());
            }
            set_atom_state_with_id(&mut store.cells, item, id);
            proof {
                store.lemma_rankings_kept(*old(store));
            }
            let trace = execute_computed_nodes(store, id);
            Ok(trace)
        },
        None => Err(StoreError::MissingState),
    }
}

/// Takes back the last write with undo to `current_id`: the last entry of
/// the undo history becomes the current value again, and everything that
/// depends on `current_id` is rebuilt. Returns the computeds that were
/// rebuilt, in order.
///
/// Where the history holds only its baseline there is nothing to take back:
/// nothing changes and nothing is rebuilt. While the dependents are rebuilt
/// the history is out of the store; it is put back, one entry shorter, when
/// they are done. The undo is refused where `current_id` keeps no history,
/// and where there is a write to take back but no value of type `T` is
/// stored under `current_id`.
pub fn undo_atom_state<T: Storable, R: Fn(CellStore, &str) -> CellStore>(
    store: &mut AtomStore<R>,
    current_id: &str,
) -> (undone: Result<Vec<String>, StoreError>)
    requires
        old(store).wf(),
        old(store).has_ranking(),
    ensures
        final(store).wf(),
        final(store).computeds == old(store).computeds,
        final(store).keeps_rankings_of(*old(store)),
        undone.is_ok() == (old(store).cells@.history_at(current_id@).is_some()
            && (old(store).cells@.can_undo(current_id@) ==> old(store).cells@.holds::<T>(
            current_id@,
        ))),
        match undone {
            Ok(trace) => if old(store).cells@.can_undo(current_id@) {
                (exists|taken_back: CellStore, rebuilt: CellStore|
                    #![trigger taken_back@, rebuilt@]
                    {
                        &&& taken_back@ == old(store).cells@.undone(current_id@).without_history(
                            current_id@,
                        )
                        &&& propagated(
                            old(store).computeds@,
                            taken_back,
                            taken_back@.dependents_of(current_id@),
                            rebuilt,
                            trace.deep_view(),
                        )
                        &&& final(store).cells@ == rebuilt@.with_history(
                            current_id@,
                            old(store).cells@.history_at(current_id@).unwrap().drop_last(),
                        )
                    })
            } else {
                *final(store) == *old(store) && trace@.len() == 0
            },
            Err(error) => error == StoreError::MissingState && *final(store) == *old(store),
        },
{
    let entries = match store.cells.history(current_id) {
        Some(history) => Some(history.0.len()),
        None => None,
    };
    match entries {
        None => Err(StoreError::MissingState),
        Some(entries) => {
            if entries <= 1 {
                return Ok(Vec::new());
            }
            if !atom_state_exists_for_id::<T>(&store.cells, current_id) {
                return Err(StoreError::MissingState);
            }
            match store.cells.remove_history(current_id) {
                Some(history) => {
                    let mut history = history;
                    let ghost full = history@;
                    match history.0.pop() {
                        Some(item) => {
                            let ghost before = store.cells@;
                            store.cells.put(current_id, item);
                            proof {
                                let start = old(store).cells@;
                                start.lemma_writes_keep_graph(current_id@, item, full.drop_last());
                                before.lemma_writes_keep_graph(current_id@, item, full.drop_last());
                                assert(history@ =~= full.drop_last());
                                assert(start.undone(current_id@).without_history(current_id@)
                                    =~= before.put(current_id@, item)) by {
                                    let a = start.undone(current_id@).without_history(current_id@);
                                    let b = before.put(current_id@, item);
                                    assert(a.ledgers =~= b.ledgers);
                                    assert(a.cells =~= b.cells);
                                }
                                store.lemma_rankings_kept(*old(store));
                            }
                            let trace = execute_computed_nodes(store, current_id);
                            let ghost after = *store;
                            proof {
                                after.cells@.lemma_writes_keep_graph(current_id@, item, history@);
                            }
                            store.cells.set_history(current_id, history);
                            proof {
                                store.lemma_rankings_kept(after);
                            }
                            Ok(trace)
                        },
                        None => Err(StoreError::MissingState),
                    }
                },
                None => Err(StoreError::MissingState),
            }
        },
    }
}

} // verus!
