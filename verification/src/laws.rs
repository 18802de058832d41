//! Laws of the store, proved from the contracts of its operations.
use crate::model::StoreModel;
use crate::propagation::{cut_at, propagated, ranked, rebuilt};
use crate::store::CellStore;
use crate::value::{Storable, Value};
use vstd::prelude::*;

verus! {

/// Creation is idempotent: a read that follows the first creation of an atom
/// gives the initial value of that creation, and creating the atom again,
/// with whatever other initial value, changes nothing.
pub proof fn lemma_atom_created_once<T: Storable>(
    store: StoreModel,
    id: Seq<char>,
    first: T,
    later: T,
)
    requires
        store.wf(),
    ensures
        !store.holds::<T>(id) ==> store.created(id, first).typed_at::<T>(id) == Some(first),
        store.created(id, first).holds::<T>(id),
        store.created(id, first).created(id, later) == store.created(id, first),
{
    store.lemma_reads_back(id, first.erased());
    first.lemma_typed_of_erased();
}

/// As `lemma_atom_created_once`, for an atom with an undo history: the
/// history of a new atom holds the initial value and nothing else.
pub proof fn lemma_atom_with_undo_created_once<T: Storable>(
    store: StoreModel,
    id: Seq<char>,
    first: T,
    later: T,
)
    requires
        store.wf(),
    ensures
        !store.holds::<T>(id) ==> store.created_with_undo(id, first).typed_at::<T>(id) == Some(
            first,
        ) && store.created_with_undo(id, first).history_at(id) == Some(seq![first.erased()]),
        store.created_with_undo(id, first).holds::<T>(id),
        store.created_with_undo(id, first).created_with_undo(id, later)
            == store.created_with_undo(id, first),
{
    store.lemma_reads_back(id, first.erased());
    store.lemma_writes_keep_graph(id, first.erased(), seq![first.erased()]);
    store.put(id, first.erased()).lemma_history_reads_back(id, seq![first.erased()]);
    first.lemma_typed_of_erased();
}

/// Types are kept apart: what was written as type `T` reads as type `U` only
/// where the cell of the value written holds a `U`.
pub proof fn lemma_typed_read<T: Storable, U: Storable>(
    store: StoreModel,
    id: Seq<char>,
    written: T,
)
    requires
        store.wf(),
    ensures
        store.put(id, written.erased()).typed_at::<T>(id) == Some(written),
        store.put(id, written.erased()).typed_at::<U>(id) == U::typed(written.erased()),
{
    store.lemma_reads_back(id, written.erased());
    written.lemma_typed_of_erased();
}

/// An integer is never read as text: the read finds no state, whatever the
/// integer and whatever else the store holds.
pub proof fn lemma_integer_is_not_text(store: StoreModel, id: Seq<char>, written: i64)
    requires
        store.wf(),
    ensures
        store.put(id, written.erased()).typed_at::<String>(id).is_none(),
        !store.put(id, written.erased()).holds::<String>(id),
{
    lemma_typed_read::<i64, String>(store, id, written);
}

/// An undo takes back a write with undo: the value and the history are what
/// they were before the write.
pub proof fn lemma_undo_takes_back_write(store: StoreModel, id: Seq<char>, cell: Value)
    requires
        store.wf(),
        store.undoable(id),
    ensures
        store.written_with_undo(id, cell).can_undo(id),
        store.written_with_undo(id, cell).undone(id) == store,
{
    let previous = store.value_at(id).unwrap();
    let history = store.history_at(id).unwrap();
    let longer = history.push(previous);
    let recorded = store.with_history(id, longer);
    let written = recorded.put(id, cell);
    store.lemma_writes_keep_graph(id, cell, longer);
    store.lemma_history_reads_back(id, longer);
    recorded.lemma_reads_back(id, cell);
    assert(written.history_at(id) == Some(longer));
    assert(longer.drop_last() =~= history);
    assert(longer.last() == previous);
    let back = written.undone(id);
    assert(back.ids =~= store.ids);
    assert(back.cells =~= store.cells);
    assert(back.links =~= store.links);
    assert(back.ledgers =~= store.ledgers);
}

/// Once only the baseline is left in the history, an undo changes nothing.
pub proof fn lemma_undo_stops_at_baseline(store: StoreModel, id: Seq<char>)
    requires
        store.history_at(id) matches Some(history) && history.len() <= 1,
    ensures
        store.undone(id) == store,
{
}

/// The undo law. An atom is created with undo and the value `v0`; `v1` and
/// then `v2` are written to it with undo. The first undo restores `v1`, the
/// second restores `v0`, and a third leaves the value at `v0`.
pub proof fn lemma_undo_law<T: Storable>(store: StoreModel, id: Seq<char>, v0: T, v1: T, v2: T)
    requires
        store.wf(),
        !store.holds::<T>(id),
    ensures
        ({
            let created = store.created_with_undo(id, v0);
            let written = created.written_with_undo(id, v1.erased()).written_with_undo(
                id,
                v2.erased(),
            );
            let once = written.undone(id);
            let twice = once.undone(id);
            let thrice = twice.undone(id);
            &&& written.typed_at::<T>(id) == Some(v2)
            &&& once.typed_at::<T>(id) == Some(v1)
            &&& twice.typed_at::<T>(id) == Some(v0)
            &&& thrice.typed_at::<T>(id) == Some(v0)
            &&& thrice == twice
        }),
{
    let created = store.created_with_undo(id, v0);
    lemma_atom_with_undo_created_once(store, id, v0, v0);
    store.lemma_writes_keep_graph(id, v0.erased(), seq![v0.erased()]);
    store.put(id, v0.erased()).lemma_writes_keep_graph(id, v0.erased(), seq![v0.erased()]);
    assert(created.wf());
    assert(created.undoable(id));
    let first = created.written_with_undo(id, v1.erased());
    lemma_written_with_undo(created, id, v1.erased());
    let second = first.written_with_undo(id, v2.erased());
    lemma_written_with_undo(first, id, v2.erased());
    lemma_undo_takes_back_write(first, id, v2.erased());
    lemma_undo_takes_back_write(created, id, v1.erased());
    lemma_undo_stops_at_baseline(created, id);
    v0.lemma_typed_of_erased();
    v1.lemma_typed_of_erased();
    v2.lemma_typed_of_erased();
}

/// A write with undo stores the new value, keeps the store well formed and
/// leaves the atom ready for the next write with undo.
pub proof fn lemma_written_with_undo(store: StoreModel, id: Seq<char>, cell: Value)
    requires
        store.wf(),
        store.undoable(id),
    ensures
        store.written_with_undo(id, cell).wf(),
        store.written_with_undo(id, cell).undoable(id),
        store.written_with_undo(id, cell).value_at(id) == Some(cell),
        store.written_with_undo(id, cell).history_at(id) == Some(
            store.history_at(id).unwrap().push(store.value_at(id).unwrap()),
        ),
{
    let longer = store.history_at(id).unwrap().push(store.value_at(id).unwrap());
    let recorded = store.with_history(id, longer);
    store.lemma_writes_keep_graph(id, cell, longer);
    store.lemma_history_reads_back(id, longer);
    recorded.lemma_writes_keep_graph(id, cell, longer);
    recorded.lemma_reads_back(id, cell);
}

/// Where an undo has a write to take back, putting the shortened history
/// back into the store from which it was taken out gives the store after the
/// undo.
pub proof fn lemma_undo_puts_history_back(store: StoreModel, id: Seq<char>)
    requires
        store.wf(),
        store.can_undo(id),
    ensures
        store.undone(id).without_history(id).with_history(
            id,
            store.history_at(id).unwrap().drop_last(),
        ) == store.undone(id),
{
    let history = store.history_at(id).unwrap();
    let shorter = history.drop_last();
    store.lemma_writes_keep_graph(id, history.last(), shorter);
    store.lemma_history_reads_back(id, shorter);
    let recorded = store.with_history(id, shorter);
    recorded.lemma_writes_keep_graph(id, history.last(), shorter);
    recorded.lemma_reads_back(id, history.last());
    let undone = store.undone(id);
    assert(undone.history_at(id) == Some(shorter));
    undone.lemma_history_back(id);
}

/// Recording an edge keeps a ranking in which the dependent ranks below the
/// source: a rebuild function that reads only cells that rank above its
/// computed keeps the ranking.
pub proof fn lemma_link_keeps_ranking(
    store: StoreModel,
    source: Seq<char>,
    dependent: Seq<char>,
    rank: spec_fn(Seq<char>) -> nat,
)
    requires
        store.wf(),
        ranked(store, rank),
        rank(dependent) < rank(source),
    ensures
        store.link(source, dependent).wf(),
        ranked(store.link(source, dependent), rank),
{
    let linked = store.link(source, dependent);
    store.lemma_link(source, dependent);
    assert forall|from: Seq<char>, i: int|
        0 <= i < linked.dependents_of(from).len() implies rank(
        #[trigger] linked.dependents_of(from)[i],
    ) < rank(from) by {
        if from == source {
            if i < store.dependents_of(from).len() {
                assert(linked.dependents_of(from)[i] == store.dependents_of(from)[i]);
            }
        } else {
            assert(linked.dependents_of(from) == store.dependents_of(from));
        }
    }
}

/// Propagation is synchronous: when it ends, every computed that depended
/// on the cell that was written has been rebuilt at least once.
pub proof fn lemma_dependents_rebuilt<F: Fn(CellStore, &str) -> CellStore>(
    registry: Map<Seq<char>, F>,
    start: CellStore,
    work: Seq<Seq<char>>,
    end: CellStore,
    trace: Seq<Seq<char>>,
    dependent: Seq<char>,
)
    requires
        propagated(registry, start, work, end, trace),
        work.contains(dependent),
        registry.dom().contains(dependent),
    ensures
        trace.contains(dependent),
    decreases trace.len(), work.len(),
{
    let (middle, n) = choose|middle: CellStore, n: int|
        #[trigger] cut_at(trace, n, middle) && propagated(
            registry,
            start,
            work.drop_last(),
            middle,
            trace.take(n),
        ) && rebuilt(registry, middle, work.last(), end, trace.skip(n));
    if work.last() == dependent {
        assert(trace.skip(n)[0] == dependent);
        assert(trace[n] == dependent);
    } else {
        let k = work.index_of(dependent);
        assert(work.drop_last()[k] == dependent);
        lemma_dependents_rebuilt(
            registry,
            start,
            work.drop_last(),
            middle,
            trace.take(n),
            dependent,
        );
        let j = trace.take(n).index_of(dependent);
        assert(trace[j] == dependent);
    }
}

/// Where none of the dependents has a rebuild function, propagation changes
/// nothing and rebuilds nothing: a write to a cell that no computed depends
/// on changes that cell alone.
pub proof fn lemma_nothing_to_rebuild<F: Fn(CellStore, &str) -> CellStore>(
    registry: Map<Seq<char>, F>,
    start: CellStore,
    work: Seq<Seq<char>>,
    end: CellStore,
    trace: Seq<Seq<char>>,
)
    requires
        propagated(registry, start, work, end, trace),
        forall|i: int| 0 <= i < work.len() ==> !registry.dom().contains(#[trigger] work[i]),
    ensures
        end == start,
        trace.len() == 0,
    decreases work.len(),
{
    if work.len() > 0 {
        let (middle, n) = choose|middle: CellStore, n: int|
            #[trigger] cut_at(trace, n, middle) && propagated(
                registry,
                start,
                work.drop_last(),
                middle,
                trace.take(n),
            ) && rebuilt(registry, middle, work.last(), end, trace.skip(n));
        assert forall|i: int| 0 <= i < work.drop_last().len() implies !registry.dom().contains(
            #[trigger] work.drop_last()[i],
        ) by {
            assert(work.drop_last()[i] == work[i]);
        }
        lemma_nothing_to_rebuild(registry, start, work.drop_last(), middle, trace.take(n));
        assert(!registry.dom().contains(work[work.len() - 1]));
    }
}

/// Whether every edge of `before` is an edge of `after`.
pub open spec fn grows(before: StoreModel, after: StoreModel) -> bool {
    forall|source: Seq<char>, dependent: Seq<char>| #[trigger]
        before.dependents_of(source).contains(dependent) ==> after.dependents_of(source).contains(
            dependent,
        )
}

/// Whether the rebuild functions of `registry` only ever add edges to the
/// dependency graph.
pub open spec fn additive<F: Fn(CellStore, &str) -> CellStore>(
    registry: Map<Seq<char>, F>,
) -> bool {
    forall|id: Seq<char>, store: CellStore, name: &str, rebuilt: CellStore|
        registry.dom().contains(id) && #[trigger] registry[id].ensures((store, name), rebuilt)
            ==> grows(store@, rebuilt@)
}

/// Whether `path` is a chain of computeds in `store`: each has a rebuild
/// function, and each but the first depends on the one before it.
pub open spec fn chain<F>(
    registry: Map<Seq<char>, F>,
    store: StoreModel,
    path: Seq<Seq<char>>,
) -> bool {
    &&& forall|i: int| 0 <= i < path.len() ==> registry.dom().contains(#[trigger] path[i])
    &&& forall|i: int|
        0 <= i < path.len() - 1 ==> store.dependents_of(#[trigger] path[i]).contains(path[i + 1])
}

/// A ranking bounds the depth of propagation and rules out cycles: a chain
/// of dependents that starts at `id` has at most `rank(id)` members, and `id`
/// is none of them.
pub proof fn lemma_chain_is_bounded<F>(
    registry: Map<Seq<char>, F>,
    store: StoreModel,
    id: Seq<char>,
    path: Seq<Seq<char>>,
    rank: spec_fn(Seq<char>) -> nat,
)
    requires
        ranked(store, rank),
        path.len() > 0,
        store.dependents_of(id).contains(path[0]),
        chain(registry, store, path),
    ensures
        rank(path.last()) + path.len() <= rank(id),
        path.len() <= rank(id),
        forall|i: int| 0 <= i < path.len() ==> path[i] != id,
    decreases path.len(),
{
    let k = store.dependents_of(id).index_of(path[0]);
    assert(store.dependents_of(id)[k] == path[0]);
    if path.len() > 1 {
        let shorter = path.skip(1);
        assert(store.dependents_of(path[0]).contains(path[1]));
        assert forall|i: int| 0 <= i < shorter.len() implies registry.dom().contains(
            #[trigger] shorter[i],
        ) by {
            assert(shorter[i] == path[i + 1]);
        }
        assert forall|i: int| 0 <= i < shorter.len() - 1 implies store.dependents_of(
            #[trigger] shorter[i],
        ).contains(shorter[i + 1]) by {
            assert(store.dependents_of(path[i + 1]).contains(path[i + 2]));
        }
        lemma_chain_is_bounded(registry, store, path[0], shorter, rank);
        lemma_chain_ranks_fall(registry, store, path, rank);
    }
    assert forall|i: int| 0 <= i < path.len() implies path[i] != id by {
        if path.len() > 1 {
            assert(rank(path[i]) <= rank(path[0]));
        }
    }
}

/// Along a chain of dependents the ranks fall.
proof fn lemma_chain_ranks_fall<F>(
    registry: Map<Seq<char>, F>,
    store: StoreModel,
    path: Seq<Seq<char>>,
    rank: spec_fn(Seq<char>) -> nat,
)
    requires
        ranked(store, rank),
        chain(registry, store, path),
    ensures
        forall|i: int| 0 <= i < path.len() ==> rank(#[trigger] path[i]) <= rank(path[0]),
    decreases path.len(),
{
    if path.len() > 1 {
        let shorter = path.drop_last();
        assert forall|i: int| 0 <= i < shorter.len() implies registry.dom().contains(
            #[trigger] shorter[i],
        ) by {
            assert(shorter[i] == path[i]);
        }
        assert forall|i: int| 0 <= i < shorter.len() - 1 implies store.dependents_of(
            #[trigger] shorter[i],
        ).contains(shorter[i + 1]) by {
            assert(store.dependents_of(path[i]).contains(path[i + 1]));
        }
        lemma_chain_ranks_fall(registry, store, shorter, rank);
        let n = path.len() - 1;
        assert(store.dependents_of(path[n - 1]).contains(path[n]));
        let k = store.dependents_of(path[n - 1]).index_of(path[n]);
        assert(store.dependents_of(path[n - 1])[k] == path[n]);
        assert(rank(shorter[n - 1]) <= rank(shorter[0]));
        assert forall|i: int| 0 <= i < path.len() implies rank(#[trigger] path[i]) <= rank(
            path[0],
        ) by {
            if i < n {
                assert(shorter[i] == path[i]);
            }
        }
    }
}

/// With rebuild functions that only add edges, propagation only adds edges.
pub proof fn lemma_propagation_grows<F: Fn(CellStore, &str) -> CellStore>(
    registry: Map<Seq<char>, F>,
    start: CellStore,
    work: Seq<Seq<char>>,
    end: CellStore,
    trace: Seq<Seq<char>>,
)
    requires
        propagated(registry, start, work, end, trace),
        additive(registry),
    ensures
        grows(start@, end@),
    decreases trace.len(), work.len(),
{
    if work.len() > 0 {
        let (middle, n) = choose|middle: CellStore, n: int|
            #[trigger] cut_at(trace, n, middle) && propagated(
                registry,
                start,
                work.drop_last(),
                middle,
                trace.take(n),
            ) && rebuilt(registry, middle, work.last(), end, trace.skip(n));
        lemma_propagation_grows(registry, start, work.drop_last(), middle, trace.take(n));
        let id = work.last();
        let rest = trace.skip(n);
        if registry.dom().contains(id) {
            let (name, built) = choose|name: &str, built: CellStore|
                name@ == id && #[trigger] registry[id].ensures((middle, name), built) && propagated(
                    registry,
                    built,
                    built@.dependents_of(id),
                    end,
                    rest.skip(1),
                );
            lemma_propagation_grows(registry, built, built@.dependents_of(id), end, rest.skip(1));
            assert(grows(middle@, built@));
        }
    }
}

/// A computed that a chain of dependents links to the work of a propagation
/// is rebuilt at least once, however long the chain.
proof fn lemma_chain_rebuilt<F: Fn(CellStore, &str) -> CellStore>(
    registry: Map<Seq<char>, F>,
    start: CellStore,
    work: Seq<Seq<char>>,
    end: CellStore,
    trace: Seq<Seq<char>>,
    path: Seq<Seq<char>>,
)
    requires
        propagated(registry, start, work, end, trace),
        additive(registry),
        path.len() > 0,
        work.contains(path[0]),
        chain(registry, start@, path),
    ensures
        trace.contains(path.last()),
    decreases trace.len(), work.len(),
{
    let (middle, n) = choose|middle: CellStore, n: int|
        #[trigger] cut_at(trace, n, middle) && propagated(
            registry,
            start,
            work.drop_last(),
            middle,
            trace.take(n),
        ) && rebuilt(registry, middle, work.last(), end, trace.skip(n));
    if work.drop_last().contains(path[0]) {
        lemma_chain_rebuilt(registry, start, work.drop_last(), middle, trace.take(n), path);
        let j = trace.take(n).index_of(path.last());
        assert(trace[j] == path.last());
    } else {
        let k = work.index_of(path[0]);
        if k < work.len() - 1 {
            assert(work.drop_last()[k] == path[0]);
        }
        let id = work.last();
        assert(id == path[0]);
        let rest = trace.skip(n);
        assert(rest[0] == id);
        assert(trace[n] == id);
        if path.len() > 1 {
            let (name, built) = choose|name: &str, built: CellStore|
                name@ == id && #[trigger] registry[id].ensures((middle, name), built) && propagated(
                    registry,
                    built,
                    built@.dependents_of(id),
                    end,
                    rest.skip(1),
                );
            lemma_propagation_grows(registry, start, work.drop_last(), middle, trace.take(n));
            assert(grows(middle@, built@));
            let shorter = path.skip(1);
            assert(start@.dependents_of(path[0]).contains(path[1]));
            assert(middle@.dependents_of(path[0]).contains(path[1]));
            assert(built@.dependents_of(id).contains(shorter[0]));
            assert forall|i: int| 0 <= i < shorter.len() - 1 implies built@.dependents_of(
                #[trigger] shorter[i],
            ).contains(shorter[i + 1]) by {
                assert(start@.dependents_of(path[i + 1]).contains(path[i + 2]));
                assert(middle@.dependents_of(path[i + 1]).contains(path[i + 2]));
            }
            assert forall|i: int| 0 <= i < shorter.len() implies registry.dom().contains(
                #[trigger] shorter[i],
            ) by {
                assert(shorter[i] == path[i + 1]);
            }
            lemma_chain_rebuilt(
                registry,
                built,
                built@.dependents_of(id),
                end,
                rest.skip(1),
                shorter,
            );
            let j = rest.skip(1).index_of(shorter.last());
            assert(trace[n + 1 + j] == path.last());
        }
    }
}

/// Propagation reaches every computed that depends on the written cell
/// through other computeds, on however many paths: a computed at the end of
/// a chain of dependents that starts at `id` is rebuilt at least once. (It is
/// rebuilt once for every such chain; the law states the least.) The rebuild
/// functions are taken to add edges only.
pub proof fn lemma_reachable_rebuilt<F: Fn(CellStore, &str) -> CellStore>(
    registry: Map<Seq<char>, F>,
    start: CellStore,
    id: Seq<char>,
    end: CellStore,
    trace: Seq<Seq<char>>,
    path: Seq<Seq<char>>,
)
    requires
        propagated(registry, start, start@.dependents_of(id), end, trace),
        additive(registry),
        path.len() > 0,
        start@.dependents_of(id).contains(path[0]),
        chain(registry, start@, path),
    ensures
        trace.contains(path.last()),
{
    lemma_chain_rebuilt(registry, start, start@.dependents_of(id), end, trace, path);
}

} // verus!
