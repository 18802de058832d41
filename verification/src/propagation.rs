//! Propagation: rebuilding the computeds that depend on a cell that changed.
use crate::model::StoreModel;
use crate::registry::{AtomStore, ComputedRegistry};
use crate::store::CellStore;
use vstd::prelude::*;

verus! {

/// Whether `rank` orders the dependency graph: every dependent ranks below
/// the cell it depends on. A graph that some `rank` orders has no cycle, and
/// a chain of dependents that starts at `id` is at most `rank(id)` long.
pub open spec fn ranked(store: StoreModel, rank: spec_fn(Seq<char>) -> nat) -> bool {
    forall|source: Seq<char>, i: int|
        0 <= i < store.dependents_of(source).len() ==> rank(
            #[trigger] store.dependents_of(source)[i],
        ) < rank(source)
}

/// What propagation asks of the rebuild function `func` of the computed
/// `id`: on a well-formed store whose graph `rank` orders, it can be called
/// with the computed's identifier, and it hands back a store that is again
/// well formed and ordered by `rank`.
pub open spec fn rebuild_ok<F: Fn(CellStore, &str) -> CellStore>(
    func: F,
    id: Seq<char>,
    rank: spec_fn(Seq<char>) -> nat,
) -> bool {
    &&& forall|store: CellStore, name: &str|
        name@ == id && store.wf() && ranked(store@, rank) ==> #[trigger] func.requires(
            (store, name),
        )
    &&& forall|store: CellStore, name: &str, rebuilt: CellStore|
        name@ == id && store.wf() && ranked(store@, rank) && #[trigger] func.ensures(
            (store, name),
            rebuilt,
        ) ==> rebuilt.wf() && ranked(rebuilt@, rank)
}

/// Whether every rebuild function of `registry` meets `rebuild_ok`.
pub open spec fn rebuilds_ok<F: Fn(CellStore, &str) -> CellStore>(
    registry: Map<Seq<char>, F>,
    rank: spec_fn(Seq<char>) -> nat,
) -> bool {
    forall|id: Seq<char>| #[trigger]
        registry.dom().contains(id) ==> rebuild_ok(registry[id], id, rank)
}

/// A place to cut a trace in two: after its first `n` entries, where the store
/// was `middle`.
pub open spec fn cut_at(trace: Seq<Seq<char>>, n: int, middle: CellStore) -> bool {
    0 <= n <= trace.len()
}

/// A store with the same dependency graph has the same rankings.
pub proof fn lemma_same_graph_keeps_ranking(
    before: StoreModel,
    after: StoreModel,
    rank: spec_fn(Seq<char>) -> nat,
)
    requires
        ranked(before, rank),
        after.same_graph(before),
    ensures
        ranked(after, rank),
{
    assert forall|source: Seq<char>, i: int|
        0 <= i < after.dependents_of(source).len() implies rank(
        #[trigger] after.dependents_of(source)[i],
    ) < rank(source) by {
        assert(after.dependents_of(source) == before.dependents_of(source));
    }
}

/// Propagation through the identifiers of `work`, one after the other, takes
/// the store from `start` to `end`, and `trace` lists the computeds rebuilt
/// on the way, in order.
pub open spec fn propagated<F: Fn(CellStore, &str) -> CellStore>(
    registry: Map<Seq<char>, F>,
    start: CellStore,
    work: Seq<Seq<char>>,
    end: CellStore,
    trace: Seq<Seq<char>>,
) -> bool
    decreases trace.len(), work.len(),
{
    if work.len() == 0 {
        end == start && trace.len() == 0
    } else {
        exists|middle: CellStore, n: int|
            #[trigger] cut_at(trace, n, middle) && propagated(
                registry,
                start,
                work.drop_last(),
                middle,
                trace.take(n),
            ) && rebuilt(registry, middle, work.last(), end, trace.skip(n))
    }
}

/// Rebuilding `id` and then, depth first, everything that depends on it takes
/// the store from `start` to `end`. An identifier without a rebuild function
/// is passed over. One with a rebuild function is first in `trace`; its
/// function is run on `start`, and propagation goes on from the store it
/// hands back, through the dependents that `id` has in that store.
pub open spec fn rebuilt<F: Fn(CellStore, &str) -> CellStore>(
    registry: Map<Seq<char>, F>,
    start: CellStore,
    id: Seq<char>,
    end: CellStore,
    trace: Seq<Seq<char>>,
) -> bool
    decreases trace.len(), 0nat,
{
    if !registry.dom().contains(id) {
        end == start && trace.len() == 0
    } else {
        &&& trace.len() > 0
        &&& trace[0] == id
        &&& exists|name: &str, built: CellStore|
            name@ == id && #[trigger] registry[id].ensures((start, name), built) && propagated(
                registry,
                built,
                built@.dependents_of(id),
                end,
                trace.skip(1),
            )
    }
}

/// Propagation keeps a store well formed and keeps every ranking of its
/// graph that the rebuild functions keep.
pub proof fn lemma_propagated_keeps_ranking<F: Fn(CellStore, &str) -> CellStore>(
    registry: Map<Seq<char>, F>,
    start: CellStore,
    work: Seq<Seq<char>>,
    end: CellStore,
    trace: Seq<Seq<char>>,
    rank: spec_fn(Seq<char>) -> nat,
)
    requires
        propagated(registry, start, work, end, trace),
        start.wf(),
        ranked(start@, rank),
        rebuilds_ok(registry, rank),
    ensures
        end.wf(),
        ranked(end@, rank),
    decreases trace.len(), work.len(),
{
    if work.len() > 0 {
        let (middle, n) = choose|middle: CellStore, n: int|
            #[trigger] cut_at(trace, n, middle) && propagated(
                registry,
                start,
                work.drop_last(),
                middle,
                trace.take(n),
            ) && rebuilt(registry, middle, work.last(), end, trace.skip(n));
        lemma_propagated_keeps_ranking(
            registry,
            start,
            work.drop_last(),
            middle,
            trace.take(n),
            rank,
        );
        let id = work.last();
        let rest = trace.skip(n);
        if registry.dom().contains(id) {
            let (name, built) = choose|name: &str, built: CellStore|
                name@ == id && #[trigger] registry[id].ensures((middle, name), built) && propagated(
                    registry,
                    built,
                    built@.dependents_of(id),
                    end,
                    rest.skip(1),
                );
            lemma_propagated_keeps_ranking(
                registry,
                built,
                built@.dependents_of(id),
                end,
                rest.skip(1),
                rank,
            );
        }
    }
}

/// Rebuilds, depth first, everything that depends on `id`, from the store
/// `cells`. Returns the store that results and the computeds that were
/// rebuilt, in order.
fn propagate<F: Fn(CellStore, &str) -> CellStore>(
    registry: &ComputedRegistry<F>,
    cells: CellStore,
    id: &str,
    Ghost(rank): Ghost<spec_fn(Seq<char>) -> nat>,
) -> (out: (CellStore, Vec<String>))
    requires
        registry.wf(),
        cells.wf(),
        ranked(cells@, rank),
        rebuilds_ok(registry@, rank),
    ensures
        out.0.wf(),
        ranked(out.0@, rank),
        propagated(registry@, cells, cells@.dependents_of(id@), out.0, out.1.deep_view()),
    decreases rank(id@),
{
    let work = cells.dependents_of(id);
    let ghost start = cells;
    let ghost todo = work.deep_view();
    let mut cells = cells;
    let mut trace: Vec<String> = Vec::new();
    let mut i: usize = 0;
    proof {
        assert(todo.take(0) =~= Seq::<Seq<char>>::empty());
        assert(trace.deep_view() =~= Seq::<Seq<char>>::empty());
    }
    while i < work.len()
        invariant
            i <= work.len(),
            todo == work.deep_view(),
            todo == start@.dependents_of(id@),
            registry.wf(),
            cells.wf(),
            ranked(start@, rank),
            ranked(cells@, rank),
            rebuilds_ok(registry@, rank),
            propagated(registry@, start, todo.take(i as int), cells, trace.deep_view()),
        decreases work.len() - i,
    {
        let name = work[i].as_str();
        let ghost middle = cells;
        let ghost before = trace.deep_view();
        assert(name@ == todo[i as int]);
        match registry.position(name) {
            Some(j) => {
                let func = registry.func_at(j);
                let built = func(cells, name);
                let (after, below) = propagate(registry, built, name, Ghost(rank));
                let mut below = below;
                let ghost beneath = below.deep_view();
                trace.push(work[i].clone());
                trace.append(&mut below);
                cells = after;
                proof {
                    let now = trace.deep_view();
                    assert(now =~= before.push(name@) + beneath);
                    assert(now.skip(before.len() as int).skip(1) =~= beneath);
                }
            },
            None => {},
        }
        i += 1;
        proof {
            let done = todo.take(i as int);
            let now = trace.deep_view();
            let n = before.len() as int;
            assert(done.drop_last() =~= todo.take(i - 1));
            assert(now.take(n) =~= before);
            assert(now.skip(n).len() == 0 ==> now.skip(n) =~= Seq::<Seq<char>>::empty());
            assert(rebuilt(registry@, middle, done.last(), cells, now.skip(n)));
            assert(cut_at(now, n, middle));
        }
    }
    proof {
        assert(todo.take(work.len() as int) =~= todo);
    }
    (cells, trace)
}

impl<F: Fn(CellStore, &str) -> CellStore> AtomStore<F> {
    /// Whether `rank` bounds propagation in this store: it orders the graph,
    /// and every rebuild function keeps the store well formed and the graph
    /// ordered by it.
    pub open spec fn ranked_by(&self, rank: spec_fn(Seq<char>) -> nat) -> bool {
        ranked(self.cells@, rank) && rebuilds_ok(self.computeds@, rank)
    }

    /// Whether propagation in this store is sure to end: the store has a
    /// ranking.
    pub open spec fn has_ranking(&self) -> bool {
        exists|rank: spec_fn(Seq<char>) -> nat| self.ranked_by(rank)
    }

    /// Whether this store has every ranking that the store `before` had.
    pub open spec fn keeps_rankings_of(&self, before: AtomStore<F>) -> bool {
        forall|rank: spec_fn(Seq<char>) -> nat| before.ranked_by(rank) ==> self.ranked_by(rank)
    }

    /// A store with the same rebuild functions and the same dependency graph
    /// keeps the rankings.
    pub proof fn lemma_rankings_kept(&self, before: AtomStore<F>)
        requires
            self.cells@.same_graph(before.cells@),
            self.computeds@ == before.computeds@,
        ensures
            self.keeps_rankings_of(before),
            before.has_ranking() ==> self.has_ranking(),
    {
        assert forall|rank: spec_fn(Seq<char>) -> nat|
            before.ranked_by(rank) implies self.ranked_by(rank) by {
            lemma_same_graph_keeps_ranking(before.cells@, self.cells@, rank);
        }
        if before.has_ranking() {
            let rank = choose|rank: spec_fn(Seq<char>) -> nat| before.ranked_by(rank);
            assert(self.ranked_by(rank));
        }
    }
}

/// Rebuilds the computeds that depend on `id`, each followed at once by the
/// computeds that depend on it in turn. Returns the computeds rebuilt, in the
/// order in which they were rebuilt; one that is reached on several paths is
/// rebuilt once for each.
///
/// The store must have a ranking: without one a cycle of dependents could
/// keep propagation from ending.
pub fn execute_computed_nodes<F: Fn(CellStore, &str) -> CellStore>(
    store: &mut AtomStore<F>,
    id: &str,
) -> (trace: Vec<String>)
    requires
        old(store).wf(),
        old(store).has_ranking(),
    ensures
        final(store).wf(),
        final(store).computeds == old(store).computeds,
        final(store).keeps_rankings_of(*old(store)),
        propagated(
            old(store).computeds@,
            old(store).cells,
            old(store).cells@.dependents_of(id@),
            final(store).cells,
            trace.deep_view(),
        ),
{
    let ghost rank = choose|rank: spec_fn(Seq<char>) -> nat| old(store).ranked_by(rank);
    let mut cells = CellStore::new();
    core::mem::swap(&mut store.cells, &mut cells);
    let (after, trace) = propagate(&store.computeds, cells, id, Ghost(rank));
    store.cells = after;
    proof {
        assert forall|other: spec_fn(Seq<char>) -> nat|
            old(store).ranked_by(other) implies store.ranked_by(other) by {
            lemma_propagated_keeps_ranking(
                old(store).computeds@,
                old(store).cells,
                old(store).cells@.dependents_of(id@),
                after,
                trace.deep_view(),
                other,
            );
        }
    }
    trace
}

} // verus!
