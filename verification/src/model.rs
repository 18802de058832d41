//! The store as a mathematical value: what contracts and laws speak of.
use crate::slot_table::{lemma_slot_is_position, lemma_with_slot};
use crate::value::{Storable, Value};
use vstd::prelude::*;

verus! {

/// The state of a store. Slot `k` belongs to the identifier `ids[k]`; the
/// other three sequences hold, slot by slot, the identifier's cell, the
/// identifiers that are rebuilt when it changes, and its undo history.
pub struct StoreModel {
    /// The slot table: the registered identifiers, in order of registration.
    pub ids: Seq<Seq<char>>,
    /// The typed cell storage: the cell of each slot, where one is stored.
    pub cells: Seq<Option<Value>>,
    /// The dependency graph: the dependents of each slot, in the order in
    /// which they were first recorded.
    pub links: Seq<Seq<Seq<char>>>,
    /// The undo ledger: the earlier values of each slot, oldest first, where
    /// the slot keeps a history.
    pub ledgers: Seq<Option<Seq<Value>>>,
}

impl StoreModel {
    /// The invariant of a store: no identifier has two slots, every slot has
    /// its three entries, no dependent is recorded twice for one identifier,
    /// and a history that exists is never empty.
    pub open spec fn wf(self) -> bool {
        &&& self.ids.no_duplicates()
        &&& self.cells.len() == self.ids.len()
        &&& self.links.len() == self.ids.len()
        &&& self.ledgers.len() == self.ids.len()
        &&& forall|k: int| 0 <= k < self.links.len() ==> (#[trigger] self.links[k]).no_duplicates()
        &&& forall|k: int|
            0 <= k < self.ledgers.len() ==> (#[trigger] self.ledgers[k] matches Some(history)
                ==> history.len() >= 1)
    }

    /// The store in which nothing is registered.
    pub open spec fn empty() -> StoreModel {
        StoreModel {
            ids: Seq::empty(),
            cells: Seq::empty(),
            links: Seq::empty(),
            ledgers: Seq::empty(),
        }
    }

    /// Whether `id` is registered.
    pub open spec fn knows(self, id: Seq<char>) -> bool {
        self.ids.contains(id)
    }

    /// The slot of a registered identifier.
    pub open spec fn slot(self, id: Seq<char>) -> int {
        self.ids.index_of(id)
    }

    /// The cell stored under `id`, if there is one.
    pub open spec fn value_at(self, id: Seq<char>) -> Option<Value> {
        if self.knows(id) {
            self.cells[self.slot(id)]
        } else {
            None
        }
    }

    /// The value of type `T` stored under `id`: none where nothing is stored
    /// there, and none where what is stored is of another type.
    pub open spec fn typed_at<T: Storable>(self, id: Seq<char>) -> Option<T> {
        match self.value_at(id) {
            Some(cell) => T::typed(cell),
            None => None,
        }
    }

    /// Whether a value of type `T` is stored under `id`.
    pub open spec fn holds<T: Storable>(self, id: Seq<char>) -> bool {
        self.typed_at::<T>(id).is_some()
    }

    /// The identifiers to rebuild when `id` changes, in the order in which
    /// they were first recorded.
    pub open spec fn dependents_of(self, id: Seq<char>) -> Seq<Seq<char>> {
        if self.knows(id) {
            self.links[self.slot(id)]
        } else {
            Seq::empty()
        }
    }

    /// The undo history of `id`, oldest value first, if it keeps one.
    pub open spec fn history_at(self, id: Seq<char>) -> Option<Seq<Value>> {
        if self.knows(id) {
            self.ledgers[self.slot(id)]
        } else {
            None
        }
    }

    /// The store after `id` has been registered: unchanged where `id` has a
    /// slot, else with one more slot, which is empty.
    pub open spec fn register(self, id: Seq<char>) -> StoreModel {
        if self.knows(id) {
            self
        } else {
            StoreModel {
                ids: self.ids.push(id),
                cells: self.cells.push(None),
                links: self.links.push(Seq::empty()),
                ledgers: self.ledgers.push(None),
            }
        }
    }

    /// The store after `cell` has been stored under `id`, in place of
    /// whatever was stored there.
    pub open spec fn put(self, id: Seq<char>, cell: Value) -> StoreModel {
        let registered = self.register(id);
        StoreModel {
            cells: registered.cells.update(registered.slot(id), Some(cell)),
            ..registered
        }
    }

    /// The store after the cell of `id` has been taken out.
    pub open spec fn vacate(self, id: Seq<char>) -> StoreModel {
        if self.knows(id) {
            StoreModel { cells: self.cells.update(self.slot(id), None), ..self }
        } else {
            self
        }
    }

    /// The store after it has been recorded that `dependent` is rebuilt when
    /// `source` changes. Both get a slot; an edge that is there already is
    /// not recorded a second time.
    pub open spec fn link(self, source: Seq<char>, dependent: Seq<char>) -> StoreModel {
        let registered = self.register(source).register(dependent);
        let k = registered.slot(source);
        if registered.links[k].contains(dependent) {
            registered
        } else {
            StoreModel {
                links: registered.links.update(k, registered.links[k].push(dependent)),
                ..registered
            }
        }
    }

    /// The store after `history` has become the undo history of `id`.
    pub open spec fn with_history(self, id: Seq<char>, history: Seq<Value>) -> StoreModel {
        let registered = self.register(id);
        StoreModel {
            ledgers: registered.ledgers.update(registered.slot(id), Some(history)),
            ..registered
        }
    }

    /// The store after the undo history of `id` has been taken out.
    pub open spec fn without_history(self, id: Seq<char>) -> StoreModel {
        if self.knows(id) {
            StoreModel { ledgers: self.ledgers.update(self.slot(id), None), ..self }
        } else {
            self
        }
    }

    /// The store after an atom of type `T` has been created under `id` with
    /// the initial value `initial`: unchanged where a value of that type is
    /// stored there already.
    pub open spec fn created<T: Storable>(self, id: Seq<char>, initial: T) -> StoreModel {
        if self.holds::<T>(id) {
            self
        } else {
            self.put(id, initial.erased())
        }
    }

    /// As `created`, for an atom that keeps an undo history: the history
    /// starts with the initial value as its baseline.
    pub open spec fn created_with_undo<T: Storable>(self, id: Seq<char>, initial: T) -> StoreModel {
        if self.holds::<T>(id) {
            self
        } else {
            self.put(id, initial.erased()).with_history(id, seq![initial.erased()])
        }
    }

    /// Whether `id` can be written with undo: it has a cell and a history.
    pub open spec fn undoable(self, id: Seq<char>) -> bool {
        self.value_at(id).is_some() && self.history_at(id).is_some()
    }

    /// The store after `cell` has been written under `id` with undo: the
    /// value that was current goes to the end of the history.
    pub open spec fn written_with_undo(self, id: Seq<char>, cell: Value) -> StoreModel {
        if self.undoable(id) {
            self.with_history(
                id,
                self.history_at(id).unwrap().push(self.value_at(id).unwrap()),
            ).put(id, cell)
        } else {
            self
        }
    }

    /// Whether an undo of `id` has a write to take back: its history holds
    /// more than the baseline.
    pub open spec fn can_undo(self, id: Seq<char>) -> bool {
        self.history_at(id) matches Some(history) && history.len() > 1
    }

    /// The store after one undo of `id`: the last entry of the history
    /// becomes the current value and leaves the history. Where only the
    /// baseline is left, nothing changes.
    pub open spec fn undone(self, id: Seq<char>) -> StoreModel {
        if self.can_undo(id) {
            let history = self.history_at(id).unwrap();
            self.with_history(id, history.drop_last()).put(id, history.last())
        } else {
            self
        }
    }
    /// Whether the two stores have the same dependency graph.
    pub open spec fn same_graph(self, other: StoreModel) -> bool {
        forall|source: Seq<char>| #[trigger]
            self.dependents_of(source) == other.dependents_of(source)
    }

    /// Registering an identifier, writing a cell and setting a history keep
    /// the store well formed and leave the dependency graph as it is.
    pub proof fn lemma_writes_keep_graph(self, id: Seq<char>, cell: Value, history: Seq<Value>)
        requires
            self.wf(),
        ensures
            self.register(id).wf(),
            self.register(id).same_graph(self),
            self.put(id, cell).wf(),
            self.put(id, cell).same_graph(self),
            self.without_history(id).wf(),
            self.without_history(id).same_graph(self),
            history.len() >= 1 ==> self.with_history(id, history).wf(),
            self.with_history(id, history).same_graph(self),
    {
        lemma_with_slot(self.ids, id);
        let registered = self.register(id);
        assert forall|source: Seq<char>| #[trigger]
            registered.dependents_of(source) == self.dependents_of(source) by {
            if self.knows(source) {
                assert(registered.slot(source) == self.slot(source));
            } else if registered.knows(source) {
                assert(source == id);
            }
        }
        assert(self.put(id, cell).same_graph(registered));
        assert(self.with_history(id, history).same_graph(registered));
    }

    /// Taking a cell out before writing it makes no difference to the write.
    pub proof fn lemma_put_after_vacate(self, id: Seq<char>, cell: Value)
        requires
            self.wf(),
        ensures
            self.vacate(id).put(id, cell) == self.put(id, cell),
    {
        assert(self.vacate(id).put(id, cell).cells =~= self.put(id, cell).cells);
    }

    /// Taking a cell out and putting the same cell back leaves the store as
    /// it was.
    pub proof fn lemma_put_back(self, id: Seq<char>)
        requires
            self.wf(),
            self.value_at(id).is_some(),
        ensures
            self.vacate(id).put(id, self.value_at(id).unwrap()) == self,
    {
        assert(self.vacate(id).put(id, self.value_at(id).unwrap()).cells =~= self.cells);
    }

    /// Taking a history out and putting the same history back leaves the
    /// store as it was.
    pub proof fn lemma_history_back(self, id: Seq<char>)
        requires
            self.wf(),
            self.history_at(id).is_some(),
        ensures
            self.without_history(id).with_history(id, self.history_at(id).unwrap()) == self,
    {
        assert(self.without_history(id).with_history(id, self.history_at(id).unwrap()).ledgers
            =~= self.ledgers);
    }
    /// A cell that was written is the cell that is read.
    pub proof fn lemma_reads_back(self, id: Seq<char>, cell: Value)
        requires
            self.wf(),
        ensures
            self.put(id, cell).value_at(id) == Some(cell),
            self.put(id, cell).history_at(id) == self.history_at(id),
    {
        lemma_with_slot(self.ids, id);
    }

    /// A history that was set is the history that is read, and the cell is
    /// the one that was there.
    pub proof fn lemma_history_reads_back(self, id: Seq<char>, history: Seq<Value>)
        requires
            self.wf(),
        ensures
            self.with_history(id, history).history_at(id) == Some(history),
            self.with_history(id, history).value_at(id) == self.value_at(id),
    {
        lemma_with_slot(self.ids, id);
    }
    /// Recording an edge adds that edge and no other: the dependents of
    /// `source` grow by `dependent`, unless it is one of them already, and
    /// the dependents of every other identifier, the cells and the histories
    /// stay as they are.
    pub proof fn lemma_link(self, source: Seq<char>, dependent: Seq<char>)
        requires
            self.wf(),
        ensures
            self.link(source, dependent).wf(),
            self.link(source, dependent).dependents_of(source) == if self.dependents_of(
                source,
            ).contains(dependent) {
                self.dependents_of(source)
            } else {
                self.dependents_of(source).push(dependent)
            },
            forall|other: Seq<char>|
                other != source ==> #[trigger] self.link(source, dependent).dependents_of(other)
                    == self.dependents_of(other),
            forall|other: Seq<char>| #[trigger]
                self.link(source, dependent).value_at(other) == self.value_at(other),
            forall|other: Seq<char>| #[trigger]
                self.link(source, dependent).history_at(other) == self.history_at(other),
    {
        let first = self.register(source);
        let both = first.register(dependent);
        let linked = self.link(source, dependent);
        lemma_with_slot(self.ids, source);
        lemma_with_slot(first.ids, dependent);
        self.lemma_writes_keep_graph(source, arbitrary(), arbitrary());
        first.lemma_writes_keep_graph(dependent, arbitrary(), arbitrary());
        let k = both.slot(source);
        assert(both.dependents_of(source) == self.dependents_of(source));
        if !both.links[k].contains(dependent) {
            let longer = both.links[k].push(dependent);
            assert forall|a: int, b: int|
                0 <= a < longer.len() && 0 <= b < longer.len() && a != b implies longer[a]
                != longer[b] by {
                if a < both.links[k].len() {
                    assert(both.links[k].contains(longer[a]));
                }
                if b < both.links[k].len() {
                    assert(both.links[k].contains(longer[b]));
                }
            }
        }
        assert forall|other: Seq<char>| other != source implies #[trigger] linked.dependents_of(
            other,
        ) == self.dependents_of(other) by {
            assert(both.dependents_of(other) == self.dependents_of(other));
            if both.knows(other) {
                lemma_slot_is_position(both.ids, both.slot(other));
                lemma_slot_is_position(both.ids, k);
            }
        }
        assert forall|other: Seq<char>| #[trigger]
            linked.value_at(other) == self.value_at(other) by {
            if self.knows(other) {
                assert(first.slot(other) == self.slot(other));
                assert(both.slot(other) == self.slot(other));
            } else if first.knows(other) {
                assert(both.slot(other) == first.slot(other));
            }
        }
        assert forall|other: Seq<char>| #[trigger]
            linked.history_at(other) == self.history_at(other) by {
            if self.knows(other) {
                assert(first.slot(other) == self.slot(other));
                assert(both.slot(other) == self.slot(other));
            } else if first.knows(other) {
                assert(both.slot(other) == first.slot(other));
            }
        }
    }
}

} // verus!
