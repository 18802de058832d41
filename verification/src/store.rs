//! The cell store: slot table, typed cell storage, dependency graph and undo
//! ledger, kept slot by slot.
use crate::model::StoreModel;
use crate::slot_table::{lemma_slot_is_position, lemma_with_slot, SlotKey, SlotTable};
use crate::undo::UndoVec;
use crate::value::{Storable, Value};
use vstd::prelude::*;

verus! {

/// The histories that a ledger holds, slot by slot.
pub open spec fn histories(ledgers: Seq<Option<UndoVec<Value>>>) -> Seq<Option<Seq<Value>>> {
    Seq::new(
        ledgers.len(),
        |k: int|
            match ledgers[k] {
                Some(history) => Some(history@),
                None => None,
            },
    )
}

/// Whether `wanted` is one of `list`.
fn holds_identifier(list: &Vec<String>, wanted: &String) -> (found: bool)
    ensures
        found == list.deep_view().contains(wanted@),
{
    let mut i: usize = 0;
    while i < list.len()
        invariant
            i <= list.len(),
            forall|j: int| 0 <= j < i ==> list.deep_view()[j] != wanted@,
        decreases list.len() - i,
    {
        if list[i] == *wanted {
            assert(list.deep_view()[i as int] == wanted@);
            return true;
        }
        i += 1;
    }
    false
}

/// The state that rebuild functions read and write: every cell of the store
/// with its dependents and its undo history.
pub struct CellStore {
    slots: SlotTable,
    cells: Vec<Option<Value>>,
    links: Vec<Vec<String>>,
    ledgers: Vec<Option<UndoVec<Value>>>,
}

impl View for CellStore {
    type V = StoreModel;

    closed spec fn view(&self) -> StoreModel {
        StoreModel {
            ids: self.slots@,
            cells: self.cells@,
            links: self.links.deep_view(),
            ledgers: histories(self.ledgers@),
        }
    }
}

impl CellStore {
    /// The invariant of the store, which every operation keeps.
    pub open spec fn wf(&self) -> bool {
        self@.wf()
    }

    /// A store in which nothing is registered.
    pub fn new() -> (store: CellStore)
        ensures
            store@ == StoreModel::empty(),
            store.wf(),
    {
        let store = CellStore {
            slots: SlotTable::new(),
            cells: Vec::new(),
            links: Vec::new(),
            ledgers: Vec::new(),
        };
        proof {
            assert(store.links.deep_view() =~= Seq::<Seq<Seq<char>>>::empty());
            assert(histories(store.ledgers@) =~= Seq::<Option<Seq<Value>>>::empty());
        }
        store
    }

    /// The key of `id`, if it is registered.
    pub fn resolve(&self, id: &str) -> (key: Option<SlotKey>)
        requires
            self.wf(),
        ensures
            key.is_some() == self@.knows(id@),
            key matches Some(k) ==> k.index == self@.slot(id@) && k.index < self@.ids.len(),
    {
        self.slots.resolve(id)
    }

    /// Registers `id`: it gets an empty slot if it has none. Registering an
    /// identifier again gives the same key and changes nothing.
    pub fn register(&mut self, id: &str) -> (key: SlotKey)
        requires
            old(self).wf(),
        ensures
            final(self).wf(),
            final(self)@ == old(self)@.register(id@),
            final(self)@.knows(id@),
            key.index == final(self)@.slot(id@),
            key.index < final(self)@.ids.len(),
    {
        proof {
            lemma_with_slot(self@.ids, id@);
        }
        let before = self.slots.len();
        let key = self.slots.register(id);
        if self.slots.len() > before {
            self.cells.push(None);
            self.links.push(Vec::new());
            self.ledgers.push(None);
            proof {
                let empty = Seq::<Seq<char>>::empty();
                assert(self.links@.last().deep_view() =~= empty);
                assert(self.links.deep_view() =~= old(self).links.deep_view().push(empty));
                assert(histories(self.ledgers@) =~= histories(old(self).ledgers@).push(None));
            }
        }
        key
    }

    /// The cell stored under `id`, if there is one.
    pub fn peek(&self, id: &str) -> (cell: Option<&Value>)
        requires
            self.wf(),
        ensures
            match cell {
                Some(found) => self@.value_at(id@) == Some(*found),
                None => self@.value_at(id@).is_none(),
            },
    {
        match self.slots.resolve(id) {
            Some(key) => self.cells[key.index].as_ref(),
            None => None,
        }
    }

    /// Whether a value of type `T` is stored under `id`.
    pub fn state_exists_with_id<T: Storable>(&self, id: &str) -> (exists: bool)
        requires
            self.wf(),
        ensures
            exists == self@.holds::<T>(id@),
    {
        match self.peek(id) {
            Some(cell) => T::is_held_by(cell),
            None => false,
        }
    }

    /// Stores `data` under `id`, in place of whatever was stored there, of
    /// whichever type. An identifier that is not registered yet gets its slot.
    pub fn set_state_with_id<T: Storable>(&mut self, data: T, id: &str)
        requires
            old(self).wf(),
        ensures
            final(self).wf(),
            final(self)@ == old(self)@.put(id@, data.erased()),
    {
        self.put(id, data.into_value())
    }

    /// Stores `cell` under `id` as it is, in place of whatever was stored
    /// there. An identifier that is not registered yet gets its slot.
    pub fn put(&mut self, id: &str, cell: Value)
        requires
            old(self).wf(),
        ensures
            final(self).wf(),
            final(self)@ == old(self)@.put(id@, cell),
    {
        let key = self.register(id);
        self.cells[key.index] = Some(cell);
    }

    /// A copy of the value of type `T` stored under `id`. The store is not
    /// changed.
    pub fn get_state_with_id<T: Storable>(&self, id: &str) -> (value: Option<T>)
        requires
            self.wf(),
        ensures
            value == self@.typed_at::<T>(id@),
    {
        match self.peek(id) {
            Some(cell) => match T::from_value(cell.duplicate()) {
                Ok(value) => Some(value),
                Err(_) => None,
            },
            None => None,
        }
    }

    /// Takes the value of type `T` stored under `id` out of the store. Where
    /// nothing is stored there, or a value of another type, nothing is taken
    /// and the store is not changed.
    pub fn remove_state_with_id<T: Storable>(&mut self, id: &str) -> (value: Option<T>)
        requires
            old(self).wf(),
        ensures
            final(self).wf(),
            value == old(self)@.typed_at::<T>(id@),
            final(self)@ == if value.is_some() {
                old(self)@.vacate(id@)
            } else {
                old(self)@
            },
    {
        if !self.state_exists_with_id::<T>(id) {
            return None;
        }
        match self.slots.resolve(id) {
            Some(key) => {
                let mut taken: Option<Value> = None;
                core::mem::swap(&mut self.cells[key.index], &mut taken);
                match taken {
                    Some(cell) => match T::from_value(cell) {
                        Ok(value) => Some(value),
                        Err(_) => None,
                    },
                    None => None,
                }
            },
            None => None,
        }
    }

    /// Records that `dependent_id` is rebuilt whenever `source_id` changes.
    /// Both identifiers get a slot if they have none. Recording an edge again
    /// changes nothing.
    pub fn add_dependency(&mut self, source_id: &str, dependent_id: &str)
        requires
            old(self).wf(),
        ensures
            final(self).wf(),
            final(self)@ == old(self)@.link(source_id@, dependent_id@),
    {
        let key = self.register(source_id);
        proof {
            lemma_with_slot(self@.ids, dependent_id@);
        }
        self.register(dependent_id);
        let wanted = dependent_id.to_owned();
        if !holds_identifier(&self.links[key.index], &wanted) {
            let ghost registered = self@;
            let ghost k = key.index as int;
            self.links[key.index].push(wanted);
            proof {
                let longer = registered.links[k].push(dependent_id@);
                assert(self.links@[k].deep_view() =~= longer);
                assert(self.links.deep_view() =~= registered.links.update(k, longer));
                old(self)@.lemma_link(source_id@, dependent_id@);
            }
        }
    }

    /// The identifiers to rebuild when `id` changes, in the order in which
    /// they were first recorded.
    pub fn dependents_of(&self, id: &str) -> (dependents: Vec<String>)
        requires
            self.wf(),
        ensures
            dependents.deep_view() == self@.dependents_of(id@),
    {
        match self.slots.resolve(id) {
            Some(key) => {
                let found = self.links[key.index].clone();
                assert(found.deep_view() =~= self.links[key.index as int].deep_view());
                found
            },
            None => {
                let none: Vec<String> = Vec::new();
                assert(none.deep_view() =~= Seq::<Seq<char>>::empty());
                none
            },
        }
    }

    /// Whether `id` keeps an undo history.
    pub fn history_exists(&self, id: &str) -> (exists: bool)
        requires
            self.wf(),
        ensures
            exists == self@.history_at(id@).is_some(),
    {
        match self.slots.resolve(id) {
            Some(key) => self.ledgers[key.index].is_some(),
            None => false,
        }
    }

    /// The undo history of `id`, if it keeps one.
    pub fn history(&self, id: &str) -> (history: Option<&UndoVec<Value>>)
        requires
            self.wf(),
        ensures
            match history {
                Some(found) => self@.history_at(id@) == Some(found@),
                None => self@.history_at(id@).is_none(),
            },
    {
        match self.slots.resolve(id) {
            Some(key) => self.ledgers[key.index].as_ref(),
            None => None,
        }
    }

    /// Takes the undo history of `id` out of the store, if it keeps one.
    pub fn remove_history(&mut self, id: &str) -> (history: Option<UndoVec<Value>>)
        requires
            old(self).wf(),
        ensures
            final(self).wf(),
            match history {
                Some(taken) => old(self)@.history_at(id@) == Some(taken@) && final(self)@
                    == old(self)@.without_history(id@),
                None => old(self)@.history_at(id@).is_none() && final(self)@ == old(self)@,
            },
    {
        match self.slots.resolve(id) {
            Some(key) => {
                let mut taken: Option<UndoVec<Value>> = None;
                core::mem::swap(&mut self.ledgers[key.index], &mut taken);
                proof {
                    let k = key.index as int;
                    assert(histories(old(self).ledgers@)[k] == match taken {
                        Some(history) => Some(history@),
                        None => None,
                    });
                    assert(histories(self.ledgers@) =~= histories(old(self).ledgers@).update(
                        k,
                        None,
                    ));
                    if taken.is_none() {
                        assert(histories(self.ledgers@) =~= histories(old(self).ledgers@));
                    }
                }
                taken
            },
            None => None,
        }
    }

    /// Makes `history` the undo history of `id`, in place of the one it had.
    /// An identifier that is not registered yet gets its slot.
    pub fn set_history(&mut self, id: &str, history: UndoVec<Value>)
        requires
            old(self).wf(),
            history@.len() >= 1,
        ensures
            final(self).wf(),
            final(self)@ == old(self)@.with_history(id@, history@),
    {
        let key = self.register(id);
        let ghost registered = self@;
        self.ledgers[key.index] = Some(history);
        proof {
            assert(histories(self.ledgers@) =~= registered.ledgers.update(
                key.index as int,
                Some(history@),
            ));
        }
    }

    /// Puts `previous`, the value that a write is about to replace, at the
    /// end of the undo history of `id`. Where `id` keeps no history nothing
    /// is recorded and the store is not changed.
    pub fn record_before_write(&mut self, id: &str, previous: Value) -> (recorded: bool)
        requires
            old(self).wf(),
        ensures
            final(self).wf(),
            recorded == old(self)@.history_at(id@).is_some(),
            final(self)@ == if recorded {
                old(self)@.with_history(id@, old(self)@.history_at(id@).unwrap().push(previous))
            } else {
                old(self)@
            },
    {
        match self.remove_history(id) {
            Some(history) => {
                let mut history = history;
                history.0.push(previous);
                self.set_history(id, history);
                proof {
                    let k = old(self)@.slot(id@);
                    assert(self@.ledgers =~= old(self)@.ledgers.update(k, Some(history@)));
                }
                true
            },
            None => false,
        }
    }
}

} // verus!
