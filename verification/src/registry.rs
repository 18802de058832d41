//! The registry of rebuild functions, and the store that holds it.
use crate::store::CellStore;
use vstd::prelude::*;

verus! {

/// A computed's rebuild function. Called with the store and the computed's
/// own identifier, it reads the cells the computed is made from, stores the
/// computed's new value under that identifier, and hands the store back.
pub struct Computed<F> {
    pub func: F,
}

/// The rebuild function of each computed, by the computed's identifier.
pub struct ComputedRegistry<F> {
    entries: Vec<(String, Computed<F>)>,
}

impl<F> View for ComputedRegistry<F> {
    type V = Map<Seq<char>, F>;

    closed spec fn view(&self) -> Map<Seq<char>, F> {
        Map::new(
            |id: Seq<char>| self.position_of(id).is_some(),
            |id: Seq<char>| self.entries[self.position_of(id).unwrap()].1.func,
        )
    }
}

impl<F> ComputedRegistry<F> {
    /// Where the entry of `id` stands, if it has one.
    closed spec fn position_of(&self, id: Seq<char>) -> Option<int> {
        if exists|i: int| 0 <= i < self.entries.len() && (#[trigger] self.entries[i]).0@ == id {
            Some(
                choose|i: int|
                    0 <= i < self.entries.len() && (#[trigger] self.entries[i]).0@ == id,
            )
        } else {
            None
        }
    }

    /// No identifier has two rebuild functions.
    pub closed spec fn wf(&self) -> bool {
        forall|i: int, j: int|
            0 <= i < j < self.entries.len() ==> (#[trigger] self.entries[i]).0@ != (
            #[trigger] self.entries[j]).0@
    }

    /// The number of entries.
    pub closed spec fn spec_len(&self) -> nat {
        self.entries.len() as nat
    }

    /// The identifier and the rebuild function of the entry at `index`.
    pub closed spec fn spec_entry(&self, index: int) -> (Seq<char>, F) {
        (self.entries[index].0@, self.entries[index].1.func)
    }

    /// Every entry is in the view under its identifier.
    pub proof fn lemma_entry(&self, index: int)
        requires
            self.wf(),
            0 <= index < self.spec_len(),
        ensures
            self@.dom().contains(self.spec_entry(index).0),
            self@[self.spec_entry(index).0] == self.spec_entry(index).1,
    {
        let id = self.entries[index].0@;
        assert(self.position_of(id) == Some(index));
    }

    /// A registry without entries.
    pub fn new() -> (registry: ComputedRegistry<F>)
        ensures
            registry.wf(),
            registry@ == Map::<Seq<char>, F>::empty(),
    {
        let registry = ComputedRegistry { entries: Vec::new() };
        assert(registry@ =~= Map::<Seq<char>, F>::empty());
        registry
    }

    /// Where the entry of `id` stands, if it has one.
    pub fn position(&self, id: &str) -> (found: Option<usize>)
        requires
            self.wf(),
        ensures
            found.is_some() == self@.dom().contains(id@),
            found matches Some(index) ==> index < self.spec_len() && self.spec_entry(
                index as int,
            ) == (id@, self@[id@]),
    {
        let wanted = id.to_owned();
        let mut i: usize = 0;
        while i < self.entries.len()
            invariant
                i <= self.entries.len(),
                wanted@ == id@,
                self.wf(),
                forall|k: int| 0 <= k < i ==> (#[trigger] self.entries[k]).0@ != id@,
            decreases self.entries.len() - i,
        {
            if self.entries[i].0 == wanted {
                proof {
                    self.lemma_entry(i as int);
                }
                return Some(i);
            }
            i += 1;
        }
        None
    }

    /// The rebuild function of the entry at `index`.
    pub fn func_at(&self, index: usize) -> (func: &F)
        requires
            index < self.spec_len(),
        ensures
            *func == self.spec_entry(index as int).1,
    {
        &self.entries[index].1.func
    }

    /// Makes `computed` the rebuild function of `id`, in place of the one it
    /// had, if it had one.
    pub fn register(&mut self, id: &str, computed: Computed<F>)
        requires
            old(self).wf(),
        ensures
            final(self).wf(),
            final(self)@ == old(self)@.insert(id@, computed.func),
    {
        match self.position(id) {
            Some(index) => {
                self.entries[index].1 = computed;
                proof {
                    assert forall|other: Seq<char>|
                        self.position_of(other) == old(self).position_of(other) by {
                        if old(self).position_of(other).is_some() {
                            let k = old(self).position_of(other).unwrap();
                            assert(self.entries[k].0@ == other);
                        }
                        if self.position_of(other).is_some() {
                            let k = self.position_of(other).unwrap();
                            assert(old(self).entries[k].0@ == other);
                        }
                    }
                    assert(self.position_of(id@) == Some(index as int));
                    assert(self@ =~= old(self)@.insert(id@, computed.func));
                }
            },
            None => {
                self.entries.push((id.to_owned(), computed));
                proof {
                    let last = old(self).entries.len() as int;
                    assert(self.entries[last].0@ == id@);
                    assert(self.position_of(id@) == Some(last));
                    assert forall|other: Seq<char>| other != id@ implies self.position_of(other)
                        == old(self).position_of(other) by {
                        if old(self).position_of(other).is_some() {
                            let k = old(self).position_of(other).unwrap();
                            assert(self.entries[k].0@ == other);
                        }
                        if self.position_of(other).is_some() {
                            let k = self.position_of(other).unwrap();
                            assert(old(self).entries[k].0@ == other);
                        }
                    }
                    assert(self@ =~= old(self)@.insert(id@, computed.func));
                }
            },
        }
    }
}

/// A reactive store: the cells, and the rebuild functions of its computeds.
///
/// All rebuild functions of one store are of one type `F`; a function
/// pointer type holds any number of different functions.
pub struct AtomStore<F> {
    pub cells: CellStore,
    pub computeds: ComputedRegistry<F>,
}

impl<F> AtomStore<F> {
    /// The invariant of the store.
    pub open spec fn wf(&self) -> bool {
        self.cells.wf() && self.computeds.wf()
    }

    /// A store without cells and without computeds.
    pub fn new() -> (store: AtomStore<F>)
        ensures
            store.wf(),
            store.cells@ == crate::model::StoreModel::empty(),
            store.computeds@ == Map::<Seq<char>, F>::empty(),
    {
        AtomStore { cells: CellStore::new(), computeds: ComputedRegistry::new() }
    }

    /// Makes `computed` the rebuild function of `id`.
    pub fn new_computed(&mut self, id: &str, computed: Computed<F>)
        requires
            old(self).wf(),
        ensures
            final(self).wf(),
            final(self).cells == old(self).cells,
            final(self).computeds@ == old(self).computeds@.insert(id@, computed.func),
    {
        self.computeds.register(id, computed)
    }
}

} // verus!
