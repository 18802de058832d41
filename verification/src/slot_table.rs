//! The slot table: one stable key for each identifier.
use vstd::prelude::*;

verus! {

/// The key of an identifier: the position of its slot. It is handed out when
/// the identifier is first registered and stays the same from then on.
#[derive(Clone, Copy, Debug, PartialEq, Eq, Structural)]
pub struct SlotKey {
    pub index: usize,
}

/// The identifiers after `id` has been registered: unchanged where `id` has a
/// slot already, else with a new slot for `id` at the end.
pub open spec fn with_slot(ids: Seq<Seq<char>>, id: Seq<char>) -> Seq<Seq<char>> {
    if ids.contains(id) {
        ids
    } else {
        ids.push(id)
    }
}

/// In a table without repetitions, the slot of an identifier is the one
/// position at which it stands.
pub proof fn lemma_slot_is_position(ids: Seq<Seq<char>>, k: int)
    requires
        ids.no_duplicates(),
        0 <= k < ids.len(),
    ensures
        ids.contains(ids[k]),
        ids.index_of(ids[k]) == k,
{
    assert(ids.contains(ids[k]));
    let j = ids.index_of(ids[k]);
    assert(0 <= j < ids.len() && ids[j] == ids[k]);
}

/// Registering keeps every slot that was there, and gives `id` one.
pub proof fn lemma_with_slot(ids: Seq<Seq<char>>, id: Seq<char>)
    requires
        ids.no_duplicates(),
    ensures
        with_slot(ids, id).no_duplicates(),
        with_slot(ids, id).contains(id),
        ids.len() <= with_slot(ids, id).len() <= ids.len() + 1,
        forall|k: int| 0 <= k < ids.len() ==> with_slot(ids, id)[k] == ids[k],
        forall|other: Seq<char>| #[trigger]
            ids.contains(other) ==> with_slot(ids, id).contains(other) && with_slot(
                ids,
                id,
            ).index_of(other) == ids.index_of(other),
        forall|other: Seq<char>| #[trigger]
            with_slot(ids, id).contains(other) ==> other == id || ids.contains(other),
        !ids.contains(id) ==> with_slot(ids, id).index_of(id) == ids.len(),
{
    let next = with_slot(ids, id);
    if !ids.contains(id) {
        assert forall|i: int, j: int|
            0 <= i < next.len() && 0 <= j < next.len() && i != j implies next[i] != next[j] by {
            if i < ids.len() {
                assert(ids.contains(ids[i]));
            }
            if j < ids.len() {
                assert(ids.contains(ids[j]));
            }
        }
        assert(next[ids.len() as int] == id);
        lemma_slot_is_position(next, ids.len() as int);
    }
    assert forall|other: Seq<char>| #[trigger] ids.contains(other) implies next.contains(other)
        && next.index_of(other) == ids.index_of(other) by {
        let k = ids.index_of(other);
        assert(next[k] == other);
        lemma_slot_is_position(next, k);
    }
    assert forall|other: Seq<char>| #[trigger] next.contains(other) implies other == id
        || ids.contains(other) by {
        let k = next.index_of(other);
        if k < ids.len() {
            assert(ids[k] == other);
        }
    }
}

/// The identifiers of a store, each in its slot.
pub struct SlotTable {
    ids: Vec<String>,
}

impl View for SlotTable {
    type V = Seq<Seq<char>>;

    closed spec fn view(&self) -> Seq<Seq<char>> {
        self.ids.deep_view()
    }
}

impl SlotTable {
    /// No identifier has two slots.
    pub open spec fn wf(&self) -> bool {
        self@.no_duplicates()
    }

    /// A table without slots.
    pub fn new() -> (table: SlotTable)
        ensures
            table@ == Seq::<Seq<char>>::empty(),
            table.wf(),
    {
        let table = SlotTable { ids: Vec::new() };
        assert(table@ =~= Seq::<Seq<char>>::empty());
        table
    }

    /// The number of slots.
    pub fn len(&self) -> (n: usize)
        ensures
            n == self@.len(),
    {
        self.ids.len()
    }

    /// The key of `id`, if it is registered.
    pub fn resolve(&self, id: &str) -> (key: Option<SlotKey>)
        requires
            self.wf(),
        ensures
            key.is_some() == self@.contains(id@),
            key matches Some(k) ==> k.index < self@.len() && k.index == self@.index_of(id@),
    {
        let wanted = id.to_owned();
        let mut i: usize = 0;
        while i < self.ids.len()
            invariant
                i <= self.ids.len(),
                wanted@ == id@,
                self.wf(),
                forall|k: int| 0 <= k < i ==> self@[k] != id@,
            decreases self.ids.len() - i,
        {
            if self.ids[i] == wanted {
                proof {
                    assert(self@[i as int] == id@);
                    lemma_slot_is_position(self@, i as int);
                }
                return Some(SlotKey { index: i });
            }
            i += 1;
        }
        None
    }

    /// The key of `id`, which gets a new slot if it has none. Registering an
    /// identifier a second time gives the same key and changes nothing.
    pub fn register(&mut self, id: &str) -> (key: SlotKey)
        requires
            old(self).wf(),
        ensures
            final(self).wf(),
            final(self)@ == with_slot(old(self)@, id@),
            key.index < final(self)@.len(),
            key.index == final(self)@.index_of(id@),
    {
        proof {
            lemma_with_slot(self@, id@);
        }
        match self.resolve(id) {
            Some(key) => key,
            None => {
                let index = self.ids.len();
                self.ids.push(id.to_owned());
                assert(self@ =~= old(self)@.push(id@));
                SlotKey { index }
            },
        }
    }

    /// The identifier that `key` stands for, if the key is one of this table.
    pub fn identifier(&self, key: SlotKey) -> (id: Option<&String>)
        ensures
            id.is_some() == (key.index < self@.len()),
            id matches Some(name) ==> name@ == self@[key.index as int],
    {
        if key.index < self.ids.len() {
            Some(&self.ids[key.index])
        } else {
            None
        }
    }
}

} // verus!
