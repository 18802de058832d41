use atom_store::{
    atom, atom_state_exists_for_id, atom_with_undo, clone_atom_state_with_id,
    read_atom_state_with_id, set_atom_state_with_id, AtomStateAccess, CellStore, IsAnAtomState,
    NoUndo, Value,
};
use std::cell::Cell;

#[test]
fn atom_stores_the_initial_value() {
    let mut store = CellStore::new();
    let access = atom::<i64, _, NoUndo>(&mut store, "count", || 0);
    assert_eq!(access.id, "count");
    assert_eq!(read_atom_state_with_id::<i64, _, i64>(&mut store, "count", |v| *v), Ok(0));
}

#[test]
fn atom_creation_is_idempotent() {
    let mut store = CellStore::new();
    let calls = Cell::new(0);
    atom::<i64, _, NoUndo>(&mut store, "count", || {
        calls.set(calls.get() + 1);
        11
    });
    assert_eq!(clone_atom_state_with_id::<i64>(&store, "count"), Some(11));
    for other in [22i64, 33, 44] {
        let access = atom::<i64, _, NoUndo>(&mut store, "count", || {
            calls.set(calls.get() + 1);
            other
        });
        assert_eq!(access.id, "count");
        assert_eq!(clone_atom_state_with_id::<i64>(&store, "count"), Some(11));
    }
    assert_eq!(calls.get(), 1);
}

#[test]
fn atom_keeps_a_value_written_since_creation() {
    let mut store = CellStore::new();
    atom::<i64, _, NoUndo>(&mut store, "count", || 1);
    set_atom_state_with_id::<i64>(&mut store, 2, "count");
    atom::<i64, _, NoUndo>(&mut store, "count", || 3);
    assert_eq!(clone_atom_state_with_id::<i64>(&store, "count"), Some(2));
}

#[test]
fn atom_of_another_type_replaces_the_cell() {
    let mut store = CellStore::new();
    atom::<i64, _, NoUndo>(&mut store, "x", || 1);
    atom::<String, _, NoUndo>(&mut store, "x", || String::from("text"));
    assert!(!atom_state_exists_for_id::<i64>(&store, "x"));
    assert_eq!(clone_atom_state_with_id::<String>(&store, "x"), Some(String::from("text")));
}

#[test]
fn atom_with_undo_starts_its_history_with_the_initial_value() {
    let mut store = CellStore::new();
    let access = atom_with_undo::<i64, _>(&mut store, "count", || 4);
    assert_eq!(access.id, "count");
    assert_eq!(clone_atom_state_with_id::<i64>(&store, "count"), Some(4));
    assert!(store.history_exists("count"));
    assert_eq!(store.history("count").map(|h| h.0.clone()), Some(vec![Value::Int(4)]));
}

#[test]
fn atom_with_undo_creation_is_idempotent() {
    let mut store = CellStore::new();
    let calls = Cell::new(0);
    atom_with_undo::<String, _>(&mut store, "name", || {
        calls.set(calls.get() + 1);
        String::from("first")
    });
    atom_with_undo::<String, _>(&mut store, "name", || {
        calls.set(calls.get() + 1);
        String::from("second")
    });
    assert_eq!(calls.get(), 1);
    assert_eq!(clone_atom_state_with_id::<String>(&store, "name"), Some(String::from("first")));
    assert_eq!(
        store.history("name").map(|h| h.0.clone()),
        Some(vec![Value::Text(String::from("first"))])
    );
}

#[test]
fn plain_atom_keeps_no_history() {
    let mut store = CellStore::new();
    atom::<bool, _, NoUndo>(&mut store, "flag", || true);
    assert!(!store.history_exists("flag"));
    assert!(store.history("flag").is_none());
}

#[test]
fn access_names_its_cell() {
    let access: AtomStateAccess<u64, NoUndo, IsAnAtomState> = AtomStateAccess::new("total");
    assert_eq!(access.id, "total");
}
