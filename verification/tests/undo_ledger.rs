use atom_store::{
    atom, atom_with_undo, clone_atom_state_with_id, set_atom_state_with_id,
    set_atom_state_with_id_with_undo, undo_atom_state, update_atom_state_with_id_with_undo,
    AtomStore, CellStore, NoUndo, StoreError, UndoVec, Value,
};

type RebuildOfLedger = fn(CellStore, &str) -> CellStore;

fn history_of(store: &CellStore, id: &str) -> Option<Vec<Value>> {
    store.history(id).map(|h| h.0.clone())
}

#[test]
fn undo_law_on_three_values() {
    let mut store: AtomStore<RebuildOfLedger> = AtomStore::new();
    atom_with_undo::<i64, _>(&mut store.cells, "v", || 10);
    let first = update_atom_state_with_id_with_undo::<i64, _, _>(&mut store, "v", |v| *v = 11);
    assert_eq!(first, Ok(vec![]));
    let second = update_atom_state_with_id_with_undo::<i64, _, _>(&mut store, "v", |v| *v = 12);
    assert_eq!(second, Ok(vec![]));
    assert_eq!(clone_atom_state_with_id::<i64>(&store.cells, "v"), Some(12));
    assert_eq!(
        history_of(&store.cells, "v"),
        Some(vec![Value::Int(10), Value::Int(10), Value::Int(11)])
    );

    assert_eq!(undo_atom_state::<i64, _>(&mut store, "v"), Ok(vec![]));
    assert_eq!(clone_atom_state_with_id::<i64>(&store.cells, "v"), Some(11));
    assert_eq!(history_of(&store.cells, "v"), Some(vec![Value::Int(10), Value::Int(10)]));

    assert_eq!(undo_atom_state::<i64, _>(&mut store, "v"), Ok(vec![]));
    assert_eq!(clone_atom_state_with_id::<i64>(&store.cells, "v"), Some(10));
    assert_eq!(history_of(&store.cells, "v"), Some(vec![Value::Int(10)]));

    assert_eq!(undo_atom_state::<i64, _>(&mut store, "v"), Ok(vec![]));
    assert_eq!(clone_atom_state_with_id::<i64>(&store.cells, "v"), Some(10));
    assert_eq!(history_of(&store.cells, "v"), Some(vec![Value::Int(10)]));
}

#[test]
fn undo_law_with_set() {
    let mut store: AtomStore<RebuildOfLedger> = AtomStore::new();
    atom_with_undo::<String, _>(&mut store.cells, "s", || String::from("v0"));
    assert_eq!(
        set_atom_state_with_id_with_undo::<String>(&mut store.cells, String::from("v1"), "s"),
        Ok(())
    );
    assert_eq!(
        set_atom_state_with_id_with_undo::<String>(&mut store.cells, String::from("v2"), "s"),
        Ok(())
    );
    assert_eq!(clone_atom_state_with_id::<String>(&store.cells, "s"), Some(String::from("v2")));
    undo_atom_state::<String, _>(&mut store, "s").unwrap();
    assert_eq!(clone_atom_state_with_id::<String>(&store.cells, "s"), Some(String::from("v1")));
    undo_atom_state::<String, _>(&mut store, "s").unwrap();
    assert_eq!(clone_atom_state_with_id::<String>(&store.cells, "s"), Some(String::from("v0")));
    undo_atom_state::<String, _>(&mut store, "s").unwrap();
    assert_eq!(clone_atom_state_with_id::<String>(&store.cells, "s"), Some(String::from("v0")));
}

#[test]
fn undo_takes_back_exactly_one_write() {
    let mut store: AtomStore<RebuildOfLedger> = AtomStore::new();
    atom_with_undo::<u64, _>(&mut store.cells, "n", || 1);
    set_atom_state_with_id_with_undo::<u64>(&mut store.cells, 2, "n").unwrap();
    let value_before = clone_atom_state_with_id::<u64>(&store.cells, "n");
    let history_before = history_of(&store.cells, "n");
    set_atom_state_with_id_with_undo::<u64>(&mut store.cells, 3, "n").unwrap();
    undo_atom_state::<u64, _>(&mut store, "n").unwrap();
    assert_eq!(clone_atom_state_with_id::<u64>(&store.cells, "n"), value_before);
    assert_eq!(history_of(&store.cells, "n"), history_before);
}

#[test]
fn set_with_undo_records_the_replaced_value() {
    let mut store = CellStore::new();
    atom_with_undo::<i64, _>(&mut store, "v", || 1);
    assert_eq!(set_atom_state_with_id_with_undo::<i64>(&mut store, 2, "v"), Ok(()));
    assert_eq!(clone_atom_state_with_id::<i64>(&store, "v"), Some(2));
    assert_eq!(history_of(&store, "v"), Some(vec![Value::Int(1), Value::Int(1)]));
}

#[test]
fn set_with_undo_needs_a_value() {
    let mut store = CellStore::new();
    assert_eq!(
        set_atom_state_with_id_with_undo::<i64>(&mut store, 2, "v"),
        Err(StoreError::MissingState)
    );
    assert_eq!(clone_atom_state_with_id::<i64>(&store, "v"), None);
    assert_eq!(store.resolve("v"), None);
}

#[test]
fn set_with_undo_needs_a_value_of_the_type() {
    let mut store = CellStore::new();
    atom_with_undo::<i64, _>(&mut store, "v", || 1);
    assert_eq!(
        set_atom_state_with_id_with_undo::<String>(&mut store, String::from("x"), "v"),
        Err(StoreError::MissingState)
    );
    assert_eq!(clone_atom_state_with_id::<i64>(&store, "v"), Some(1));
    assert_eq!(history_of(&store, "v"), Some(vec![Value::Int(1)]));
}

#[test]
fn set_with_undo_needs_a_history() {
    let mut store = CellStore::new();
    atom::<i64, _, NoUndo>(&mut store, "plain", || 1);
    assert_eq!(
        set_atom_state_with_id_with_undo::<i64>(&mut store, 2, "plain"),
        Err(StoreError::MissingState)
    );
    assert_eq!(clone_atom_state_with_id::<i64>(&store, "plain"), Some(1));
    assert!(!store.history_exists("plain"));
}

#[test]
fn update_with_undo_needs_a_history() {
    let mut store: AtomStore<RebuildOfLedger> = AtomStore::new();
    atom::<i64, _, NoUndo>(&mut store.cells, "plain", || 1);
    assert_eq!(
        update_atom_state_with_id_with_undo::<i64, _, _>(&mut store, "plain", |v| *v += 1),
        Err(StoreError::MissingState)
    );
    assert_eq!(clone_atom_state_with_id::<i64>(&store.cells, "plain"), Some(1));
}

#[test]
fn update_with_undo_needs_a_value_of_the_type() {
    let mut store: AtomStore<RebuildOfLedger> = AtomStore::new();
    atom_with_undo::<i64, _>(&mut store.cells, "v", || 1);
    assert_eq!(
        update_atom_state_with_id_with_undo::<u64, _, _>(&mut store, "v", |v| *v += 1),
        Err(StoreError::MissingState)
    );
    assert_eq!(
        update_atom_state_with_id_with_undo::<i64, _, _>(&mut store, "absent", |v| *v += 1),
        Err(StoreError::MissingState)
    );
    assert_eq!(clone_atom_state_with_id::<i64>(&store.cells, "v"), Some(1));
    assert_eq!(history_of(&store.cells, "v"), Some(vec![Value::Int(1)]));
}

#[test]
fn undo_needs_a_history() {
    let mut store: AtomStore<RebuildOfLedger> = AtomStore::new();
    atom::<i64, _, NoUndo>(&mut store.cells, "plain", || 1);
    assert_eq!(undo_atom_state::<i64, _>(&mut store, "plain"), Err(StoreError::MissingState));
    assert_eq!(undo_atom_state::<i64, _>(&mut store, "absent"), Err(StoreError::MissingState));
    assert_eq!(clone_atom_state_with_id::<i64>(&store.cells, "plain"), Some(1));
}

#[test]
fn undo_needs_a_value_of_the_type_to_replace() {
    let mut store: AtomStore<RebuildOfLedger> = AtomStore::new();
    atom_with_undo::<i64, _>(&mut store.cells, "v", || 1);
    set_atom_state_with_id_with_undo::<i64>(&mut store.cells, 2, "v").unwrap();
    assert_eq!(undo_atom_state::<String, _>(&mut store, "v"), Err(StoreError::MissingState));
    assert_eq!(clone_atom_state_with_id::<i64>(&store.cells, "v"), Some(2));
    assert_eq!(history_of(&store.cells, "v"), Some(vec![Value::Int(1), Value::Int(1)]));
}

#[test]
fn undo_at_the_baseline_asks_nothing_of_the_cell() {
    let mut store: AtomStore<RebuildOfLedger> = AtomStore::new();
    atom_with_undo::<i64, _>(&mut store.cells, "v", || 1);
    // with only the baseline there is no write to take back, whatever the type asked for
    assert_eq!(undo_atom_state::<String, _>(&mut store, "v"), Ok(vec![]));
    assert_eq!(clone_atom_state_with_id::<i64>(&store.cells, "v"), Some(1));
}

#[test]
fn plain_set_leaves_the_history_alone() {
    let mut store = CellStore::new();
    atom_with_undo::<i64, _>(&mut store, "v", || 1);
    set_atom_state_with_id::<i64>(&mut store, 5, "v");
    assert_eq!(history_of(&store, "v"), Some(vec![Value::Int(1)]));
}

#[test]
fn ledger_operations_of_the_store() {
    let mut store = CellStore::new();
    assert!(!store.record_before_write("v", Value::Int(0)));
    assert_eq!(store.resolve("v"), None);
    store.set_history("v", UndoVec(vec![Value::Int(1)]));
    assert!(store.history_exists("v"));
    assert!(store.record_before_write("v", Value::Int(2)));
    assert_eq!(history_of(&store, "v"), Some(vec![Value::Int(1), Value::Int(2)]));
    let taken = store.remove_history("v").map(|h| h.0);
    assert_eq!(taken, Some(vec![Value::Int(1), Value::Int(2)]));
    assert!(!store.history_exists("v"));
    assert!(store.remove_history("v").is_none());
    assert!(store.remove_history("unknown").is_none());
}
