use atom_store::{
    clone_atom_state_with_id, link_state, link_state_within, set_atom_state_with_id,
    AtomStateAccess, CellStore, Getter, IsAnAtomState, NoUndo, SlotKey, StoreError,
};

fn access_to(id: &str) -> AtomStateAccess<i64, NoUndo, IsAnAtomState> {
    AtomStateAccess::new(id)
}

#[test]
fn add_dependency_records_dependents_in_order() {
    let mut store = CellStore::new();
    store.add_dependency("a", "x");
    store.add_dependency("a", "y");
    store.add_dependency("b", "x");
    assert_eq!(store.dependents_of("a"), vec![String::from("x"), String::from("y")]);
    assert_eq!(store.dependents_of("b"), vec![String::from("x")]);
    assert!(store.dependents_of("x").is_empty());
    assert!(store.dependents_of("unknown").is_empty());
}

#[test]
fn add_dependency_keeps_an_edge_once() {
    let mut store = CellStore::new();
    store.add_dependency("a", "x");
    store.add_dependency("a", "y");
    store.add_dependency("a", "x");
    store.add_dependency("a", "x");
    assert_eq!(store.dependents_of("a"), vec![String::from("x"), String::from("y")]);
}

#[test]
fn add_dependency_registers_both_ends() {
    let mut store = CellStore::new();
    store.add_dependency("source", "dependent");
    assert_eq!(store.resolve("source"), Some(SlotKey { index: 0 }));
    assert_eq!(store.resolve("dependent"), Some(SlotKey { index: 1 }));
    assert!(store.peek("source").is_none());
}

#[test]
fn add_dependency_leaves_cells_alone() {
    let mut store = CellStore::new();
    set_atom_state_with_id::<i64>(&mut store, 1, "a");
    store.add_dependency("a", "x");
    assert_eq!(clone_atom_state_with_id::<i64>(&store, "a"), Some(1));
}

#[test]
fn linked_read_within_a_context_records_the_edge() {
    let mut store = CellStore::new();
    set_atom_state_with_id::<i64>(&mut store, 21, "count");
    let read = link_state_within(&mut store, access_to("count"), Some(Getter::new("double")));
    assert_eq!(read, Ok(21));
    assert_eq!(store.dependents_of("count"), vec![String::from("double")]);
    // the value stays where it was
    assert_eq!(clone_atom_state_with_id::<i64>(&store, "count"), Some(21));
}

#[test]
fn linked_read_without_a_context_is_refused() {
    let mut store = CellStore::new();
    set_atom_state_with_id::<i64>(&mut store, 21, "count");
    let read = link_state_within(&mut store, access_to("count"), None);
    assert_eq!(read, Err(StoreError::NoRebuildContext));
    assert!(store.dependents_of("count").is_empty());
}

#[test]
fn linked_read_of_a_missing_state_is_refused() {
    let mut store = CellStore::new();
    let read = link_state_within(&mut store, access_to("count"), Some(Getter::new("double")));
    assert_eq!(read, Err(StoreError::MissingState));
    assert!(store.dependents_of("count").is_empty());
    assert_eq!(store.resolve("count"), None);

    set_atom_state_with_id::<String>(&mut store, String::from("text"), "count");
    let read = link_state_within(&mut store, access_to("count"), Some(Getter::new("double")));
    assert_eq!(read, Err(StoreError::MissingState));
    assert!(store.dependents_of("count").is_empty());
}

#[test]
fn link_state_outside_a_rebuild_is_refused() {
    let mut store = CellStore::new();
    set_atom_state_with_id::<i64>(&mut store, 21, "count");
    assert_eq!(link_state(&mut store, access_to("count")), Err(StoreError::NoRebuildContext));
    assert!(store.dependents_of("count").is_empty());
}

#[test]
fn link_state_takes_the_dependent_from_the_environment() {
    let mut store = CellStore::new();
    set_atom_state_with_id::<i64>(&mut store, 21, "count");
    let read = illicit::Layer::new()
        .offer(Getter::new("double"))
        .enter(|| link_state(&mut store, access_to("count")));
    assert_eq!(read, Ok(21));
    assert_eq!(store.dependents_of("count"), vec![String::from("double")]);
    // the context ends with its layer
    assert_eq!(link_state(&mut store, access_to("count")), Err(StoreError::NoRebuildContext));
}

#[test]
fn link_state_sees_the_innermost_context() {
    let mut store = CellStore::new();
    set_atom_state_with_id::<i64>(&mut store, 1, "a");
    illicit::Layer::new().offer(Getter::new("outer")).enter(|| {
        illicit::Layer::new().offer(Getter::new("inner")).enter(|| {
            assert_eq!(link_state(&mut store, access_to("a")), Ok(1));
        });
        assert_eq!(store.dependents_of("a"), vec![String::from("inner")]);
        assert_eq!(link_state(&mut store, access_to("a")), Ok(1));
    });
    assert_eq!(store.dependents_of("a"), vec![String::from("inner"), String::from("outer")]);
}

#[test]
fn link_state_of_a_missing_state_is_refused() {
    let mut store = CellStore::new();
    let read = illicit::Layer::new()
        .offer(Getter::new("double"))
        .enter(|| link_state(&mut store, access_to("count")));
    assert_eq!(read, Err(StoreError::MissingState));
    assert!(store.dependents_of("count").is_empty());
}

#[test]
fn getter_names_the_computed() {
    assert_eq!(Getter::new("double").computed_key, "double");
}
