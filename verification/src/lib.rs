//! A single-process reactive value store.
//!
//! Named cells hold state. An *atom* is written by its owner; a *computed* is
//! rebuilt by its rebuild function whenever one of the cells it has read is
//! written. The crate holds the store's engine:
//!
//! - `slot_table`: one stable key for each identifier;
//! - `value`: cells, which keep the type of what they hold, and the types
//!   that can be stored;
//! - `store`: the cell store, with the typed cell storage, the dependency
//!   graph and the undo ledger, slot by slot;
//! - `registry`: the rebuild functions of the computeds, and the store that
//!   holds them beside the cells;
//! - `propagation`: rebuilding, depth first, what depends on a written cell;
//! - `atom_state_functions`: the operations that callers use;
//! - `model` and `laws`: the store as a mathematical value, which the
//!   contracts speak of, and what is proved of it.
//!
//! A store is a value that its owner passes to every operation. A rebuild
//! function gets the cells and the identifier of its computed, reads what
//! the computed is made from with `link_state`, which records the edges,
//! stores the new value with `set_atom_state_with_id`, and hands the cells
//! back. A refused operation returns a `StoreError` and leaves the store as
//! it was.
//!
//! Propagation follows the dependency graph without looking for cycles. Its
//! contract asks for a *ranking* of the store: a number for each identifier
//! that is smaller for a dependent than for the cell it depends on, and that
//! every rebuild function respects.
pub mod access;
pub mod atom_state_functions;
mod context;
pub mod laws;
pub mod model;
pub mod propagation;
pub mod registry;
pub mod slot_table;
pub mod store;
pub mod undo;
pub mod value;

pub use access::{
    AllowUndo, AtomStateAccess, Getter, IsAComputedState, IsAnAtomState, NoUndo, StoreError,
};
pub use atom_state_functions::{
    atom, atom_state_exists_for_id, atom_with_undo, clone_atom_state_with_id, computed, link_state,
    link_state_within, read_atom_state_with_id, remove_atom_state_with_id,
    set_atom_state_with_id, set_atom_state_with_id_with_undo, undo_atom_state,
    update_atom_state_with_id, update_atom_state_with_id_with_undo,
};
pub use model::StoreModel;
pub use propagation::execute_computed_nodes;
pub use registry::{AtomStore, Computed, ComputedRegistry};
pub use slot_table::{SlotKey, SlotTable};
pub use store::CellStore;
pub use undo::UndoVec;
pub use value::{Storable, Value};
