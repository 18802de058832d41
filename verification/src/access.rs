//! Handles to cells, the context of a rebuild, and the store's errors.
use core::marker::PhantomData;
use vstd::prelude::*;

verus! {

/// Tag of a handle to a cell that keeps no undo history.
#[derive(Debug, Clone, Copy)]
pub struct NoUndo;

/// Tag of a handle to a cell that keeps an undo history.
#[derive(Debug, Clone, Copy)]
pub struct AllowUndo;

/// Tag of a handle to an atom: a cell that its owner reads and writes.
#[derive(Debug, Clone, Copy)]
pub struct IsAnAtomState;

/// Tag of a handle to a computed: a cell that only its rebuild function
/// writes.
#[derive(Debug, Clone, Copy)]
pub struct IsAComputedState;

/// A handle to the cell of type `T` stored under `id`. `U` says whether the
/// cell keeps an undo history and `A` whether it is an atom or a computed.
pub struct AtomStateAccess<T, U, A> {
    pub id: String,
    pub stored_type: PhantomData<T>,
    pub undo: PhantomData<U>,
    pub kind: PhantomData<A>,
}

impl<T, U, A> AtomStateAccess<T, U, A> {
    /// The handle to the cell stored under `id`.
    pub fn new(id: &str) -> (access: Self)
        ensures
            access.id@ == id@,
    {
        AtomStateAccess {
            id: id.to_owned(),
            stored_type: PhantomData,
            undo: PhantomData,
            kind: PhantomData,
        }
    }
}

/// The context of a rebuild: the identifier of the computed that is being
/// rebuilt. A read made in this context records an edge to that computed.
#[derive(Debug)]
pub struct Getter {
    pub computed_key: String,
}

impl Getter {
    /// The context of a rebuild of `computed_key`.
    pub fn new(computed_key: &str) -> (getter: Getter)
        ensures
            getter.computed_key@ == computed_key@,
    {
        Getter { computed_key: computed_key.to_owned() }
    }
}

/// Why an operation on the store was refused. A refused operation leaves the
/// store as it was.
#[derive(Debug, Clone, Copy, PartialEq, Eq, Structural)]
pub enum StoreError {
    /// Nothing is stored under the identifier, or what is stored there is of
    /// another type than the one asked for; for an operation with undo, also
    /// that the identifier keeps no undo history.
    MissingState,
    /// A linked read was made while no computed was being rebuilt.
    NoRebuildContext,
}

} // verus!
