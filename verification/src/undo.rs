//! The undo history of one atom.
use vstd::prelude::*;

verus! {

/// The earlier values of an atom, oldest first. The first entry is the
/// baseline: the value the atom was created with.
#[derive(Clone)]
pub struct UndoVec<T>(pub Vec<T>);

impl<T> View for UndoVec<T> {
    type V = Seq<T>;

    open spec fn view(&self) -> Seq<T> {
        self.0@
    }
}

} // verus!
