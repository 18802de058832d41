//! Cells: values whose concrete type is kept as a tag beside them.
use vstd::prelude::*;

verus! {

/// What a cell holds: a value of one of the storable types, tagged with its
/// type. A cell written as one type is never read as another.
#[derive(Debug, Clone, PartialEq, Eq)]
pub enum Value {
    Bool(bool),
    Int(i64),
    UInt(u64),
    Text(String),
}

impl Value {
    /// A copy of this cell.
    pub fn duplicate(&self) -> (copy: Value)
        ensures
            copy == *self,
    {
        match self {
            Value::Bool(b) => Value::Bool(*b),
            Value::Int(i) => Value::Int(*i),
            Value::UInt(u) => Value::UInt(*u),
            Value::Text(s) => Value::Text(s.clone()),
        }
    }
}

/// A type that cells can hold.
///
/// `erased` forgets the type and `typed` recovers it; the two proof
/// obligations make them inverse to each other on the cells of this type, so
/// that a typed read gives back exactly what a typed write stored, and a cell
/// of another type is refused rather than converted.
pub trait Storable: Sized {
    /// The cell that holds `self`.
    spec fn erased(self) -> Value;

    /// The value that `cell` holds, if it holds one of this type.
    spec fn typed(cell: Value) -> Option<Self>;

    /// Reading a cell that was written as this type gives the value written.
    proof fn lemma_typed_of_erased(self)
        ensures
            Self::typed(self.erased()) == Some(self),
    ;

    /// A cell that reads as this type is the cell of what was read.
    proof fn lemma_erased_of_typed(cell: Value)
        ensures
            Self::typed(cell) matches Some(value) ==> value.erased() == cell,
    ;

    /// Wraps the value into a cell.
    fn into_value(self) -> (cell: Value)
        ensures
            cell == self.erased(),
    ;

    /// Unwraps a cell of this type; a cell of another type is handed back.
    fn from_value(cell: Value) -> (unwrapped: Result<Self, Value>)
        ensures
            match Self::typed(cell) {
                Some(value) => unwrapped == Ok::<Self, Value>(value),
                None => unwrapped == Err::<Self, Value>(cell),
            },
    ;

    /// Whether `cell` holds a value of this type.
    fn is_held_by(cell: &Value) -> (held: bool)
        ensures
            held == Self::typed(*cell).is_some(),
    ;
}

impl Storable for bool {
    open spec fn erased(self) -> Value {
        Value::Bool(self)
    }

    open spec fn typed(cell: Value) -> Option<Self> {
        match cell {
            Value::Bool(b) => Some(b),
            _ => None,
        }
    }

    proof fn lemma_typed_of_erased(self) {
    }

    proof fn lemma_erased_of_typed(cell: Value) {
    }

    fn into_value(self) -> (cell: Value) {
        Value::Bool(self)
    }

    fn from_value(cell: Value) -> (unwrapped: Result<Self, Value>) {
        match cell {
            Value::Bool(b) => Ok(b),
            other => Err(other),
        }
    }

    fn is_held_by(cell: &Value) -> (held: bool) {
        match cell {
            Value::Bool(_) => true,
            _ => false,
        }
    }
}

impl Storable for i64 {
    open spec fn erased(self) -> Value {
        Value::Int(self)
    }

    open spec fn typed(cell: Value) -> Option<Self> {
        match cell {
            Value::Int(i) => Some(i),
            _ => None,
        }
    }

    proof fn lemma_typed_of_erased(self) {
    }

    proof fn lemma_erased_of_typed(cell: Value) {
    }

    fn into_value(self) -> (cell: Value) {
        Value::Int(self)
    }

    fn from_value(cell: Value) -> (unwrapped: Result<Self, Value>) {
        match cell {
            Value::Int(i) => Ok(i),
            other => Err(other),
        }
    }

    fn is_held_by(cell: &Value) -> (held: bool) {
        match cell {
            Value::Int(_) => true,
            _ => false,
        }
    }
}

impl Storable for u64 {
    open spec fn erased(self) -> Value {
        Value::UInt(self)
    }

    open spec fn typed(cell: Value) -> Option<Self> {
        match cell {
            Value::UInt(u) => Some(u),
            _ => None,
        }
    }

    proof fn lemma_typed_of_erased(self) {
    }

    proof fn lemma_erased_of_typed(cell: Value) {
    }

    fn into_value(self) -> (cell: Value) {
        Value::UInt(self)
    }

    fn from_value(cell: Value) -> (unwrapped: Result<Self, Value>) {
        match cell {
            Value::UInt(u) => Ok(u),
            other => Err(other),
        }
    }

    fn is_held_by(cell: &Value) -> (held: bool) {
        match cell {
            Value::UInt(_) => true,
            _ => false,
        }
    }
}

impl Storable for String {
    open spec fn erased(self) -> Value {
        Value::Text(self)
    }

    open spec fn typed(cell: Value) -> Option<Self> {
        match cell {
            Value::Text(s) => Some(s),
            _ => None,
        }
    }

    proof fn lemma_typed_of_erased(self) {
    }

    proof fn lemma_erased_of_typed(cell: Value) {
    }

    fn into_value(self) -> (cell: Value) {
        Value::Text(self)
    }

    fn from_value(cell: Value) -> (unwrapped: Result<Self, Value>) {
        match cell {
            Value::Text(s) => Ok(s),
            other => Err(other),
        }
    }

    fn is_held_by(cell: &Value) -> (held: bool) {
        match cell {
            Value::Text(_) => true,
            _ => false,
        }
    }
}

} // verus!
