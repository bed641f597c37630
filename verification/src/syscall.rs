//! What an executor reports about undoing an operation that it ran.

use vstd::prelude::*;
use vstd::string::*;

verus! {

/// What it takes to undo an operation that was run. `U` is an inverse operation.
pub enum UndoCapability<U> {
    /// Nothing observable happened.
    Identity,
    /// Running the inverse undoes the operation.
    Invertible(U),
    /// The operation cannot be undone.
    NonInvertible,
}

/// The capability's name as it is printed, which does not show the inverse.
pub open spec fn capability_text<U>(c: UndoCapability<U>) -> Seq<char> {
    match c {
        UndoCapability::Identity => "Identity"@,
        UndoCapability::Invertible(_) => "Invertible(_)"@,
        UndoCapability::NonInvertible => "NonInvertible"@,
    }
}

impl<U> UndoCapability<U> {
    /// Whether there is an inverse operation.
    pub fn is_invertible(&self) -> (r: bool)
        ensures
            r == (self is Invertible),
    {
        matches!(self, UndoCapability::Invertible(_))
    }

    /// Whether the operation cannot be undone.
    pub fn is_irreversible(&self) -> (r: bool)
        ensures
            r == (self is NonInvertible),
    {
        matches!(self, UndoCapability::NonInvertible)
    }

    /// The capability's name, which does not show the inverse.
    pub fn to_string(&self) -> (s: String)
        ensures
            s@ == capability_text(*self),
    {
        match self {
            UndoCapability::Identity => "Identity".to_owned(),
            UndoCapability::Invertible(_) => "Invertible(_)".to_owned(),
            UndoCapability::NonInvertible => "NonInvertible".to_owned(),
        }
    }
}

impl<U> vstd::std_specs::cmp::PartialEqSpecImpl for UndoCapability<U> {
    open spec fn obeys_eq_spec() -> bool {
        true
    }

    open spec fn eq_spec(&self, other: &Self) -> bool {
        ||| self is Identity && other is Identity
        ||| self is Invertible && other is Invertible
        ||| self is NonInvertible && other is NonInvertible
    }
}

impl<U> PartialEq for UndoCapability<U> {
    /// Capabilities are equal if they are of the same kind; inverses are not
    /// compared.
    fn eq(&self, other: &Self) -> (r: bool) {
        matches!(
            (self, other),
            (UndoCapability::Identity, UndoCapability::Identity)
                | (UndoCapability::Invertible(_), UndoCapability::Invertible(_))
                | (UndoCapability::NonInvertible, UndoCapability::NonInvertible)
        )
    }
}

/// A capability is shown by its name, and its inverse is not.
pub proof fn law_capability_texts<U>(op: U)
    ensures
        capability_text(UndoCapability::<U>::Identity) == "Identity"@,
        capability_text(UndoCapability::Invertible(op)) == "Invertible(_)"@,
        capability_text(UndoCapability::<U>::NonInvertible) == "NonInvertible"@,
{
}

} // verus!
