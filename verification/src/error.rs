use vstd::prelude::*;

verus! {

/// The error taxonomy of the storage layer and the aspect aggregator.
///
/// `ErrorGeneric` wraps backend failures and local corruption with a
/// descriptive message; the other variants are the two policy outcomes a
/// caller can react to: an entry that is not held locally, and an entry
/// whose type must not be published.
#[derive(Debug, PartialEq, Eq)]
pub enum HolochainError {
    ErrorGeneric(String),
    EntryNotFoundLocally,
    EntryIsPrivate,
}

impl Clone for HolochainError {
    fn clone(&self) -> (r: Self)
        ensures
            r.congruent(self),
    {
        match self {
            HolochainError::ErrorGeneric(s) => HolochainError::ErrorGeneric(s.clone()),
            HolochainError::EntryNotFoundLocally => HolochainError::EntryNotFoundLocally,
            HolochainError::EntryIsPrivate => HolochainError::EntryIsPrivate,
        }
    }
}

impl HolochainError {
    /// Same variant and, for the generic kind, the same message text.
    pub open spec fn congruent(&self, other: &Self) -> bool {
        match (self, other) {
            (HolochainError::ErrorGeneric(a), HolochainError::ErrorGeneric(b)) => a@ == b@,
            (HolochainError::EntryNotFoundLocally, HolochainError::EntryNotFoundLocally) => true,
            (HolochainError::EntryIsPrivate, HolochainError::EntryIsPrivate) => true,
            _ => false,
        }
    }
}

} // verus!
