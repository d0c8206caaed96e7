//! Updates that can be applied to a value.

use vstd::prelude::*;

verus! {

/// A new value for a field, or no change.
#[derive(Clone, Debug, PartialEq, Eq)]
pub enum SetOrKeep<T> {
    Assign(T),
    Keep,
}

/// The value of a field after `update`.
pub open spec fn set_or_keep_result<T>(update: SetOrKeep<T>, current: T) -> T {
    match update {
        SetOrKeep::Assign(v) => v,
        SetOrKeep::Keep => current,
    }
}

impl<T> SetOrKeep<T> {
    /// Writes the new value into `target`, if there is one.
    pub fn apply_to(self, target: &mut T)
        ensures
            *final(target) == set_or_keep_result(self, *old(target)),
    {
        match self {
            SetOrKeep::Assign(v) => {
                *target = v;
            },
            SetOrKeep::Keep => {},
        }
    }
}

/// A new value for an entry, or its removal.
#[derive(Clone, Debug, PartialEq, Eq)]
pub enum SetOrDelete<T> {
    Assign(T),
    Delete,
}

/// A new value for an entry, an update of the current one, or its removal.
#[derive(Clone, Debug, PartialEq, Eq)]
pub enum SetUpdateOrDelete<T, U> {
    Assign(T),
    Update(U),
    Delete,
}

} // verus!
