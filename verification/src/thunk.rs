use std::collections::BTreeMap;
use vstd::prelude::*;

use crate::error::Error;
use crate::properties::Identifier;

verus! {

/// Flag of an automated type that already implements `Update`.
pub const UPDATE: usize = 1;

/// Flag of an automated type that already implements `Build`.
pub const BUILD: usize = 2;

/// Pointer struct selecting the automatic thunk implementations for a type;
/// `FLAGS` says which thunk traits the type already implements.
pub struct Auto<const FLAGS: usize>;

/// Automation of a type that already implements `Update`.
pub type AutoWithExistingUpdateImpl = Auto<UPDATE>;

/// A thunk, stored to be called later.
pub struct Thunk<T> {
    thunk: T,
}

impl<T> Thunk<T> {
    /// The stored thunk.
    pub closed spec fn spec_thunk(&self) -> T {
        self.thunk
    }

    /// Wraps `thunk`.
    pub fn new(thunk: T) -> (t: Thunk<T>)
        ensures
            t.spec_thunk() == thunk,
    {
        Thunk { thunk }
    }

    /// Returns the stored thunk.
    pub fn thunk(&self) -> (r: &T)
        ensures
            *r == self.spec_thunk(),
    {
        &self.thunk
    }
}

/// Table mapping identifiers to the thunks they implement.
pub struct ThunkTable<T> {
    table: BTreeMap<Identifier, T>,
}

/// Schedules the thunks of a table.
pub trait Schedule {
    /// Schedules the thunks of `table`.
    fn schedule(&self, table: ThunkTable<()>) -> Result<(), Error>;
}

/// Selects a part of `Self` by its type.
pub trait Select<T> {
    /// Returns the part of type `T`.
    fn select(&self) -> Result<&T, Error>;

    /// Returns the part of type `T`, for editing.
    fn select_mut(&mut self) -> Result<&mut T, Error>;
}

/// Maps `Self` to a `C`.
pub trait MapTo<C> {
    /// Returns the `C` that `self` maps to.
    fn map(&self) -> Result<C, Error>;
}

/// Maps `Self` to a new `Self` with the help of a `C`.
pub trait MapWith<C>: Sized {
    /// Returns the `Self` that `self` maps to with `with`.
    fn map_with(&self, with: &C) -> Result<Self, Error>;
}

} // verus!
