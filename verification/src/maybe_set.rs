//! A value that may be given, left out, or given as null.

use vstd::prelude::*;

verus! {

/// An optional value with two ways of being absent.
pub enum MaybeSet<T> {
    /// A value was given.
    Present(T),
    /// Nothing was given.
    Absent,
    /// Null was given in place of a value.
    ExplicitNull,
}

} // verus!
