//! What a table asks of the counted pointers it holds.

use vstd::prelude::*;

verus! {

/// A counted pointer to a value that is never changed.
///
/// Beside the value it points to, a handle has the address of the allocation that holds
/// the value. Two handles that are alive together point into one allocation exactly when
/// their addresses agree, and then they read the same value.
pub trait Handle: Sized {
    type Target: ?Sized;

    /// The value pointed to.
    spec fn value(&self) -> &Self::Target;

    /// The address of the allocation pointed into.
    spec fn addr(&self) -> int;

    /// Reads the value.
    fn get(&self) -> (r: &Self::Target)
        ensures
            r == self.value(),
    ;

    /// Another handle into the same allocation; its count of holders goes up by one.
    fn share(&self) -> (r: Self)
        ensures
            r == *self,
    ;

    /// How many handles into this allocation are alive right now, this one included.
    fn holders(&self) -> (n: usize)
        ensures
            n >= 1,
    ;

    /// Whether both handles point into one allocation, and so to one value.
    fn ptr_eq(&self, other: &Self) -> (r: bool)
        ensures
            r == (self.addr() == other.addr()),
            r ==> self.value() == other.value(),
    ;
}

} // verus!
