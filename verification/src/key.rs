//! The equality that interning goes by.

use vstd::prelude::*;
use vstd::std_specs::cmp::PartialEqSpec;

verus! {

/// A value that can be looked up in a table of handles: two values that are `same` are
/// kept as one.
///
/// Every sized type with a total `==` is a key through that `==`; text is a key through
/// its characters, and a slice through the `==` of its items.
pub trait Key {
    /// Whether `is_same` is known to decide `same`. It is for text, and for the other
    /// types wherever their `==` keeps to its own specification.
    spec fn decides() -> bool;

    /// The equality itself.
    spec fn same(&self, other: &Self) -> bool;

    /// Compares two values.
    fn is_same(&self, other: &Self) -> (r: bool)
        ensures
            Self::decides() ==> r == self.same(other),
    ;
}

impl<T: Eq> Key for T {
    open spec fn decides() -> bool {
        T::obeys_eq_spec()
    }

    open spec fn same(&self, other: &Self) -> bool {
        self.eq_spec(other)
    }

    fn is_same(&self, other: &Self) -> (r: bool) {
        *self == *other
    }
}

impl Key for str {
    open spec fn decides() -> bool {
        true
    }

    open spec fn same(&self, other: &Self) -> bool {
        self@ == other@
    }

    fn is_same(&self, other: &Self) -> (r: bool) {
        text_eq(self, other)
    }
}

impl<T: Eq> Key for [T] {
    open spec fn decides() -> bool {
        T::obeys_eq_spec()
    }

    open spec fn same(&self, other: &Self) -> bool {
        &&& self@.len() == other@.len()
        &&& forall|i: int| 0 <= i < self@.len() ==> (#[trigger] self@[i]).eq_spec(&other@[i])
    }

    fn is_same(&self, other: &Self) -> (r: bool) {
        slice_eq(self, other)
    }
}

/// `==` on `str`, which std defines as equality of the two byte strings. Claimed here: the
/// result says whether the two hold the same characters in the same order.
#[verifier::external_body]
fn text_eq(a: &str, b: &str) -> (r: bool)
    ensures
        r == (a@ == b@),
{
    a == b
}

/// `==` on slices, which std defines as equal lengths and `==` on each pair of items in
/// turn. Claimed here, and only where the items' `==` keeps to its specification: the
/// result is that conjunction.
#[verifier::external_body]
fn slice_eq<T: Eq>(a: &[T], b: &[T]) -> (r: bool)
    ensures
        T::obeys_eq_spec() ==> r == a.same(b),
{
    a == b
}

/// Whether `same` is an equivalence on `K` that `is_same` decides: what a table needs of
/// its keys before it can promise one entry per value.
pub open spec fn lawful<K: Key + ?Sized>() -> bool {
    &&& K::decides()
    &&& forall|a: &K| #[trigger] a.same(a)
    &&& forall|a: &K, b: &K| #[trigger] a.same(b) ==> b.same(a)
    &&& forall|a: &K, b: &K, c: &K| #[trigger] a.same(b) && #[trigger] b.same(c) ==> a.same(c)
}

/// Text is a lawful key.
pub proof fn lemma_text_lawful()
    ensures
        lawful::<str>(),
{
}

/// Slices are lawful keys wherever their items are.
pub proof fn lemma_slice_lawful<T: Eq>()
    requires
        lawful::<T>(),
    ensures
        lawful::<[T]>(),
{
    assert forall|a: &[T]| #[trigger] a.same(a) by {
        assert forall|i: int| 0 <= i < a@.len() implies (#[trigger] a@[i]).eq_spec(&a@[i]) by {
            assert((&a@[i]).same(&a@[i]));
        }
    }
    assert forall|a: &[T], b: &[T]| #[trigger] a.same(b) implies b.same(a) by {
        assert forall|i: int| 0 <= i < b@.len() implies (#[trigger] b@[i]).eq_spec(&a@[i]) by {
            assert((&a@[i]).same(&b@[i]));
        }
    }
    assert forall|a: &[T], b: &[T], c: &[T]| #[trigger] a.same(b) && #[trigger] b.same(c) implies a.same(c) by {
        assert forall|i: int| 0 <= i < a@.len() implies (#[trigger] a@[i]).eq_spec(&c@[i]) by {
            assert((&a@[i]).same(&b@[i]));
            assert((&b@[i]).same(&c@[i]));
        }
    }
}

} // verus!
