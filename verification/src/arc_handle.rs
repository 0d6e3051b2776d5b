//! Handles that threads can share.

use crate::handle::Handle;
use std::sync::Arc;
use vstd::prelude::*;

verus! {

/// An `Arc`, together with the address of its allocation. It may be cloned, sent
/// and dropped on any thread; the count of holders is kept with atomic operations.
///
/// The address is ghost: it is there for the contracts, and at run time a handle is the
/// `Arc` and nothing more. Only the functions at the end of this file make handles, so that
/// a handle's address is always the one its `Arc` points to.
pub struct ArcHandle<T: ?Sized> {
    ptr: Arc<T>,
    site: Ghost<int>,
}

impl<T: ?Sized> Handle for ArcHandle<T> {
    type Target = T;

    closed spec fn value(&self) -> &T {
        &*self.ptr
    }

    closed spec fn addr(&self) -> int {
        self.site@
    }

    fn get(&self) -> (r: &T) {
        &*self.ptr
    }

    fn share(&self) -> (r: Self) {
        duplicate(self)
    }

    fn holders(&self) -> (n: usize) {
        strong_count(self)
    }

    fn ptr_eq(&self, other: &Self) -> (r: bool) {
        same_allocation(self, other)
    }
}

impl<T: ?Sized> std::ops::Deref for ArcHandle<T> {
    type Target = T;

    fn deref(&self) -> (r: &T)
        ensures
            r == self.value(),
    {
        &*self.ptr
    }
}

impl<T: ?Sized> Clone for ArcHandle<T> {
    fn clone(&self) -> (r: Self)
        ensures
            r == *self,
    {
        duplicate(self)
    }
}

impl<T: ?Sized> ArcHandle<T> {
    /// The `Arc` inside.
    pub fn as_arc(&self) -> (arc: &Arc<T>)
        ensures
            &**arc == self.value(),
    {
        &self.ptr
    }

    /// Gives up the handle for the `Arc` inside.
    pub fn into_arc(self) -> (arc: Arc<T>)
        ensures
            &*arc == self.value(),
    {
        self.ptr
    }
}

/// `Arc::new`: moves the value into a new allocation. Nothing is claimed of its address.
#[verifier::external_body]
pub(crate) fn allocate<T>(value: T) -> (h: ArcHandle<T>)
    ensures
        *h.value() == value,
{
    ArcHandle { ptr: Arc::new(value), site: Ghost(arbitrary()) }
}

/// `Arc::from` on a `Box`: moves the boxed value into a new allocation.
#[verifier::external_body]
pub(crate) fn allocate_boxed<T: ?Sized>(value: Box<T>) -> (h: ArcHandle<T>)
    ensures
        h.value() == &*value,
{
    ArcHandle { ptr: Arc::from(value), site: Ghost(arbitrary()) }
}

/// `Arc::from` on a slice: a new allocation filled with a clone of each item, in order.
#[verifier::external_body]
pub(crate) fn allocate_slice<T: Clone>(items: &[T]) -> (h: ArcHandle<[T]>)
    ensures
        h.value()@.len() == items@.len(),
        forall|i: int| 0 <= i < items@.len() ==> cloned(#[trigger] items@[i], h.value()@[i]),
{
    ArcHandle { ptr: Arc::from(items), site: Ghost(arbitrary()) }
}

/// `Arc::from` on a `&str`: a new allocation that holds a copy of the text.
#[verifier::external_body]
pub(crate) fn allocate_text(text: &str) -> (h: ArcHandle<str>)
    ensures
        h.value()@ == text@,
{
    ArcHandle { ptr: Arc::from(text), site: Ghost(arbitrary()) }
}

/// `Arc::clone`: a second pointer into the allocation of the first.
#[verifier::external_body]
fn duplicate<T: ?Sized>(h: &ArcHandle<T>) -> (r: ArcHandle<T>)
    ensures
        r == *h,
{
    ArcHandle { ptr: Arc::clone(&h.ptr), site: h.site }
}

/// `Arc::strong_count`: the number of `Arc`s into the allocation, which counts the one
/// asked and so is never zero.
#[verifier::external_body]
fn strong_count<T: ?Sized>(h: &ArcHandle<T>) -> (n: usize)
    ensures
        n >= 1,
{
    Arc::strong_count(&h.ptr)
}

/// `Arc::ptr_eq`: whether the two point into one allocation. Where they do, they point to
/// one value.
#[verifier::external_body]
fn same_allocation<T: ?Sized>(a: &ArcHandle<T>, b: &ArcHandle<T>) -> (r: bool)
    ensures
        r == (a.addr() == b.addr()),
        r ==> a.value() == b.value(),
{
    Arc::ptr_eq(&a.ptr, &b.ptr)
}

} // verus!
