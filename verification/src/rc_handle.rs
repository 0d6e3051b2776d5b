//! Handles for use within one thread.

use crate::handle::Handle;
use std::rc::Rc;
use vstd::prelude::*;

verus! {

/// An `Rc`, together with the address of its allocation. It stays on one thread.
///
/// The address is ghost: it is there for the contracts, and at run time a handle is the
/// `Rc` and nothing more. Only the functions at the end of this file make handles, so that
/// a handle's address is always the one its `Rc` points to.
pub struct RcHandle<T: ?Sized> {
    ptr: Rc<T>,
    site: Ghost<int>,
}

impl<T: ?Sized> Handle for RcHandle<T> {
    type Target = T;

    closed spec fn value(&self) -> &T {
        &*self.ptr
    }

    closed spec fn addr(&self) -> int {
        self.site@
    }

    fn get(&self) -> (r: &T) {
        &*self.ptr
    }

    fn share(&self) -> (r: Self) {
        duplicate(self)
    }

    fn holders(&self) -> (n: usize) {
        strong_count(self)
    }

    fn ptr_eq(&self, other: &Self) -> (r: bool) {
        same_allocation(self, other)
    }
}

impl<T: ?Sized> std::ops::Deref for RcHandle<T> {
    type Target = T;

    fn deref(&self) -> (r: &T)
        ensures
            r == self.value(),
    {
        &*self.ptr
    }
}

impl<T: ?Sized> Clone for RcHandle<T> {
    fn clone(&self) -> (r: Self)
        ensures
            r == *self,
    {
        duplicate(self)
    }
}

impl<T: ?Sized> RcHandle<T> {
    /// The `Rc` inside.
    pub fn as_rc(&self) -> (rc: &Rc<T>)
        ensures
            &**rc == self.value(),
    {
        &self.ptr
    }

    /// Gives up the handle for the `Rc` inside.
    pub fn into_rc(self) -> (rc: Rc<T>)
        ensures
            &*rc == self.value(),
    {
        self.ptr
    }
}

/// `Rc::new`: moves the value into a new allocation. Nothing is claimed of its address.
#[verifier::external_body]
pub(crate) fn allocate<T>(value: T) -> (h: RcHandle<T>)
    ensures
        *h.value() == value,
{
    RcHandle { ptr: Rc::new(value), site: Ghost(arbitrary()) }
}

/// `Rc::from` on a `Box`: moves the boxed value into a new allocation.
#[verifier::external_body]
pub(crate) fn allocate_boxed<T: ?Sized>(value: Box<T>) -> (h: RcHandle<T>)
    ensures
        h.value() == &*value,
{
    RcHandle { ptr: Rc::from(value), site: Ghost(arbitrary()) }
}

/// `Rc::from` on a slice: a new allocation filled with a clone of each item, in order.
#[verifier::external_body]
pub(crate) fn allocate_slice<T: Clone>(items: &[T]) -> (h: RcHandle<[T]>)
    ensures
        h.value()@.len() == items@.len(),
        forall|i: int| 0 <= i < items@.len() ==> cloned(#[trigger] items@[i], h.value()@[i]),
{
    RcHandle { ptr: Rc::from(items), site: Ghost(arbitrary()) }
}

/// `Rc::from` on a `&str`: a new allocation that holds a copy of the text.
#[verifier::external_body]
pub(crate) fn allocate_text(text: &str) -> (h: RcHandle<str>)
    ensures
        h.value()@ == text@,
{
    RcHandle { ptr: Rc::from(text), site: Ghost(arbitrary()) }
}

/// `Rc::clone`: a second pointer into the allocation of the first.
#[verifier::external_body]
fn duplicate<T: ?Sized>(h: &RcHandle<T>) -> (r: RcHandle<T>)
    ensures
        r == *h,
{
    RcHandle { ptr: Rc::clone(&h.ptr), site: h.site }
}

/// `Rc::strong_count`: the number of `Rc`s into the allocation, which counts the one
/// asked and so is never zero.
#[verifier::external_body]
fn strong_count<T: ?Sized>(h: &RcHandle<T>) -> (n: usize)
    ensures
        n >= 1,
{
    Rc::strong_count(&h.ptr)
}

/// `Rc::ptr_eq`: whether the two point into one allocation. Where they do, they point to
/// one value.
#[verifier::external_body]
fn same_allocation<T: ?Sized>(a: &RcHandle<T>, b: &RcHandle<T>) -> (r: bool)
    ensures
        r == (a.addr() == b.addr()),
        r ==> a.value() == b.value(),
{
    Rc::ptr_eq(&a.ptr, &b.ptr)
}

} // verus!
