//! The few operations on owned buffers that the interners lean on.

use vstd::prelude::*;

verus! {

/// `Vec::shrink_to_fit`: gives spare capacity back and leaves the items as they are.
#[verifier::external_body]
pub(crate) fn release_spare<A>(items: &mut Vec<A>)
    ensures
        final(items)@ == old(items)@,
{
    items.shrink_to_fit()
}

/// `Vec::into_boxed_slice`: the same items, in a box.
#[verifier::external_body]
pub(crate) fn boxed_slice<A>(items: Vec<A>) -> (b: Box<[A]>)
    ensures
        b@ == items@,
{
    items.into_boxed_slice()
}

/// `String::into_boxed_str`: the same text, in a box.
#[verifier::external_body]
pub(crate) fn boxed_text(text: String) -> (b: Box<str>)
    ensures
        b@ == text@,
{
    text.into_boxed_str()
}

} // verus!
