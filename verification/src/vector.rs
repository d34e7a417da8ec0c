//! The persistent vector of `im` that backs every pattern.
//!
//! Nothing in this file is proved: each contract restates, over the
//! sequence of bytes a vector holds, what the `im` crate documents for the
//! method it calls.

use im::Vector;
use vstd::prelude::*;

verus! {

/// `im::Vector`, carried as a value whose inside is not looked into.
#[verifier::external_type_specification]
#[verifier::external_body]
#[verifier::reject_recursive_types(A)]
pub struct ExVector<A>(Vector<A>);

/// The bytes a vector holds, front to back.
pub uninterp spec fn vector_items(v: Vector<u8>) -> Seq<u8>;

/// `Vector::new`: a vector that holds nothing.
#[verifier::external_body]
pub(crate) fn vector_new() -> (r: Vector<u8>)
    ensures
        vector_items(r) == Seq::<u8>::empty(),
{
    Vector::new()
}

/// `Vector::from(Vec)`: the items of the `Vec`, in the same order.
#[verifier::external_body]
pub(crate) fn vector_from_vec(v: Vec<u8>) -> (r: Vector<u8>)
    ensures
        vector_items(r) == v@,
{
    Vector::from(v)
}

/// `Vector::len`: the number of items held.
#[verifier::external_body]
pub(crate) fn vector_len(v: &Vector<u8>) -> (n: usize)
    ensures
        n == vector_items(*v).len(),
{
    v.len()
}

/// `Vector::clone`: a vector with the same items.
#[verifier::external_body]
pub(crate) fn vector_clone(v: &Vector<u8>) -> (r: Vector<u8>)
    ensures
        vector_items(r) == vector_items(*v),
{
    v.clone()
}

/// `Vector::get`: the item at `index`, or `None` when `index` is past the end.
#[verifier::external_body]
pub(crate) fn vector_get(v: &Vector<u8>, index: usize) -> (r: Option<u8>)
    ensures
        r == if index < vector_items(*v).len() {
            Some(vector_items(*v)[index as int])
        } else {
            None
        },
{
    v.get(index).copied()
}

/// `Vector::push_back`: the same items with `value` added at the back.
#[verifier::external_body]
pub(crate) fn vector_push_back(v: &mut Vector<u8>, value: u8)
    requires
        vector_items(*old(v)).len() < usize::MAX,
    ensures
        vector_items(*final(v)) == vector_items(*old(v)).push(value),
{
    v.push_back(value)
}

/// `Vector::push_front`: the same items with `value` added at the front.
#[verifier::external_body]
pub(crate) fn vector_push_front(v: &mut Vector<u8>, value: u8)
    requires
        vector_items(*old(v)).len() < usize::MAX,
    ensures
        vector_items(*final(v)) == seq![value] + vector_items(*old(v)),
{
    v.push_front(value)
}

/// `Vector::pop_front`: removes and returns the first item; on an empty
/// vector returns `None` and changes nothing.
#[verifier::external_body]
pub(crate) fn vector_pop_front(v: &mut Vector<u8>) -> (r: Option<u8>)
    ensures
        vector_items(*old(v)).len() == 0 ==> r.is_none() && vector_items(*final(v))
            == vector_items(*old(v)),
        vector_items(*old(v)).len() > 0 ==> r == Some(vector_items(*old(v)).first())
            && vector_items(*final(v)) == vector_items(*old(v)).drop_first(),
{
    v.pop_front()
}

/// `Vector::pop_back`: removes and returns the last item; on an empty
/// vector returns `None` and changes nothing.
#[verifier::external_body]
pub(crate) fn vector_pop_back(v: &mut Vector<u8>) -> (r: Option<u8>)
    ensures
        vector_items(*old(v)).len() == 0 ==> r.is_none() && vector_items(*final(v))
            == vector_items(*old(v)),
        vector_items(*old(v)).len() > 0 ==> r == Some(vector_items(*old(v)).last())
            && vector_items(*final(v)) == vector_items(*old(v)).drop_last(),
{
    v.pop_back()
}

/// `Vector::append`: the items of `other` follow those already held. The
/// crate panics when the combined length does not fit in `usize`, so that
/// case is excluded.
#[verifier::external_body]
pub(crate) fn vector_append(v: &mut Vector<u8>, other: Vector<u8>)
    requires
        vector_items(*old(v)).len() + vector_items(other).len() <= usize::MAX,
    ensures
        vector_items(*final(v)) == vector_items(*old(v)) + vector_items(other),
{
    v.append(other)
}

/// `Vector::take`: a vector of the first `count` items. The crate panics
/// when `count` exceeds the length, so that case is excluded.
#[verifier::external_body]
pub(crate) fn vector_take(v: &Vector<u8>, count: usize) -> (r: Vector<u8>)
    requires
        count <= vector_items(*v).len(),
    ensures
        vector_items(r) == vector_items(*v).take(count as int),
{
    v.take(count)
}

} // verus!
