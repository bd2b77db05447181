//! The outside types that the framing layer works on: `bytes::Bytes`, in which
//! a transport hands over what it received, and the two types of `std::task`
//! in which polling is written.
use bytes::{Buf, Bytes};
use vstd::prelude::*;

verus! {

/// `bytes::Bytes`, a slice of shared memory. What it holds is `content`.
#[verifier::external_type_specification]
#[verifier::external_body]
pub struct ExBytes(bytes::Bytes);

/// `std::task::Poll`, with its two variants.
#[verifier::external_type_specification]
#[verifier::reject_recursive_types(T)]
pub struct ExPoll<T>(std::task::Poll<T>);

/// `std::task::Context`, which is only passed on to the transport.
#[verifier::external_type_specification]
#[verifier::external_body]
pub struct ExContext<'a>(std::task::Context<'a>);

/// The bytes that a `Bytes` holds.
pub uninterp spec fn content(b: Bytes) -> Seq<u8>;

/// `Bytes::len` counts the bytes held.
pub assume_specification[ Bytes::len ](b: &Bytes) -> (n: usize)
    ensures
        n == content(*b).len(),
;

/// `Buf::chunk` of a `Bytes` is the slice of all it holds.
#[verifier::external_body]
pub(crate) fn as_slice(b: &Bytes) -> (slice: &[u8])
    ensures
        slice@ == content(*b),
{
    b.chunk()
}

/// `Buf::advance` of a `Bytes` drops the first `count` bytes. It panics where
/// fewer are held.
#[verifier::external_body]
pub(crate) fn advance(b: &mut Bytes, count: usize)
    requires
        count <= content(*old(b)).len(),
    ensures
        content(*final(b)) == content(*old(b)).skip(count as int),
{
    b.advance(count)
}

/// `Buf::copy_to_bytes` of a `Bytes` cuts the first `len` bytes off and returns
/// them. It panics where fewer are held.
#[verifier::external_body]
pub(crate) fn copy_to_bytes(b: &mut Bytes, len: usize) -> (front: Bytes)
    requires
        len <= content(*old(b)).len(),
    ensures
        content(front) == content(*old(b)).take(len as int),
        content(*final(b)) == content(*old(b)).skip(len as int),
{
    b.copy_to_bytes(len)
}

/// `Bytes::from` a vector holds what the vector held.
#[verifier::external_body]
pub(crate) fn from_vec(bytes: Vec<u8>) -> (b: Bytes)
    ensures
        content(b) == bytes@,
{
    Bytes::from(bytes)
}

} // verus!
