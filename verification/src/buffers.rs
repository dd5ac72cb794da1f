//! Reference-counted byte buffers, from the `bytes` crate.
//!
//! Everything here is a statement about that crate: what a `Bytes` holds, and
//! what the few operations this library uses do to it.
use bytes::Bytes;
use vstd::prelude::*;

verus! {

/// A cheaply cloned, immutable run of bytes.
#[verifier::external_type_specification]
#[verifier::external_body]
pub struct ExBytes(bytes::Bytes);

/// The bytes a buffer holds.
pub uninterp spec fn content(b: bytes::Bytes) -> Seq<u8>;

/// `Bytes::new`: a buffer that holds nothing.
pub assume_specification[ bytes::Bytes::new ]() -> (r: Bytes)
    ensures
        content(r) == Seq::<u8>::empty(),
;

/// `Bytes::len`: how many bytes the buffer holds.
pub assume_specification[ bytes::Bytes::len ](b: &Bytes) -> (r: usize)
    ensures
        r == content(*b).len(),
;

/// `Bytes::is_empty`: whether the buffer holds nothing.
pub assume_specification[ bytes::Bytes::is_empty ](b: &Bytes) -> (r: bool)
    ensures
        r == (content(*b).len() == 0),
;

/// `Bytes::copy_from_slice`: a buffer holding a copy of the slice.
pub assume_specification[ bytes::Bytes::copy_from_slice ](data: &[u8]) -> (r: Bytes)
    ensures
        content(r) == data@,
;

/// `Bytes::split_to`: takes the first `at` bytes off the front and returns them.
///
/// It panics past the end, which the precondition rules out.
pub assume_specification[ bytes::Bytes::split_to ](b: &mut Bytes, at: usize) -> (r: Bytes)
    requires
        at <= content(*old(b)).len(),
    ensures
        content(r) == content(*old(b)).take(at as int),
        content(*final(b)) == content(*old(b)).skip(at as int),
;

/// `Bytes::clone`: another handle on the same bytes.
pub assume_specification[ <bytes::Bytes as Clone>::clone ](b: &Bytes) -> (r: Bytes)
    ensures
        content(r) == content(*b),
;

/// `Bytes::as_ref`: the bytes as a slice.
#[verifier::external_body]
pub(crate) fn as_slice(b: &Bytes) -> (r: &[u8])
    ensures
        r@ == content(*b),
{
    b.as_ref()
}

/// `Bytes::from` a vector: a buffer holding the bytes of the vector.
#[verifier::external_body]
pub(crate) fn from_vec(v: Vec<u8>) -> (r: Bytes)
    ensures
        content(r) == v@,
{
    Bytes::from(v)
}

/// One chunk in front of another.
pub fn concat(a: &Bytes, b: &Bytes) -> (r: Bytes)
    ensures
        content(r) == content(*a) + content(*b),
{
    let mut joined: Vec<u8> = Vec::new();
    joined.extend_from_slice(as_slice(a));
    joined.extend_from_slice(as_slice(b));
    assert(joined@ =~= content(*a) + content(*b));
    from_vec(joined)
}

} // verus!
