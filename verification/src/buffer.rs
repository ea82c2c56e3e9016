//! What this library takes for granted about `bytes::Bytes`.

use bytes::Bytes;
use vstd::prelude::*;

verus! {

#[verifier::external_type_specification]
#[verifier::external_body]
pub struct ExBytes(bytes::Bytes);

/// The bytes that a `Bytes` buffer holds, first to last.
pub uninterp spec fn bytes_seq(b: Bytes) -> Seq<u8>;

/// `Vec::<u8>::from(Bytes)`: hands out the bytes that the buffer holds, in
/// their order, as a vector.
#[verifier::external_body]
pub(crate) fn vec_from_bytes(b: Bytes) -> (v: Vec<u8>)
    ensures
        v@ == bytes_seq(b),
{
    Vec::from(b)
}

/// `Bytes::from(Vec<u8>)`: a buffer that holds the bytes of the vector, in
/// their order.
#[verifier::external_body]
pub(crate) fn bytes_from_vec(v: Vec<u8>) -> (b: Bytes)
    ensures
        bytes_seq(b) == v@,
{
    Bytes::from(v)
}

} // verus!
