//! Error types of other crates that the library carries through.
use vstd::prelude::*;

verus! {

/// `std::io::Error`, carried unopened.
#[verifier::external_type_specification]
#[verifier::external_body]
pub struct ExIoError(std::io::Error);

/// `rkyv::rancor::Error`, carried unopened.
#[verifier::external_type_specification]
#[verifier::external_body]
pub struct ExRancorError(rkyv::rancor::Error);

/// `bytes::TryGetError`, with its two public counts.
#[verifier::external_type_specification]
pub struct ExTryGetError(bytes::TryGetError);

/// `unsigned_varint::decode::Error`, with its three unit variants.
#[verifier::external_type_specification]
pub struct ExVarintDecodeError(unsigned_varint::decode::Error);

} // verus!
