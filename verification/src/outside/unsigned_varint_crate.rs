//! The `unsigned_varint` crate: integers in base 128, least significant digit
//! first, with the high bit of a byte set where another one follows.
use crate::varint;
use vstd::prelude::*;

verus! {

/// `unsigned_varint::decode::is_last`: a byte ends a varint where its high bit
/// is clear.
pub assume_specification[ unsigned_varint::decode::is_last ](b: u8) -> (last: bool)
    ensures
        last == (b & 0x80 == 0),
;

/// `unsigned_varint::decode::usize`: reads one varint from the front of `buf`
/// and hands back its value and the bytes behind it. At most
/// [`varint::max_len`] bytes are looked at, and bits beyond the width of a
/// `usize` are dropped.
pub assume_specification[ unsigned_varint::decode::usize ](buf: &[u8]) -> (result: Result<
    (usize, &[u8]),
    unsigned_varint::decode::Error,
>)
    ensures
        match result {
            Ok((number, rest)) => {
                &&& varint::varint_decoding(buf@) matches Ok((value, used))
                &&& number == value
                &&& rest@ == buf@.skip(used as int)
            },
            Err(error) => varint::varint_decoding(buf@) matches Err(fault) && fault
                == varint::fault_of(error),
        },
;

/// `unsigned_varint::encode::usize`: writes `number` into the front of `buf`
/// and hands back the bytes written; the rest of `buf` stays as it was.
#[verifier::external_body]
pub(crate) fn varint_encode_usize(number: usize, buf: &mut [u8; 10]) -> (encoded: &[u8])
    ensures
        encoded@ == varint::varint_encoding(number as nat),
        final(buf)@ == encoded@ + old(buf)@.skip(encoded@.len() as int),
{
    unsigned_varint::encode::usize(number, buf)
}

} // verus!
