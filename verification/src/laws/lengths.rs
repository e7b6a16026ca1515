//! What each length codec writes and reads, byte by byte.
use crate::big_endian;
use crate::buffers::ByteSource;
use crate::length_codec::{LengthCodec, NotEnoughBytesError, WithIOError};
use crate::varint;
use crate::varint::{VarintLength, VarintLengthError};
use crate::{U16Length, U32Length, U64Length, U8Length};
use vstd::arithmetic::{div_mod, power};
use vstd::prelude::*;

verus! {

/// The bytes of a fixed-width length are its digits in base 256, the most
/// significant one first.
pub proof fn law_big_endian_digits(value: nat, width: nat)
    ensures
        big_endian::be_encoding(value, width).len() == width,
        forall|i: int|
            0 <= i < width ==> #[trigger] big_endian::be_encoding(value, width)[i] == (value as int
                / power::pow(256, (width - 1 - i) as nat)) % 256,
    decreases width,
{
    if width > 0 {
        let low = (width - 1) as nat;
        law_big_endian_digits(value / 256, low);
        assert forall|i: int| 0 <= i < width implies #[trigger] big_endian::be_encoding(
            value,
            width,
        )[i] == (value as int / power::pow(256, (width - 1 - i) as nat)) % 256 by {
            reveal(power::pow);
            if i < low {
                let higher = (low - 1 - i) as nat;
                power::lemma_pow_positive(256, higher);
                div_mod::lemma_div_denominator(value as int, 256, power::pow(256, higher));
                assert(big_endian::be_encoding(value, width)[i] == big_endian::be_encoding(
                    value / 256,
                    low,
                )[i]);
            }
        }
    }
}

/// The number that bytes of a fixed-width length spell has those bytes as its
/// digits in base 256, the most significant one first.
pub proof fn law_big_endian_value(bytes: Seq<u8>)
    ensures
        0 <= big_endian::be_value(bytes) < power::pow(256, bytes.len()),
        forall|i: int|
            0 <= i < bytes.len() ==> (big_endian::be_value(bytes) as int / power::pow(
                256,
                (bytes.len() - 1 - i) as nat,
            )) % 256 == #[trigger] bytes[i],
    decreases bytes.len(),
{
    reveal(power::pow);
    if bytes.len() > 0 {
        let high = bytes.drop_last();
        let value = big_endian::be_value(bytes) as int;
        law_big_endian_value(high);
        assert forall|i: int| 0 <= i < bytes.len() implies (value / power::pow(
            256,
            (bytes.len() - 1 - i) as nat,
        )) % 256 == #[trigger] bytes[i] by {
            if i < high.len() {
                let higher = (high.len() - 1 - i) as nat;
                assert(high[i] == bytes[i]);
                power::lemma_pow_positive(256, higher);
                div_mod::lemma_div_denominator(value, 256, power::pow(256, higher));
                assert(value / 256 == big_endian::be_value(high));
            }
        }
    }
}

/// A `U8Length` encodes a length as its 1 lowest digits in base 256, most
/// significant digit first, into the whole of its buffer.
pub proof fn law_u8_encodes(length: usize, buffer: &mut [u8; 1], encoded: &[u8])
    requires
        call_ensures(<U8Length as LengthCodec>::encode, (length, buffer), encoded),
    ensures
        encoded@.len() == 1,
        forall|i: int|
            0 <= i < 1 ==> #[trigger] encoded@[i] == (length as int
                / power::pow(256, (0 - i) as nat))
                % 256,
        final(buffer)@ == encoded@,
{
    law_big_endian_digits(length as nat, 1);
    assert(old(buffer)@.skip(1) =~= Seq::<u8>::empty());
    assert(final(buffer)@ =~= encoded@);
}

/// A `U8Length` decodes the number that the first 1 bytes spell in base 256,
/// and fails exactly where there are fewer.
pub proof fn law_u8_decodes(
    buffer: &[u8],
    result: Result<(usize, &[u8]), NotEnoughBytesError>,
)
    requires
        call_ensures(<U8Length as LengthCodec>::decode, (buffer,), result),
    ensures
        match result {
            Ok((length, rest)) => {
                &&& buffer@.len() >= 1
                &&& length == buffer@[0]
                &&& rest@ == buffer@.skip(1)
            },
            Err(_) => buffer@.len() < 1,
        },
{
    lemma_sum_u8(buffer@);
}

/// A `U8Length` is taken off a buffer as the number that the first 1 bytes
/// spell in base 256; where there are fewer, the buffer keeps them.
pub proof fn law_u8_is_taken<B: ByteSource>(buf: &mut B, result: Result<usize, NotEnoughBytesError>)
    requires
        call_ensures(<U8Length as LengthCodec>::decode_bytes::<B>, (buf,), result),
    ensures
        match result {
            Ok(length) => {
                &&& old(buf).rest().len() >= 1
                &&& length == old(buf).rest()[0]
                &&& final(buf).rest() == old(buf).rest().skip(1)
            },
            Err(_) => old(buf).rest().len() < 1 && final(buf).rest() == old(buf).rest(),
        },
{
    lemma_sum_u8(old(buf).rest());
    assert(old(buf).rest().skip(0) =~= old(buf).rest());
}

/// A stream is read for the 1 bytes of a `U8Length`, as many as are missing.
pub proof fn law_u8_wants(read: &[u8], count: usize)
    requires
        call_ensures(<U8Length as LengthCodec>::wanted, (read,), count),
    ensures
        read@.len() <= 1 ==> read@.len() + count == 1,
        read@.len() > 1 ==> count == 0,
{
}

/// A stream that ends within a `U8Length` lacks bytes of it; one that fails
/// otherwise has its own error handed on.
pub proof fn law_u8_stream_error(
    ended: bool,
    error: std::io::Error,
    fault: WithIOError<NotEnoughBytesError>,
)
    requires
        call_ensures(<U8Length as LengthCodec>::stream_error, (ended, error), fault),
    ensures
        match fault {
            WithIOError::LengthDecodeError(_) => ended,
            WithIOError::IoError(cause) => !ended && cause == error,
        },
{
}

/// The buffer of a `U8Length` is its 1 bytes, and the lengths that come back
/// are those that 1 bytes can spell.
pub proof fn law_u8_range(length: usize, buffer: &mut [u8; 1], slice: &mut [u8])
    requires
        call_ensures(<U8Length as LengthCodec>::as_slice, (buffer,), slice),
    ensures
        old(slice)@ == old(buffer)@,
        final(buffer)@ == final(slice)@,
        U8Length::readable(length) <==> length < 0x100,
        U8Length::decodable(length) <==> length < 0x100,
{
}

proof fn lemma_sum_u8(bytes: Seq<u8>)
    ensures
        bytes.len() >= 1 ==> big_endian::be_value(bytes.take(1)) == bytes[0],
{
    if bytes.len() >= 1 {
        reveal_with_fuel(big_endian::be_value, 2);
        assert(bytes.take(1).drop_last() =~= bytes.take(0));
    }
}

/// A `U16Length` encodes a length as its 2 lowest digits in base 256, most
/// significant digit first, into the whole of its buffer.
pub proof fn law_u16_encodes(length: usize, buffer: &mut [u8; 2], encoded: &[u8])
    requires
        call_ensures(<U16Length as LengthCodec>::encode, (length, buffer), encoded),
    ensures
        encoded@.len() == 2,
        forall|i: int|
            0 <= i < 2 ==> #[trigger] encoded@[i] == (length as int
                / power::pow(256, (1 - i) as nat))
                % 256,
        final(buffer)@ == encoded@,
{
    law_big_endian_digits(length as nat, 2);
    assert(old(buffer)@.skip(2) =~= Seq::<u8>::empty());
    assert(final(buffer)@ =~= encoded@);
}

/// A `U16Length` decodes the number that the first 2 bytes spell in base 256,
/// and fails exactly where there are fewer.
pub proof fn law_u16_decodes(
    buffer: &[u8],
    result: Result<(usize, &[u8]), NotEnoughBytesError>,
)
    requires
        call_ensures(<U16Length as LengthCodec>::decode, (buffer,), result),
    ensures
        match result {
            Ok((length, rest)) => {
                &&& buffer@.len() >= 2
                &&& length == buffer@[0] * 0x100 + buffer@[1]
                &&& rest@ == buffer@.skip(2)
            },
            Err(_) => buffer@.len() < 2,
        },
{
    lemma_sum_u16(buffer@);
}

/// A `U16Length` is taken off a buffer as the number that the first 2 bytes
/// spell in base 256; where there are fewer, the buffer keeps them.
pub proof fn law_u16_is_taken<B: ByteSource>(
    buf: &mut B,
    result: Result<usize, NotEnoughBytesError>,
)
    requires
        call_ensures(<U16Length as LengthCodec>::decode_bytes::<B>, (buf,), result),
    ensures
        match result {
            Ok(length) => {
                &&& old(buf).rest().len() >= 2
                &&& length == old(buf).rest()[0] * 0x100 + old(buf).rest()[1]
                &&& final(buf).rest() == old(buf).rest().skip(2)
            },
            Err(_) => old(buf).rest().len() < 2 && final(buf).rest() == old(buf).rest(),
        },
{
    lemma_sum_u16(old(buf).rest());
    assert(old(buf).rest().skip(0) =~= old(buf).rest());
}

/// A stream is read for the 2 bytes of a `U16Length`, as many as are missing.
pub proof fn law_u16_wants(read: &[u8], count: usize)
    requires
        call_ensures(<U16Length as LengthCodec>::wanted, (read,), count),
    ensures
        read@.len() <= 2 ==> read@.len() + count == 2,
        read@.len() > 2 ==> count == 0,
{
}

/// A stream that ends within a `U16Length` lacks bytes of it; one that fails
/// otherwise has its own error handed on.
pub proof fn law_u16_stream_error(
    ended: bool,
    error: std::io::Error,
    fault: WithIOError<NotEnoughBytesError>,
)
    requires
        call_ensures(<U16Length as LengthCodec>::stream_error, (ended, error), fault),
    ensures
        match fault {
            WithIOError::LengthDecodeError(_) => ended,
            WithIOError::IoError(cause) => !ended && cause == error,
        },
{
}

/// The buffer of a `U16Length` is its 2 bytes, and the lengths that come back
/// are those that 2 bytes can spell.
pub proof fn law_u16_range(length: usize, buffer: &mut [u8; 2], slice: &mut [u8])
    requires
        call_ensures(<U16Length as LengthCodec>::as_slice, (buffer,), slice),
    ensures
        old(slice)@ == old(buffer)@,
        final(buffer)@ == final(slice)@,
        U16Length::readable(length) <==> length < 0x1_0000,
        U16Length::decodable(length) <==> length < 0x1_0000,
{
}

proof fn lemma_sum_u16(bytes: Seq<u8>)
    ensures
        bytes.len() >= 2 ==> big_endian::be_value(bytes.take(2)) == bytes[0] * 0x100 + bytes[1],
{
    if bytes.len() >= 2 {
        reveal_with_fuel(big_endian::be_value, 3);
        assert(bytes.take(1).drop_last() =~= bytes.take(0));
        assert(bytes.take(2).drop_last() =~= bytes.take(1));
    }
}

/// A `U32Length` encodes a length as its 4 lowest digits in base 256, most
/// significant digit first, into the whole of its buffer.
pub proof fn law_u32_encodes(length: usize, buffer: &mut [u8; 4], encoded: &[u8])
    requires
        call_ensures(<U32Length as LengthCodec>::encode, (length, buffer), encoded),
    ensures
        encoded@.len() == 4,
        forall|i: int|
            0 <= i < 4 ==> #[trigger] encoded@[i] == (length as int
                / power::pow(256, (3 - i) as nat))
                % 256,
        final(buffer)@ == encoded@,
{
    law_big_endian_digits(length as nat, 4);
    assert(old(buffer)@.skip(4) =~= Seq::<u8>::empty());
    assert(final(buffer)@ =~= encoded@);
}

/// A `U32Length` decodes the number that the first 4 bytes spell in base 256,
/// and fails exactly where there are fewer.
pub proof fn law_u32_decodes(
    buffer: &[u8],
    result: Result<(usize, &[u8]), NotEnoughBytesError>,
)
    requires
        call_ensures(<U32Length as LengthCodec>::decode, (buffer,), result),
    ensures
        match result {
            Ok((length, rest)) => {
                &&& buffer@.len() >= 4
                &&& length == buffer@[0] * 0x1000000 + buffer@[1] * 0x10000 + buffer@[2] * 0x100
                    + buffer@[3]
                &&& rest@ == buffer@.skip(4)
            },
            Err(_) => buffer@.len() < 4,
        },
{
    lemma_sum_u32(buffer@);
}

/// A `U32Length` is taken off a buffer as the number that the first 4 bytes
/// spell in base 256; where there are fewer, the buffer keeps them.
pub proof fn law_u32_is_taken<B: ByteSource>(
    buf: &mut B,
    result: Result<usize, NotEnoughBytesError>,
)
    requires
        call_ensures(<U32Length as LengthCodec>::decode_bytes::<B>, (buf,), result),
    ensures
        match result {
            Ok(length) => {
                &&& old(buf).rest().len() >= 4
                &&& length == old(buf).rest()[0] * 0x1000000 + old(buf).rest()[1] * 0x10000
                    + old(buf).rest()[2] * 0x100 + old(buf).rest()[3]
                &&& final(buf).rest() == old(buf).rest().skip(4)
            },
            Err(_) => old(buf).rest().len() < 4 && final(buf).rest() == old(buf).rest(),
        },
{
    lemma_sum_u32(old(buf).rest());
    assert(old(buf).rest().skip(0) =~= old(buf).rest());
}

/// A stream is read for the 4 bytes of a `U32Length`, as many as are missing.
pub proof fn law_u32_wants(read: &[u8], count: usize)
    requires
        call_ensures(<U32Length as LengthCodec>::wanted, (read,), count),
    ensures
        read@.len() <= 4 ==> read@.len() + count == 4,
        read@.len() > 4 ==> count == 0,
{
}

/// A stream that ends within a `U32Length` lacks bytes of it; one that fails
/// otherwise has its own error handed on.
pub proof fn law_u32_stream_error(
    ended: bool,
    error: std::io::Error,
    fault: WithIOError<NotEnoughBytesError>,
)
    requires
        call_ensures(<U32Length as LengthCodec>::stream_error, (ended, error), fault),
    ensures
        match fault {
            WithIOError::LengthDecodeError(_) => ended,
            WithIOError::IoError(cause) => !ended && cause == error,
        },
{
}

/// The buffer of a `U32Length` is its 4 bytes, and the lengths that come back
/// are those that 4 bytes can spell.
pub proof fn law_u32_range(length: usize, buffer: &mut [u8; 4], slice: &mut [u8])
    requires
        call_ensures(<U32Length as LengthCodec>::as_slice, (buffer,), slice),
    ensures
        old(slice)@ == old(buffer)@,
        final(buffer)@ == final(slice)@,
        U32Length::readable(length) <==> length <= 0xffff_ffff,
        U32Length::decodable(length) <==> length <= 0xffff_ffff,
{
}

proof fn lemma_sum_u32(bytes: Seq<u8>)
    ensures
        bytes.len() >= 4 ==> big_endian::be_value(bytes.take(4)) == bytes[0] * 0x1000000
            + bytes[1] * 0x10000 + bytes[2] * 0x100 + bytes[3],
{
    if bytes.len() >= 4 {
        reveal_with_fuel(big_endian::be_value, 5);
        assert(bytes.take(1).drop_last() =~= bytes.take(0));
        assert(bytes.take(2).drop_last() =~= bytes.take(1));
        assert(bytes.take(3).drop_last() =~= bytes.take(2));
        assert(bytes.take(4).drop_last() =~= bytes.take(3));
    }
}

/// A `U64Length` encodes a length as its 8 lowest digits in base 256, most
/// significant digit first, into the whole of its buffer.
pub proof fn law_u64_encodes(length: usize, buffer: &mut [u8; 8], encoded: &[u8])
    requires
        call_ensures(<U64Length as LengthCodec>::encode, (length, buffer), encoded),
    ensures
        encoded@.len() == 8,
        forall|i: int|
            0 <= i < 8 ==> #[trigger] encoded@[i] == (length as int
                / power::pow(256, (7 - i) as nat))
                % 256,
        final(buffer)@ == encoded@,
{
    law_big_endian_digits(length as nat, 8);
    assert(old(buffer)@.skip(8) =~= Seq::<u8>::empty());
    assert(final(buffer)@ =~= encoded@);
}

/// A `U64Length` decodes the number that the first 8 bytes spell in base 256,
/// and fails exactly where there are fewer.
pub proof fn law_u64_decodes(
    buffer: &[u8],
    result: Result<(usize, &[u8]), NotEnoughBytesError>,
)
    requires
        call_ensures(<U64Length as LengthCodec>::decode, (buffer,), result),
    ensures
        match result {
            Ok((length, rest)) => {
                &&& buffer@.len() >= 8
                &&& usize::BITS == 64 ==> length == buffer@[0] * 0x100000000000000
                    + buffer@[1] * 0x1000000000000 + buffer@[2] * 0x10000000000
                    + buffer@[3] * 0x100000000 + buffer@[4] * 0x1000000 + buffer@[5] * 0x10000
                    + buffer@[6] * 0x100 + buffer@[7]
                &&& usize::BITS == 32 ==> length == (buffer@[0] * 0x100000000000000
                    + buffer@[1] * 0x1000000000000 + buffer@[2] * 0x10000000000
                    + buffer@[3] * 0x100000000 + buffer@[4] * 0x1000000 + buffer@[5] * 0x10000
                    + buffer@[6] * 0x100 + buffer@[7]) % 0x1_0000_0000
                &&& rest@ == buffer@.skip(8)
            },
            Err(_) => buffer@.len() < 8,
        },
{
    lemma_sum_u64(buffer@);
}

/// A `U64Length` is taken off a buffer as the number that the first 8 bytes
/// spell in base 256; where there are fewer, the buffer keeps them.
pub proof fn law_u64_is_taken<B: ByteSource>(
    buf: &mut B,
    result: Result<usize, NotEnoughBytesError>,
)
    requires
        call_ensures(<U64Length as LengthCodec>::decode_bytes::<B>, (buf,), result),
    ensures
        match result {
            Ok(length) => {
                &&& old(buf).rest().len() >= 8
                &&& usize::BITS == 64 ==> length == old(buf).rest()[0] * 0x100000000000000
                    + old(buf).rest()[1] * 0x1000000000000 + old(buf).rest()[2] * 0x10000000000
                    + old(buf).rest()[3] * 0x100000000 + old(buf).rest()[4] * 0x1000000
                    + old(buf).rest()[5] * 0x10000 + old(buf).rest()[6] * 0x100
                    + old(buf).rest()[7]
                &&& usize::BITS == 32 ==> length == (old(buf).rest()[0] * 0x100000000000000
                    + old(buf).rest()[1] * 0x1000000000000 + old(buf).rest()[2] * 0x10000000000
                    + old(buf).rest()[3] * 0x100000000 + old(buf).rest()[4] * 0x1000000
                    + old(buf).rest()[5] * 0x10000 + old(buf).rest()[6] * 0x100
                    + old(buf).rest()[7]) % 0x1_0000_0000
                &&& final(buf).rest() == old(buf).rest().skip(8)
            },
            Err(_) => old(buf).rest().len() < 8 && final(buf).rest() == old(buf).rest(),
        },
{
    lemma_sum_u64(old(buf).rest());
    assert(old(buf).rest().skip(0) =~= old(buf).rest());
}

/// A stream is read for the 8 bytes of a `U64Length`, as many as are missing.
pub proof fn law_u64_wants(read: &[u8], count: usize)
    requires
        call_ensures(<U64Length as LengthCodec>::wanted, (read,), count),
    ensures
        read@.len() <= 8 ==> read@.len() + count == 8,
        read@.len() > 8 ==> count == 0,
{
}

/// A stream that ends within a `U64Length` lacks bytes of it; one that fails
/// otherwise has its own error handed on.
pub proof fn law_u64_stream_error(
    ended: bool,
    error: std::io::Error,
    fault: WithIOError<NotEnoughBytesError>,
)
    requires
        call_ensures(<U64Length as LengthCodec>::stream_error, (ended, error), fault),
    ensures
        match fault {
            WithIOError::LengthDecodeError(_) => ended,
            WithIOError::IoError(cause) => !ended && cause == error,
        },
{
}

/// The buffer of a `U64Length` is its 8 bytes, and the lengths that come back
/// are those that 8 bytes can spell.
pub proof fn law_u64_range(length: usize, buffer: &mut [u8; 8], slice: &mut [u8])
    requires
        call_ensures(<U64Length as LengthCodec>::as_slice, (buffer,), slice),
    ensures
        old(slice)@ == old(buffer)@,
        final(buffer)@ == final(slice)@,
        U64Length::readable(length),
        U64Length::decodable(length),
{
}

proof fn lemma_sum_u64(bytes: Seq<u8>)
    ensures
        bytes.len() >= 8 ==> big_endian::be_value(bytes.take(8)) == bytes[0] * 0x100000000000000
            + bytes[1] * 0x1000000000000 + bytes[2] * 0x10000000000 + bytes[3] * 0x100000000
            + bytes[4] * 0x1000000 + bytes[5] * 0x10000 + bytes[6] * 0x100 + bytes[7],
{
    if bytes.len() >= 8 {
        reveal_with_fuel(big_endian::be_value, 9);
        assert(bytes.take(1).drop_last() =~= bytes.take(0));
        assert(bytes.take(2).drop_last() =~= bytes.take(1));
        assert(bytes.take(3).drop_last() =~= bytes.take(2));
        assert(bytes.take(4).drop_last() =~= bytes.take(3));
        assert(bytes.take(5).drop_last() =~= bytes.take(4));
        assert(bytes.take(6).drop_last() =~= bytes.take(5));
        assert(bytes.take(7).drop_last() =~= bytes.take(6));
        assert(bytes.take(8).drop_last() =~= bytes.take(7));
    }
}

/// The powers of 128 are the ranges of varint digits.
proof fn lemma_range_is_power(digits: nat)
    ensures
        varint::varint_range(digits) == power::pow(128, digits),
    decreases digits,
{
    reveal(power::pow);
    if digits > 0 {
        lemma_range_is_power((digits - 1) as nat);
    }
}

/// The digits of the varint that spells a number.
proof fn lemma_varint_digits(value: nat)
    ensures
        ({
            let bytes = varint::varint_encoding(value);
            &&& bytes.len() > 0
            &&& forall|i: int|
                0 <= i < bytes.len() - 1 ==> #[trigger] bytes[i] == 128 + (value as int
                    / power::pow(128, i as nat)) % 128
            &&& bytes.last() == value as int / power::pow(128, (bytes.len() - 1) as nat)
            &&& bytes.last() < 128
            &&& bytes.len() > 1 ==> bytes.last() > 0
        }),
    decreases value,
{
    reveal(power::pow);
    let bytes = varint::varint_encoding(value);
    varint::lemma_encoding_shape(value);
    if value >= 128 {
        let rest = varint::varint_encoding(value / 128);
        lemma_varint_digits(value / 128);
        assert(bytes.len() == rest.len() + 1);
        assert forall|i: int| 0 <= i < bytes.len() - 1 implies #[trigger] bytes[i] == 128 + (
        value as int / power::pow(128, i as nat)) % 128 by {
            if i > 0 {
                let lower = (i - 1) as nat;
                assert(bytes[i] == rest[i - 1]);
                power::lemma_pow_positive(128, lower);
                div_mod::lemma_div_denominator(value as int, 128, power::pow(128, lower));
            }
        }
        let lower = (rest.len() - 1) as nat;
        assert(bytes.last() == rest.last());
        power::lemma_pow_positive(128, lower);
        div_mod::lemma_div_denominator(value as int, 128, power::pow(128, lower));
    }
}

/// The number that a varint spells has the low seven bits of its bytes as
/// digits.
proof fn lemma_varint_value_digits(bytes: Seq<u8>)
    ensures
        varint::varint_value(bytes) < power::pow(128, bytes.len()),
        forall|i: int|
            0 <= i < bytes.len() ==> (varint::varint_value(bytes) as int / power::pow(
                128,
                i as nat,
            )) % 128 == #[trigger] bytes[i] % 128,
{
    varint::lemma_value_bound(bytes);
    lemma_range_is_power(bytes.len());
    assert forall|i: int| 0 <= i < bytes.len() implies (varint::varint_value(bytes) as int
        / power::pow(128, i as nat)) % 128 == #[trigger] bytes[i] % 128 by {
        lemma_varint_value_digit(bytes, i as nat);
    }
}

/// The digit at one position of the number that a varint spells.
proof fn lemma_varint_value_digit(bytes: Seq<u8>, at: nat)
    requires
        at < bytes.len(),
    ensures
        (varint::varint_value(bytes) as int / power::pow(128, at)) % 128 == bytes[at as int] as int
            % 128,
    decreases at,
{
    let rest = bytes.drop_first();
    let value = varint::varint_value(bytes) as int;
    let higher = varint::varint_value(rest) as int;
    let digit = bytes[0] as int % 128;
    assert(value == digit + 128 * higher);
    if at == 0 {
        power::lemma_pow0(128);
    } else {
        let lower = (at - 1) as nat;
        lemma_varint_value_digit(rest, lower);
        assert(rest[lower as int] == bytes[at as int]);
        assert(value / 128 == higher);
        power::lemma_pow_positive(128, lower);
        div_mod::lemma_div_denominator(value, 128, power::pow(128, lower));
        assert(power::pow(128, at) == 128 * power::pow(128, lower)) by {
            reveal(power::pow);
        }
    }
}

/// A varint is the digits of the length in base 128, the least significant one
/// first, each but the last with the high bit set; and it has no zero digit
/// too many.
pub proof fn law_varint_encodes(length: usize, buffer: &mut [u8; 10], encoded: &[u8])
    requires
        call_ensures(<VarintLength as LengthCodec>::encode, (length, buffer), encoded),
    ensures
        0 < encoded@.len() <= 10,
        forall|i: int|
            0 <= i < encoded@.len() - 1 ==> #[trigger] encoded@[i] == 128 + (length as int
                / power::pow(128, i as nat)) % 128,
        encoded@.last() == length as int / power::pow(128, (encoded@.len() - 1) as nat),
        encoded@.last() < 128,
        encoded@.len() > 1 ==> encoded@.last() > 0,
        final(buffer)@ == encoded@ + old(buffer)@.skip(encoded@.len() as int),
{
    varint::lemma_range_values();
    varint::lemma_encoding_len(length as nat, 10);
    lemma_varint_digits(length as nat);
}

/// A length is decoded from the bytes up to the first one with a clear high bit,
/// which it has as digits in base 128, the least significant one first; of the
/// last byte that a varint can have, only the bits that a `usize` has room for
/// count. It is refused where it ends in a zero digit that it could do without.
pub proof fn law_varint_decodes(
    buffer: &[u8],
    end: nat,
    result: Result<(usize, &[u8]), VarintLengthError>,
)
    requires
        call_ensures(<VarintLength as LengthCodec>::decode, (buffer,), result),
        end < buffer@.len(),
        usize::BITS == 32 ==> end < 5,
        usize::BITS == 64 ==> end < 10,
        forall|i: int| 0 <= i < end ==> #[trigger] buffer@[i] >= 128,
        buffer@[end as int] < 128,
    ensures
        match result {
            Ok((length, rest)) => {
                &&& end == 0 || buffer@[end as int] > 0
                &&& rest@ == buffer@.skip(end as int + 1)
                &&& forall|i: int|
                    0 <= i < end ==> (length as int / power::pow(128, i as nat)) % 128
                        == #[trigger] buffer@[i] % 128
                &&& length as int / power::pow(128, end) == if usize::BITS == 32 && end == 4 {
                    buffer@[end as int] % 16
                } else if usize::BITS == 64 && end == 9 {
                    buffer@[end as int] % 2
                } else {
                    buffer@[end as int]
                }
            },
            Err(error) => end > 0 && buffer@[end as int] == 0 && error
                == VarintLengthError::NotMinimal,
        },
{
    varint::lemma_extent_ends(buffer@, varint::max_len(), end);
    if let Ok((length, rest)) = result {
        let whole = buffer@.take(end as int + 1);
        let low = buffer@.take(end as int);
        let last = buffer@[end as int];
        let kept = if usize::BITS == 32 && end == 4 {
            (last % 16) as u8
        } else if usize::BITS == 64 && end == 9 {
            (last % 2) as u8
        } else {
            last
        };
        let spelt = low.push(kept);
        assert(whole =~= low.push(last));
        varint::lemma_value_push(low, last);
        varint::lemma_value_push(low, kept);
        varint::lemma_value_bound(low);
        varint::lemma_value_bound(whole);
        varint::lemma_range_values();
        lemma_digits_fit(end);
        assert(whole.len() == end + 1 && low.len() == end);
        let lower = varint::varint_value(low) as int;
        if usize::BITS == 64 && end == 9 {
            let top = last as int;
            assert(varint::varint_value(whole) == lower + top * 0x8000_0000_0000_0000);
            assert((lower + top * 0x8000_0000_0000_0000) % 0x1_0000_0000_0000_0000 == lower + (top
                % 2) * 0x8000_0000_0000_0000);
        } else if usize::BITS == 32 && end == 4 {
            let top = last as int;
            assert(varint::varint_value(whole) == lower + top * 0x1000_0000);
            assert((lower + top * 0x1000_0000) % 0x1_0000_0000 == lower + (top % 16)
                * 0x1000_0000);
        } else {
            assert(spelt =~= whole);
        }
        assert(length == varint::varint_value(spelt));
        lemma_varint_value_digits(spelt);
        assert forall|i: int| 0 <= i < end implies (length as int / power::pow(128, i as nat))
            % 128 == #[trigger] buffer@[i] % 128 by {
            assert(spelt[i] == buffer@[i]);
        }
        let unit = power::pow(128, end);
        power::lemma_pow_positive(128, end);
        lemma_range_is_power(end);
        div_mod::lemma_fundamental_div_mod_converse(
            length as int,
            unit,
            kept as int,
            varint::varint_value(low) as int,
        );
    }
}

/// The powers of 128 up to the width of a length.
proof fn lemma_digits_fit(end: nat)
    ensures
        usize::BITS == 32 && end < 4 ==> varint::varint_range(end + 1) <= 0x1_0000_0000,
        usize::BITS == 64 && end < 9 ==> varint::varint_range(end + 1) <= 0x1_0000_0000_0000_0000,
{
    reveal_with_fuel(varint::varint_range, 11);
}

/// Bytes of which none ends a varint call for more, or are too many.
pub proof fn law_varint_without_end(
    buffer: &[u8],
    result: Result<(usize, &[u8]), VarintLengthError>,
)
    requires
        call_ensures(<VarintLength as LengthCodec>::decode, (buffer,), result),
        forall|i: int|
            0 <= i < buffer@.len() && i < (if usize::BITS == 32 { 5int } else { 10 })
                ==> #[trigger] buffer@[i] >= 128,
    ensures
        match result {
            Ok(_) => false,
            Err(VarintLengthError::Insufficient) => buffer@.len() < (if usize::BITS == 32 {
                5int
            } else {
                10
            }),
            Err(VarintLengthError::Overflow) => buffer@.len() >= (if usize::BITS == 32 {
                5int
            } else {
                10
            }),
            Err(VarintLengthError::NotMinimal) => false,
        },
{
    varint::lemma_extent_open(buffer@, varint::max_len());
}

/// A length is taken off a buffer with the bytes up to the first one with a clear
/// high bit, if that comes soon enough: it has those bytes as digits in base
/// 128. It is refused, and its bytes are taken off all the same, where it ends
/// in a zero digit that it could do without.
pub proof fn law_varint_is_taken<B: ByteSource>(
    buf: &mut B,
    end: nat,
    result: Result<usize, VarintLengthError>,
)
    requires
        call_ensures(<VarintLength as LengthCodec>::decode_bytes::<B>, (buf,), result),
        end < buf.rest().len(),
        usize::BITS == 32 ==> end < 4,
        usize::BITS == 64 ==> end < 9,
        forall|i: int| 0 <= i < end ==> #[trigger] buf.rest()[i] >= 128,
        buf.rest()[end as int] < 128,
    ensures
        final(buf).rest() == old(buf).rest().skip(end as int + 1),
        match result {
            Ok(length) => {
                &&& end == 0 || old(buf).rest()[end as int] > 0
                &&& length < power::pow(128, end + 1)
                &&& forall|i: int|
                    0 <= i <= end ==> (length as int / power::pow(128, i as nat)) % 128
                        == #[trigger] old(buf).rest()[i] % 128
            },
            Err(error) => end > 0 && old(buf).rest()[end as int] == 0 && error
                == VarintLengthError::NotMinimal,
        },
{
    let bytes = old(buf).rest();
    varint::lemma_extent_ends(bytes, varint::max_read(), end);
    if let Ok(length) = result {
        let whole = bytes.take(end as int + 1);
        lemma_varint_value_digits(whole);
        lemma_digits_fit(end);
        varint::lemma_value_bound(whole);
        assert forall|i: int| 0 <= i <= end implies (length as int / power::pow(128, i as nat))
            % 128 == #[trigger] bytes[i] % 128 by {
            assert(whole[i] == bytes[i]);
        }
    }
}

/// A buffer in which no varint ends soon enough loses the bytes that were looked
/// at, and calls for more.
pub proof fn law_varint_is_not_taken<B: ByteSource>(
    buf: &mut B,
    result: Result<usize, VarintLengthError>,
)
    requires
        call_ensures(<VarintLength as LengthCodec>::decode_bytes::<B>, (buf,), result),
        forall|i: int|
            0 <= i < buf.rest().len() && i < (if usize::BITS == 32 { 4int } else { 9 })
                ==> #[trigger] buf.rest()[i] >= 128,
    ensures
        result matches Err(VarintLengthError::Insufficient),
        ({
            let most = if usize::BITS == 32 {
                4int
            } else {
                9
            };
            if old(buf).rest().len() <= most {
                final(buf).rest().len() == 0
            } else {
                final(buf).rest() == old(buf).rest().skip(most)
            }
        }),
{
    varint::lemma_extent_open(old(buf).rest(), varint::max_read());
}

/// A stream is read byte by byte, until one has a clear high bit or a varint can
/// have no more.
pub proof fn law_varint_wants(read: &[u8], count: usize)
    requires
        call_ensures(<VarintLength as LengthCodec>::wanted, (read,), count),
    ensures
        count <= 1,
        count == 0 <==> {
            ||| read@.len() >= (if usize::BITS == 32 { 5int } else { 10 })
            ||| read@.len() > 0 && read@[read@.len() - 1] < 128
        },
{
}

/// A stream that fails within a varint, or ends there, has its own error handed
/// on.
pub proof fn law_varint_stream_error(
    ended: bool,
    error: std::io::Error,
    fault: WithIOError<VarintLengthError>,
)
    requires
        call_ensures(<VarintLength as LengthCodec>::stream_error, (ended, error), fault),
    ensures
        fault == WithIOError::<VarintLengthError>::IoError(error),
{
}

/// The buffer of a varint is its 10 bytes; every length comes back from them, and
/// those of fewer than 64 (or 29) bits from a buffer.
pub proof fn law_varint_range(length: usize, buffer: &mut [u8; 10], slice: &mut [u8])
    requires
        call_ensures(<VarintLength as LengthCodec>::as_slice, (buffer,), slice),
    ensures
        old(slice)@ == old(buffer)@,
        final(buffer)@ == final(slice)@,
        VarintLength::decodable(length),
        usize::BITS == 64 ==> (VarintLength::readable(length) <==> length
            < 0x8000_0000_0000_0000),
        usize::BITS == 32 ==> (VarintLength::readable(length) <==> length < 0x1000_0000),
{
}

/// Every length can be encoded, any bytes can be decoded, and whatever a stream
/// has given or how it has failed can be asked about.
pub proof fn law_codecs_admit<L: LengthCodec, B: ByteSource>(
    length: usize,
    buffer: &mut L::Buffer,
    bytes: &[u8],
    buf: &mut B,
    ended: bool,
    error: std::io::Error,
)
    ensures
        call_requires(L::as_slice, (buffer,)),
        call_requires(L::encode, (length, buffer)),
        call_requires(L::decode, (bytes,)),
        call_requires(L::decode_bytes::<B>, (buf,)),
        call_requires(L::wanted, (bytes,)),
        call_requires(L::stream_error, (ended, error)),
{
}

} // verus!
