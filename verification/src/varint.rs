//! Lengths of variable width: base 128, least significant digit first, the
//! high bit of a byte set where another one follows.
use crate::buffers::ByteSource;
use crate::length_codec;
use crate::length_codec::{LengthCodec, WithIOError};
use crate::outside::unsigned_varint_crate;
use vstd::prelude::*;

verus! {

/// Why bytes are not a varint.
#[derive(Debug, Clone, Copy, PartialEq, Eq, Structural)]
pub enum VarintLengthError {
    /// The bytes stop before the varint does.
    Insufficient,
    /// The varint goes on for more bytes than a length can take up.
    Overflow,
    /// The varint ends in a zero digit, and a shorter one spells the same.
    NotMinimal,
}

impl VarintLengthError {
    /// The text shown for the error.
    pub open spec fn text(self) -> Seq<char> {
        match self {
            VarintLengthError::Insufficient => "not enough bytes for varint"@,
            VarintLengthError::Overflow => "too many bytes"@,
            VarintLengthError::NotMinimal => "not minimal, too many trailing zero bytes"@,
        }
    }

    /// The text shown for the error.
    pub fn message(&self) -> (text: &'static str)
        ensures
            text@ == self.text(),
    {
        match self {
            VarintLengthError::Insufficient => "not enough bytes for varint",
            VarintLengthError::Overflow => "too many bytes",
            VarintLengthError::NotMinimal => "not minimal, too many trailing zero bytes",
        }
    }
}

/// The error that an error of the `unsigned_varint` crate stands for.
pub open spec fn fault_of(error: unsigned_varint::decode::Error) -> VarintLengthError {
    match error {
        unsigned_varint::decode::Error::Insufficient => VarintLengthError::Insufficient,
        unsigned_varint::decode::Error::Overflow => VarintLengthError::Overflow,
        _ => VarintLengthError::NotMinimal,
    }
}

impl vstd::std_specs::convert::FromSpecImpl<unsigned_varint::decode::Error> for VarintLengthError {
    open spec fn obeys_from_spec() -> bool {
        true
    }

    open spec fn from_spec(error: unsigned_varint::decode::Error) -> Self {
        fault_of(error)
    }
}

impl From<unsigned_varint::decode::Error> for VarintLengthError {
    fn from(error: unsigned_varint::decode::Error) -> Self {
        match error {
            unsigned_varint::decode::Error::Insufficient => VarintLengthError::Insufficient,
            unsigned_varint::decode::Error::Overflow => VarintLengthError::Overflow,
            _ => VarintLengthError::NotMinimal,
        }
    }
}

/// The varint that spells `value`.
pub open spec fn varint_encoding(value: nat) -> Seq<u8>
    decreases value,
{
    if value < 128 {
        seq![value as u8]
    } else {
        seq![(128 + value % 128) as u8] + varint_encoding(value / 128)
    }
}

/// The number whose base-128 digits are the low seven bits of `bytes`, least
/// significant digit first.
pub open spec fn varint_value(bytes: Seq<u8>) -> nat
    decreases bytes.len(),
{
    if bytes.len() == 0 {
        0
    } else {
        bytes[0] as nat % 128 + 128 * varint_value(bytes.drop_first())
    }
}

/// How many of the first `limit` bytes the varint at the front of `bytes`
/// takes up, if it ends among them: it ends with the first byte whose high bit
/// is clear.
pub open spec fn varint_extent(bytes: Seq<u8>, limit: nat) -> Option<nat>
    decreases limit,
{
    if limit == 0 || bytes.len() == 0 {
        None
    } else if bytes[0] < 128 {
        Some(1)
    } else {
        match varint_extent(bytes.drop_first(), (limit - 1) as nat) {
            Some(extent) => Some(extent + 1),
            None => None,
        }
    }
}

/// How many numbers `digits` digits can spell.
pub open spec fn varint_range(digits: nat) -> nat
    decreases digits,
{
    if digits == 0 {
        1
    } else {
        128 * varint_range((digits - 1) as nat)
    }
}

/// The most bytes a varint of a `usize` takes up.
pub open spec fn max_len() -> nat {
    if usize::BITS == 32 {
        5
    } else {
        10
    }
}

/// The most bytes that are taken off a buffer for one length.
pub open spec fn max_read() -> nat {
    if usize::BITS == 32 {
        4
    } else {
        9
    }
}

/// Whether the varint of `extent` bytes at the front of `bytes` ends in a zero
/// digit that it could do without.
pub open spec fn ends_in_zero(bytes: Seq<u8>, extent: nat) -> bool {
    extent > 1 && bytes[extent - 1] == 0
}

/// The length at the front of `bytes`, and how many bytes it takes up.
pub open spec fn varint_decoding(bytes: Seq<u8>) -> Result<(usize, nat), VarintLengthError> {
    match varint_extent(bytes, max_len()) {
        Some(extent) => if ends_in_zero(bytes, extent) {
            Err(VarintLengthError::NotMinimal)
        } else {
            Ok((length_codec::low_word(varint_value(bytes.take(extent as int))), extent))
        },
        None => if bytes.len() < max_len() {
            Err(VarintLengthError::Insufficient)
        } else {
            Err(VarintLengthError::Overflow)
        },
    }
}

/// What taking a length off a buffer that holds `bytes` gives, and how many
/// bytes that takes.
pub open spec fn varint_reading(bytes: Seq<u8>) -> (Result<usize, VarintLengthError>, nat) {
    match varint_extent(bytes, max_read()) {
        Some(extent) => (
            if ends_in_zero(bytes, extent) {
                Err(VarintLengthError::NotMinimal)
            } else {
                Ok(varint_value(bytes.take(extent as int)) as usize)
            },
            extent,
        ),
        None => (
            Err(VarintLengthError::Insufficient),
            if bytes.len() < max_read() {
                bytes.len()
            } else {
                max_read()
            },
        ),
    }
}

/// A stream is read byte by byte, up to the end of the varint or to the most
/// bytes that one takes up.
pub open spec fn varint_wanting(read: Seq<u8>) -> nat {
    if read.len() >= max_len() || (read.len() > 0 && read.last() < 128) {
        0
    } else {
        1
    }
}

/// A varint ends with the first byte whose high bit is clear.
pub proof fn lemma_extent_ends(bytes: Seq<u8>, limit: nat, end: nat)
    requires
        end < bytes.len(),
        end < limit,
        forall|i: int| 0 <= i < end ==> #[trigger] bytes[i] >= 128,
        bytes[end as int] < 128,
    ensures
        varint_extent(bytes, limit) == Some((end + 1) as nat),
    decreases end,
{
    if end > 0 {
        let rest = bytes.drop_first();
        assert forall|i: int| 0 <= i < end - 1 implies #[trigger] rest[i] >= 128 by {
            assert(rest[i] == bytes[i + 1]);
        }
        lemma_extent_ends(rest, (limit - 1) as nat, (end - 1) as nat);
    }
}

/// A varint does not end where all the bytes looked at have the high bit set.
pub proof fn lemma_extent_open(bytes: Seq<u8>, limit: nat)
    requires
        forall|i: int| 0 <= i < bytes.len() && i < limit ==> #[trigger] bytes[i] >= 128,
    ensures
        varint_extent(bytes, limit) is None,
    decreases limit,
{
    if limit > 0 && bytes.len() > 0 {
        let rest = bytes.drop_first();
        assert forall|i: int| 0 <= i < rest.len() && i < limit - 1 implies #[trigger] rest[i]
            >= 128 by {
            assert(rest[i] == bytes[i + 1]);
        }
        lemma_extent_open(rest, (limit - 1) as nat);
    }
}

/// What the extent of a varint says of its bytes.
pub proof fn lemma_extent_bytes(bytes: Seq<u8>, limit: nat)
    ensures
        varint_extent(bytes, limit) matches Some(extent) ==> {
            &&& 0 < extent <= bytes.len()
            &&& extent <= limit
            &&& bytes[extent - 1] < 128
            &&& forall|i: int| 0 <= i < extent - 1 ==> #[trigger] bytes[i] >= 128
        },
    decreases limit,
{
    if limit > 0 && bytes.len() > 0 && bytes[0] >= 128 {
        let rest = bytes.drop_first();
        lemma_extent_bytes(rest, (limit - 1) as nat);
        if let Some(extent) = varint_extent(bytes, limit) {
            assert forall|i: int| 0 <= i < extent - 1 implies #[trigger] bytes[i] >= 128 by {
                if i > 0 {
                    assert(rest[i - 1] == bytes[i]);
                }
            }
        }
    }
}

/// A digit more at the end.
pub proof fn lemma_value_push(bytes: Seq<u8>, byte: u8)
    ensures
        varint_value(bytes.push(byte)) == varint_value(bytes) + (byte as nat % 128) * varint_range(
            bytes.len(),
        ),
    decreases bytes.len(),
{
    let digit = byte as nat % 128;
    if bytes.len() == 0 {
        assert(bytes.push(byte).drop_first() =~= Seq::<u8>::empty());
        assert(varint_range(0) == 1);
        assert(varint_value(Seq::<u8>::empty()) == 0);
    } else {
        let rest = bytes.drop_first();
        assert(bytes.push(byte).drop_first() =~= rest.push(byte));
        lemma_value_push(rest, byte);
        let unit = varint_range(rest.len());
        assert(varint_range(bytes.len()) == 128 * unit);
        assert(bytes.push(byte)[0] == bytes[0]);
        assert(128 * (digit * unit) == digit * (128 * unit)) by (nonlinear_arith);
    }
}

/// A number is smaller than the range of its digits.
pub proof fn lemma_value_bound(bytes: Seq<u8>)
    ensures
        varint_value(bytes) < varint_range(bytes.len()),
    decreases bytes.len(),
{
    if bytes.len() > 0 {
        lemma_value_bound(bytes.drop_first());
    }
}

/// The shape of a varint: all bytes but the last have the high bit set, and
/// the last digit is zero only where it is the only one.
pub proof fn lemma_encoding_shape(value: nat)
    ensures
        varint_encoding(value).len() > 0,
        varint_encoding(value).last() < 128,
        varint_encoding(value).len() > 1 ==> varint_encoding(value).last() != 0,
        forall|i: int|
            0 <= i < varint_encoding(value).len() - 1 ==> #[trigger] varint_encoding(value)[i]
                >= 128,
    decreases value,
{
    if value >= 128 {
        let bytes = varint_encoding(value);
        let rest = varint_encoding(value / 128);
        lemma_encoding_shape(value / 128);
        assert(bytes.last() == rest.last());
        if rest.len() == 1 && value / 128 >= 128 {
            lemma_encoding_shape(value / 128 / 128);
        }
        assert forall|i: int| 0 <= i < bytes.len() - 1 implies #[trigger] bytes[i] >= 128 by {
            if i > 0 {
                assert(bytes[i] == rest[i - 1]);
            }
        }
    }
}

/// The varint written for a number spells that number.
pub proof fn lemma_value_of_encoding(value: nat)
    ensures
        varint_value(varint_encoding(value)) == value,
    decreases value,
{
    let bytes = varint_encoding(value);
    if value >= 128 {
        lemma_value_of_encoding(value / 128);
        assert(bytes.drop_first() =~= varint_encoding(value / 128));
    } else {
        assert(varint_value(bytes.drop_first()) == 0);
    }
}

/// A number that `digits` digits can spell takes up at most so many bytes, and
/// no other number does.
pub proof fn lemma_encoding_len(value: nat, digits: nat)
    requires
        digits > 0,
    ensures
        varint_encoding(value).len() <= digits <==> value < varint_range(digits),
    decreases digits,
{
    lemma_encoding_shape(value);
    if value >= 128 {
        if digits > 1 {
            lemma_encoding_len(value / 128, (digits - 1) as nat);
        } else {
            lemma_encoding_shape(value / 128);
            reveal_with_fuel(varint_range, 2);
        }
    } else {
        lemma_range_grows(1, digits);
        reveal_with_fuel(varint_range, 2);
    }
}

/// More digits spell more numbers.
proof fn lemma_range_grows(fewer: nat, more: nat)
    requires
        fewer <= more,
    ensures
        0 < varint_range(fewer) <= varint_range(more),
    decreases more,
{
    if more > 0 {
        if fewer < more {
            lemma_range_grows(fewer, (more - 1) as nat);
        } else {
            lemma_range_grows((fewer - 1) as nat, (more - 1) as nat);
        }
    }
}

/// The powers of 128 that bound the widths of a length.
pub proof fn lemma_range_values()
    ensures
        varint_range(4) == 0x1000_0000,
        varint_range(5) == 0x8_0000_0000,
        varint_range(9) == 0x8000_0000_0000_0000,
        varint_range(10) == 0x40_0000_0000_0000_0000,
{
    reveal_with_fuel(varint_range, 11);
}

/// A varint stays whole in front of other bytes.
pub proof fn lemma_extent_of_encoding(value: nat, tail: Seq<u8>, limit: nat)
    requires
        varint_encoding(value).len() <= limit,
    ensures
        varint_extent(varint_encoding(value) + tail, limit) == Some(varint_encoding(value).len()),
        (varint_encoding(value) + tail).take(varint_encoding(value).len() as int)
            == varint_encoding(value),
        !ends_in_zero(varint_encoding(value) + tail, varint_encoding(value).len()),
{
    let bytes = varint_encoding(value) + tail;
    let end = (varint_encoding(value).len() - 1) as nat;
    lemma_encoding_shape(value);
    assert forall|i: int| 0 <= i < end implies #[trigger] bytes[i] >= 128 by {
        assert(bytes[i] == varint_encoding(value)[i]);
    }
    lemma_extent_ends(bytes, limit, end);
    assert(bytes.take((end + 1) as int) =~= varint_encoding(value));
}

/// Bytes in the shape of a varint are the varint of the number they spell.
pub proof fn lemma_encoding_of_value(bytes: Seq<u8>)
    requires
        bytes.len() > 0,
        bytes.last() < 128,
        bytes.len() > 1 ==> bytes.last() != 0,
        forall|i: int| 0 <= i < bytes.len() - 1 ==> #[trigger] bytes[i] >= 128,
    ensures
        varint_encoding(varint_value(bytes)) == bytes,
    decreases bytes.len(),
{
    let rest = bytes.drop_first();
    if bytes.len() == 1 {
        assert(varint_value(rest) == 0);
        assert(varint_encoding(varint_value(bytes)) =~= bytes);
    } else {
        assert(rest.last() == bytes.last());
        assert forall|i: int| 0 <= i < rest.len() - 1 implies #[trigger] rest[i] >= 128 by {
            assert(rest[i] == bytes[i + 1]);
        }
        lemma_encoding_of_value(rest);
        if varint_value(rest) == 0 {
            assert(rest[0] == 0);
        }
        assert(varint_value(bytes) / 128 == varint_value(rest));
        assert(varint_encoding(varint_value(bytes)) =~= bytes);
    }
}

/// Setting the digit at position `at` of a number with `at` digits adds it on.
proof fn lemma_set_digit(number: usize, digit: usize, at: usize)
    requires
        at < max_read(),
        number < varint_range(at as nat),
        digit < 128,
    ensures
        at * 7 < usize::BITS,
        number | (digit << (at * 7) as usize) == number + digit * varint_range(at as nat),
{
    let shift = (at * 7) as usize;
    reveal_with_fuel(varint_range, 10);
    vstd::arithmetic::power2::lemma2_to64();
    vstd::arithmetic::power2::lemma2_to64_rest();
    assert(vstd::arithmetic::power2::pow2(shift as nat) == varint_range(at as nat));
    let unit = varint_range(at as nat);
    assert(digit * unit <= 127 * unit) by (nonlinear_arith)
        requires
            digit < 128,
    ;
    vstd::bits::lemma_usize_shl_is_mul(digit, shift);
    vstd::bits::lemma_usize_shl_is_mul(1, shift);
    assert(number | (digit << shift) == number + (digit << shift)) by (bit_vector)
        requires
            usize::BITS == 32 ==> shift <= 21,
            shift <= 56,
            digit < 128,
            number < (1usize << shift),
    ;
}

/// Variable-bit length encoding using the `unsigned_varint` crate. Lengths below
/// 2^63 come back from a buffer.
#[derive(Debug)]
pub struct VarintLength;

impl LengthCodec for VarintLength {
    type Error = VarintLengthError;

    type Buffer = [u8; 10];

    open spec fn bytes_of(buffer: [u8; 10]) -> Seq<u8> {
        buffer@
    }

    open spec fn encoding(length: usize) -> Seq<u8> {
        varint_encoding(length as nat)
    }

    open spec fn decoding(bytes: Seq<u8>) -> Result<(usize, nat), VarintLengthError> {
        varint_decoding(bytes)
    }

    open spec fn reading(bytes: Seq<u8>) -> (Result<usize, VarintLengthError>, nat) {
        varint_reading(bytes)
    }

    open spec fn wanting(read: Seq<u8>) -> nat {
        varint_wanting(read)
    }

    open spec fn ending() -> Option<VarintLengthError> {
        None
    }

    open spec fn decodable(length: usize) -> bool {
        true
    }

    open spec fn readable(length: usize) -> bool {
        if usize::BITS == 32 {
            length < 0x1000_0000
        } else {
            length < 0x8000_0000_0000_0000
        }
    }

    fn as_slice(buffer: &mut [u8; 10]) -> (slice: &mut [u8]) {
        buffer
    }

    fn encode(length: usize, buffer: &mut [u8; 10]) -> (encoded: &[u8]) {
        proof {
            lemma_range_values();
            lemma_encoding_len(length as nat, 10);
        }
        unsigned_varint_crate::varint_encode_usize(length, buffer)
    }

    fn decode(buffer: &[u8]) -> (result: Result<(usize, &[u8]), VarintLengthError>) {
        match unsigned_varint::decode::usize(buffer) {
            Ok(decoded) => Ok(decoded),
            Err(error) => Err(VarintLengthError::from(error)),
        }
    }

    fn decode_bytes<B: ByteSource>(buf: &mut B) -> (result: Result<usize, VarintLengthError>) {
        let max_bytes: usize = if usize::BITS == 32 {
            4
        } else {
            9
        };
        let ghost bytes = buf.rest();
        let mut n: usize = 0;
        let mut i: usize = 0;
        proof {
            assert(bytes.skip(0) =~= bytes);
            assert(varint_value(bytes.take(0)) == 0);
        }
        while i < max_bytes
            invariant
                max_bytes == max_read(),
                i <= max_bytes,
                i <= bytes.len(),
                buf.rest() == bytes.skip(i as int),
                forall|j: int| 0 <= j < i ==> #[trigger] bytes[j] >= 128,
                n == varint_value(bytes.take(i as int)),
                bytes == old(buf).rest(),
            decreases max_bytes - i,
        {
            let b: u8 = match buf.try_get_u8() {
                Ok(b) => b,
                Err(_) => {
                    proof {
                        lemma_extent_open(bytes, max_read());
                        assert(bytes.skip(bytes.len() as int) =~= buf.rest());
                    }
                    return Err(VarintLengthError::Insufficient);
                },
            };
            let k: usize = (b & 0x7f) as usize;
            proof {
                assert(b & 0x7f == b % 128) by (bit_vector);
                assert(bytes.skip(i as int).skip(1) =~= bytes.skip(i + 1));
                assert(bytes.take(i + 1) =~= bytes.take(i as int).push(b));
                lemma_value_push(bytes.take(i as int), b);
                lemma_value_bound(bytes.take(i as int));
                lemma_set_digit(n, k, i);
            }
            n = n | (k << (i * 7));
            if unsigned_varint::decode::is_last(b) {
                proof {
                    assert(b & 0x80 == 0 ==> b < 128) by (bit_vector);
                    lemma_extent_ends(bytes, max_read(), i as nat);
                }
                if b == 0 && i > 0 {
                    return Err(VarintLengthError::NotMinimal);
                }
                return Ok(n);
            }
            assert(b & 0x80 != 0 ==> b >= 128) by (bit_vector);
            i = i + 1;
        }
        proof {
            lemma_extent_open(bytes, max_read());
        }
        Err(VarintLengthError::Insufficient)
    }

    fn wanted(read: &[u8]) -> (count: usize) {
        let max_bytes: usize = if usize::BITS == 32 {
            5
        } else {
            10
        };
        if read.len() >= max_bytes {
            return 0;
        }
        if read.len() == 0 {
            return 1;
        }
        let last: u8 = read[read.len() - 1];
        assert(last & 0x80 == 0 <==> last < 128) by (bit_vector);
        if unsigned_varint::decode::is_last(last) {
            0
        } else {
            1
        }
    }

    fn stream_error(ended: bool, error: std::io::Error) -> (fault: WithIOError<
        VarintLengthError,
    >) {
        WithIOError::IoError(error)
    }

    proof fn decoding_within(bytes: Seq<u8>) {
        lemma_extent_bytes(bytes, max_len());
        lemma_extent_bytes(bytes, max_read());
    }

    proof fn encoding_decodes(length: usize, tail: Seq<u8>) {
        lemma_range_values();
        lemma_encoding_len(length as nat, max_len());
        lemma_extent_of_encoding(length as nat, tail, max_len());
        lemma_value_of_encoding(length as nat);
    }

    proof fn encoding_reads(length: usize, tail: Seq<u8>) {
        lemma_range_values();
        lemma_encoding_len(length as nat, max_read());
        lemma_extent_of_encoding(length as nat, tail, max_read());
        lemma_value_of_encoding(length as nat);
    }

    proof fn reading_decodes(bytes: Seq<u8>) {
        lemma_extent_bytes(bytes, max_read());
        if let Some(extent) = varint_extent(bytes, max_read()) {
            lemma_extent_ends(bytes, max_len(), (extent - 1) as nat);
            lemma_value_bound(bytes.take(extent as int));
            lemma_range_grows(extent, max_read());
            lemma_range_values();
        }
    }

    proof fn decoding_streams(bytes: Seq<u8>, given: nat) {
        lemma_extent_bytes(bytes, max_len());
        if let Some(extent) = varint_extent(bytes, max_len()) {
            let whole = bytes.take(extent as int);
            lemma_extent_ends(whole, max_len(), (extent - 1) as nat);
            assert(whole.take(extent as int) =~= whole);
            if 0 < given <= extent {
                assert(bytes.take(given as int).last() == bytes[given - 1]);
            }
        }
    }
}

} // verus!
