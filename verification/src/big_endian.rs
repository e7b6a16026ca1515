//! Lengths of a fixed width, most significant byte first.
use crate::buffers::ByteSource;
use crate::length_codec;
use crate::length_codec::{LengthCodec, NotEnoughBytesError, WithIOError};
use vstd::prelude::*;

verus! {

/// The `width` lowest bytes of `value`, most significant byte first.
pub open spec fn be_encoding(value: nat, width: nat) -> Seq<u8>
    decreases width,
{
    if width == 0 {
        Seq::empty()
    } else {
        be_encoding(value / 256, (width - 1) as nat).push((value % 256) as u8)
    }
}

/// The number that `bytes` spell, most significant byte first.
pub open spec fn be_value(bytes: Seq<u8>) -> nat
    decreases bytes.len(),
{
    if bytes.len() == 0 {
        0
    } else {
        256 * be_value(bytes.drop_last()) + bytes.last() as nat
    }
}

/// How many numbers `width` bytes can spell.
pub open spec fn be_range(width: nat) -> nat
    decreases width,
{
    if width == 0 {
        1
    } else {
        256 * be_range((width - 1) as nat)
    }
}

/// The length in the first `width` of `bytes`.
pub open spec fn be_decoding(bytes: Seq<u8>, width: nat) -> Result<
    (usize, nat),
    NotEnoughBytesError,
> {
    if bytes.len() < width {
        Err(NotEnoughBytesError)
    } else {
        Ok((length_codec::low_word(be_value(bytes.take(width as int))), width))
    }
}

/// What taking the length off a buffer gives, and how many bytes it takes.
pub open spec fn be_reading(bytes: Seq<u8>, width: nat) -> (
    Result<usize, NotEnoughBytesError>,
    nat,
) {
    match be_decoding(bytes, width) {
        Ok((length, used)) => (Ok(length), used),
        Err(error) => (Err(error), 0),
    }
}

/// How many of the `width` bytes are still to come.
pub open spec fn be_wanting(read: Seq<u8>, width: nat) -> nat {
    if read.len() < width {
        (width - read.len()) as nat
    } else {
        0
    }
}

/// A number takes up as many bytes as it is given.
pub proof fn lemma_be_encoding_len(value: nat, width: nat)
    ensures
        be_encoding(value, width).len() == width,
    decreases width,
{
    if width > 0 {
        lemma_be_encoding_len(value / 256, (width - 1) as nat);
    }
}

/// The bytes written for a number spell that number, as far as they reach.
pub proof fn lemma_be_value_of_encoding(value: nat, width: nat)
    requires
        value < be_range(width),
    ensures
        be_value(be_encoding(value, width)) == value,
    decreases width,
{
    if width > 0 {
        let high = be_encoding(value / 256, (width - 1) as nat);
        lemma_be_value_of_encoding(value / 256, (width - 1) as nat);
        assert(be_encoding(value, width).drop_last() =~= high);
    }
}

/// The bytes written for any number spell its remainder.
pub proof fn lemma_be_value_remainder(value: nat, width: nat)
    ensures
        be_range(width) > 0,
        be_value(be_encoding(value, width)) == value % be_range(width),
        value % be_range(width) <= value,
    decreases width,
{
    if width > 0 {
        let low = (width - 1) as nat;
        let unit = be_range(low);
        lemma_be_value_remainder(value / 256, low);
        assert(be_encoding(value, width).drop_last() =~= be_encoding(value / 256, low));
        vstd::arithmetic::div_mod::lemma_mod_breakdown(value as int, 256, unit as int);
        vstd::arithmetic::div_mod::lemma_mod_decreases(value, be_range(width));
    }
}

/// A number is smaller than the range of its bytes.
pub proof fn lemma_be_value_bound(bytes: Seq<u8>)
    ensures
        be_value(bytes) < be_range(bytes.len()),
    decreases bytes.len(),
{
    if bytes.len() > 0 {
        lemma_be_value_bound(bytes.drop_last());
    }
}

/// Writes the lowest bytes of `value` over all of `buffer`.
fn be_write(value: u64, buffer: &mut [u8])
    ensures
        final(buffer)@ == be_encoding(value as nat, old(buffer)@.len()),
{
    let width: usize = buffer.len();
    let mut left: u64 = value;
    let mut at: usize = width;
    assert(be_encoding(value as nat, width as nat) =~= be_encoding(left as nat, at as nat)
        + buffer@.skip(at as int)) by {
        lemma_be_encoding_len(value as nat, width as nat);
    }
    while at > 0
        invariant
            at <= width,
            buffer@.len() == width,
            be_encoding(value as nat, width as nat) == be_encoding(left as nat, at as nat)
                + buffer@.skip(at as int),
        decreases at,
    {
        let ghost before = buffer@;
        buffer[at - 1] = (left % 256) as u8;
        proof {
            let high = be_encoding((left / 256) as nat, (at - 1) as nat);
            lemma_be_encoding_len((left / 256) as nat, (at - 1) as nat);
            assert(be_encoding(left as nat, at as nat) + before.skip(at as int) =~= high
                + buffer@.skip(at - 1));
        }
        left = left / 256;
        at = at - 1;
    }
    assert(buffer@.skip(0) =~= buffer@);
    assert(be_encoding(left as nat, 0) + buffer@ =~= buffer@);
}

/// Reads all of `bytes` as one number.
fn be_read(bytes: &[u8]) -> (value: u64)
    requires
        bytes@.len() <= 8,
    ensures
        value == be_value(bytes@),
{
    let mut value: u64 = 0;
    let mut at: usize = 0;
    while at < bytes.len()
        invariant
            bytes@.len() <= 8,
            at <= bytes@.len(),
            value == be_value(bytes@.take(at as int)),
        decreases bytes@.len() - at,
    {
        proof {
            let next = bytes@.take(at + 1);
            assert(next.drop_last() =~= bytes@.take(at as int));
            lemma_be_value_bound(bytes@.take(at as int));
            lemma_be_range_in_u64(at as nat);
        }
        value = value * 256 + bytes[at] as u64;
        at = at + 1;
    }
    assert(bytes@.take(at as int) =~= bytes@);
    value
}

/// The range of fewer than eight bytes leaves a `u64` room for another byte.
proof fn lemma_be_range_in_u64(width: nat)
    requires
        width < 8,
    ensures
        be_range(width) <= 0x100_0000_0000_0000,
{
    reveal_with_fuel(be_range, 9);
}

/// `value` as a `usize`, without the bits that a `usize` has no room for.
fn to_usize(value: u64) -> (word: usize)
    ensures
        word == length_codec::low_word(value as nat),
{
    assert(usize::BITS == 32 ==> value as usize == value % 0x1_0000_0000) by (bit_vector);
    value as usize
}

/// Splits a length of `width` bytes off the front of `buffer`.
fn be_decode(buffer: &[u8], width: usize) -> (result: Result<(usize, &[u8]), NotEnoughBytesError>)
    requires
        width <= 8,
    ensures
        match result {
            Ok((length, rest)) => {
                &&& be_decoding(buffer@, width as nat) matches Ok((decoded, used))
                &&& length == decoded
                &&& rest@ == buffer@.skip(used as int)
            },
            Err(error) => be_decoding(buffer@, width as nat) matches Err(fault) && error == fault,
        },
{
    if buffer.len() < width {
        return Err(NotEnoughBytesError);
    }
    let (head, rest) = buffer.split_at(width);
    assert(head@ =~= buffer@.take(width as int));
    assert(rest@ =~= buffer@.skip(width as int));
    Ok((to_usize(be_read(head)), rest))
}

/// Takes a length as wide as `head` off the front of `buf`, by way of `head`.
fn be_decode_bytes<B: ByteSource>(buf: &mut B, head: &mut [u8]) -> (result: Result<
    usize,
    NotEnoughBytesError,
>)
    requires
        old(head)@.len() <= 8,
    ensures
        result == be_reading(old(buf).rest(), old(head)@.len()).0,
        final(buf).rest() == old(buf).rest().skip(
            be_reading(old(buf).rest(), old(head)@.len()).1 as int,
        ),
{
    let ghost bytes = buf.rest();
    assert(bytes.skip(0) =~= bytes);
    match buf.try_copy_to_slice(head) {
        Ok(()) => Ok(to_usize(be_read(head))),
        Err(_) => Err(NotEnoughBytesError),
    }
}

/// How many of the `width` bytes are still to come after `read`.
fn be_wanted(read: &[u8], width: usize) -> (count: usize)
    ensures
        count == be_wanting(read@, width as nat),
{
    if read.len() < width {
        width - read.len()
    } else {
        0
    }
}

/// The error for a stream that failed within a length of fixed width.
fn be_stream_error(ended: bool, error: std::io::Error) -> (fault: WithIOError<NotEnoughBytesError>)
    ensures
        fault == if ended {
            WithIOError::LengthDecodeError(NotEnoughBytesError)
        } else {
            WithIOError::IoError(error)
        },
{
    if ended {
        WithIOError::LengthDecodeError(NotEnoughBytesError)
    } else {
        WithIOError::IoError(error)
    }
}

/// A number that fits comes back from its bytes, whatever follows them.
pub proof fn lemma_be_roundtrip(length: usize, width: nat, tail: Seq<u8>)
    requires
        length < be_range(width),
    ensures
        be_decoding(be_encoding(length as nat, width) + tail, width) == Ok::<
            (usize, nat),
            NotEnoughBytesError,
        >((length, width)),
{
    let encoded = be_encoding(length as nat, width);
    lemma_be_encoding_len(length as nat, width);
    lemma_be_value_of_encoding(length as nat, width);
    assert((encoded + tail).take(width as int) =~= encoded);
}

/// The bytes of a number are asked for, and none behind them.
pub proof fn lemma_be_streams(bytes: Seq<u8>, width: nat, given: nat)
    requires
        width <= bytes.len(),
        given <= width,
    ensures
        be_decoding(bytes.take(width as int), width) == be_decoding(bytes, width),
        be_wanting(bytes.take(given as int), width) == width - given,
{
    assert(bytes.take(width as int).take(width as int) =~= bytes.take(width as int));
}

/// Big-endian fixed-size integer length encoding, of 1 byte.
#[derive(Debug)]
pub struct U8Length;

impl LengthCodec for U8Length {
    type Error = NotEnoughBytesError;

    type Buffer = [u8; 1];

    open spec fn bytes_of(buffer: [u8; 1]) -> Seq<u8> {
        buffer@
    }

    open spec fn encoding(length: usize) -> Seq<u8> {
        be_encoding(length as nat, 1)
    }

    open spec fn decoding(bytes: Seq<u8>) -> Result<(usize, nat), NotEnoughBytesError> {
        be_decoding(bytes, 1)
    }

    open spec fn reading(bytes: Seq<u8>) -> (Result<usize, NotEnoughBytesError>, nat) {
        be_reading(bytes, 1)
    }

    open spec fn wanting(read: Seq<u8>) -> nat {
        be_wanting(read, 1)
    }

    open spec fn ending() -> Option<NotEnoughBytesError> {
        Some(NotEnoughBytesError)
    }

    open spec fn decodable(length: usize) -> bool {
        length < 0x100
    }

    open spec fn readable(length: usize) -> bool {
        length < 0x100
    }

    fn as_slice(buffer: &mut [u8; 1]) -> (slice: &mut [u8]) {
        buffer
    }

    fn encode(length: usize, buffer: &mut [u8; 1]) -> (encoded: &[u8]) {
        be_write(length as u64, buffer);
        assert(buffer@ =~= buffer@ + old(buffer)@.skip(1));
        buffer
    }

    fn decode(buffer: &[u8]) -> (result: Result<(usize, &[u8]), NotEnoughBytesError>) {
        be_decode(buffer, 1)
    }

    fn decode_bytes<B: ByteSource>(buf: &mut B) -> (result: Result<usize, NotEnoughBytesError>) {
        let mut head = [0u8; 1];
        be_decode_bytes(buf, &mut head)
    }

    fn wanted(read: &[u8]) -> (count: usize) {
        be_wanted(read, 1)
    }

    fn stream_error(ended: bool, error: std::io::Error) -> (fault: WithIOError<
        NotEnoughBytesError,
    >) {
        be_stream_error(ended, error)
    }

    proof fn decoding_within(bytes: Seq<u8>) {
    }

    proof fn encoding_decodes(length: usize, tail: Seq<u8>) {
        reveal_with_fuel(be_range, 2);
        lemma_be_encoding_len(length as nat, 1);
        lemma_be_roundtrip(length, 1, tail);
    }

    proof fn encoding_reads(length: usize, tail: Seq<u8>) {
        Self::encoding_decodes(length, tail);
    }

    proof fn reading_decodes(bytes: Seq<u8>) {
    }

    proof fn decoding_streams(bytes: Seq<u8>, given: nat) {
        if 1 <= bytes.len() {
            lemma_be_streams(bytes, 1, 0);
            if given <= 1 {
                lemma_be_streams(bytes, 1, given);
            }
        }
    }
}

/// Big-endian fixed-size integer length encoding, of 2 bytes.
#[derive(Debug)]
pub struct U16Length;

impl LengthCodec for U16Length {
    type Error = NotEnoughBytesError;

    type Buffer = [u8; 2];

    open spec fn bytes_of(buffer: [u8; 2]) -> Seq<u8> {
        buffer@
    }

    open spec fn encoding(length: usize) -> Seq<u8> {
        be_encoding(length as nat, 2)
    }

    open spec fn decoding(bytes: Seq<u8>) -> Result<(usize, nat), NotEnoughBytesError> {
        be_decoding(bytes, 2)
    }

    open spec fn reading(bytes: Seq<u8>) -> (Result<usize, NotEnoughBytesError>, nat) {
        be_reading(bytes, 2)
    }

    open spec fn wanting(read: Seq<u8>) -> nat {
        be_wanting(read, 2)
    }

    open spec fn ending() -> Option<NotEnoughBytesError> {
        Some(NotEnoughBytesError)
    }

    open spec fn decodable(length: usize) -> bool {
        length < 0x1_0000
    }

    open spec fn readable(length: usize) -> bool {
        length < 0x1_0000
    }

    fn as_slice(buffer: &mut [u8; 2]) -> (slice: &mut [u8]) {
        buffer
    }

    fn encode(length: usize, buffer: &mut [u8; 2]) -> (encoded: &[u8]) {
        be_write(length as u64, buffer);
        assert(buffer@ =~= buffer@ + old(buffer)@.skip(2));
        buffer
    }

    fn decode(buffer: &[u8]) -> (result: Result<(usize, &[u8]), NotEnoughBytesError>) {
        be_decode(buffer, 2)
    }

    fn decode_bytes<B: ByteSource>(buf: &mut B) -> (result: Result<usize, NotEnoughBytesError>) {
        let mut head = [0u8; 2];
        be_decode_bytes(buf, &mut head)
    }

    fn wanted(read: &[u8]) -> (count: usize) {
        be_wanted(read, 2)
    }

    fn stream_error(ended: bool, error: std::io::Error) -> (fault: WithIOError<
        NotEnoughBytesError,
    >) {
        be_stream_error(ended, error)
    }

    proof fn decoding_within(bytes: Seq<u8>) {
    }

    proof fn encoding_decodes(length: usize, tail: Seq<u8>) {
        reveal_with_fuel(be_range, 3);
        lemma_be_encoding_len(length as nat, 2);
        lemma_be_roundtrip(length, 2, tail);
    }

    proof fn encoding_reads(length: usize, tail: Seq<u8>) {
        Self::encoding_decodes(length, tail);
    }

    proof fn reading_decodes(bytes: Seq<u8>) {
    }

    proof fn decoding_streams(bytes: Seq<u8>, given: nat) {
        if 2 <= bytes.len() {
            lemma_be_streams(bytes, 2, 0);
            if given <= 2 {
                lemma_be_streams(bytes, 2, given);
            }
        }
    }
}

/// Big-endian fixed-size integer length encoding, of 4 bytes.
#[derive(Debug)]
pub struct U32Length;

impl LengthCodec for U32Length {
    type Error = NotEnoughBytesError;

    type Buffer = [u8; 4];

    open spec fn bytes_of(buffer: [u8; 4]) -> Seq<u8> {
        buffer@
    }

    open spec fn encoding(length: usize) -> Seq<u8> {
        be_encoding(length as nat, 4)
    }

    open spec fn decoding(bytes: Seq<u8>) -> Result<(usize, nat), NotEnoughBytesError> {
        be_decoding(bytes, 4)
    }

    open spec fn reading(bytes: Seq<u8>) -> (Result<usize, NotEnoughBytesError>, nat) {
        be_reading(bytes, 4)
    }

    open spec fn wanting(read: Seq<u8>) -> nat {
        be_wanting(read, 4)
    }

    open spec fn ending() -> Option<NotEnoughBytesError> {
        Some(NotEnoughBytesError)
    }

    open spec fn decodable(length: usize) -> bool {
        length < 0x1_0000_0000
    }

    open spec fn readable(length: usize) -> bool {
        length < 0x1_0000_0000
    }

    fn as_slice(buffer: &mut [u8; 4]) -> (slice: &mut [u8]) {
        buffer
    }

    fn encode(length: usize, buffer: &mut [u8; 4]) -> (encoded: &[u8]) {
        be_write(length as u64, buffer);
        assert(buffer@ =~= buffer@ + old(buffer)@.skip(4));
        buffer
    }

    fn decode(buffer: &[u8]) -> (result: Result<(usize, &[u8]), NotEnoughBytesError>) {
        be_decode(buffer, 4)
    }

    fn decode_bytes<B: ByteSource>(buf: &mut B) -> (result: Result<usize, NotEnoughBytesError>) {
        let mut head = [0u8; 4];
        be_decode_bytes(buf, &mut head)
    }

    fn wanted(read: &[u8]) -> (count: usize) {
        be_wanted(read, 4)
    }

    fn stream_error(ended: bool, error: std::io::Error) -> (fault: WithIOError<
        NotEnoughBytesError,
    >) {
        be_stream_error(ended, error)
    }

    proof fn decoding_within(bytes: Seq<u8>) {
    }

    proof fn encoding_decodes(length: usize, tail: Seq<u8>) {
        reveal_with_fuel(be_range, 5);
        lemma_be_encoding_len(length as nat, 4);
        lemma_be_roundtrip(length, 4, tail);
    }

    proof fn encoding_reads(length: usize, tail: Seq<u8>) {
        Self::encoding_decodes(length, tail);
    }

    proof fn reading_decodes(bytes: Seq<u8>) {
    }

    proof fn decoding_streams(bytes: Seq<u8>, given: nat) {
        if 4 <= bytes.len() {
            lemma_be_streams(bytes, 4, 0);
            if given <= 4 {
                lemma_be_streams(bytes, 4, given);
            }
        }
    }
}

/// Big-endian fixed-size integer length encoding, of 8 bytes.
#[derive(Debug)]
pub struct U64Length;

impl LengthCodec for U64Length {
    type Error = NotEnoughBytesError;

    type Buffer = [u8; 8];

    open spec fn bytes_of(buffer: [u8; 8]) -> Seq<u8> {
        buffer@
    }

    open spec fn encoding(length: usize) -> Seq<u8> {
        be_encoding(length as nat, 8)
    }

    open spec fn decoding(bytes: Seq<u8>) -> Result<(usize, nat), NotEnoughBytesError> {
        be_decoding(bytes, 8)
    }

    open spec fn reading(bytes: Seq<u8>) -> (Result<usize, NotEnoughBytesError>, nat) {
        be_reading(bytes, 8)
    }

    open spec fn wanting(read: Seq<u8>) -> nat {
        be_wanting(read, 8)
    }

    open spec fn ending() -> Option<NotEnoughBytesError> {
        Some(NotEnoughBytesError)
    }

    open spec fn decodable(length: usize) -> bool {
        true
    }

    open spec fn readable(length: usize) -> bool {
        true
    }

    fn as_slice(buffer: &mut [u8; 8]) -> (slice: &mut [u8]) {
        buffer
    }

    fn encode(length: usize, buffer: &mut [u8; 8]) -> (encoded: &[u8]) {
        be_write(length as u64, buffer);
        assert(buffer@ =~= buffer@ + old(buffer)@.skip(8));
        buffer
    }

    fn decode(buffer: &[u8]) -> (result: Result<(usize, &[u8]), NotEnoughBytesError>) {
        be_decode(buffer, 8)
    }

    fn decode_bytes<B: ByteSource>(buf: &mut B) -> (result: Result<usize, NotEnoughBytesError>) {
        let mut head = [0u8; 8];
        be_decode_bytes(buf, &mut head)
    }

    fn wanted(read: &[u8]) -> (count: usize) {
        be_wanted(read, 8)
    }

    fn stream_error(ended: bool, error: std::io::Error) -> (fault: WithIOError<
        NotEnoughBytesError,
    >) {
        be_stream_error(ended, error)
    }

    proof fn decoding_within(bytes: Seq<u8>) {
    }

    proof fn encoding_decodes(length: usize, tail: Seq<u8>) {
        reveal_with_fuel(be_range, 9);
        lemma_be_encoding_len(length as nat, 8);
        lemma_be_roundtrip(length, 8, tail);
    }

    proof fn encoding_reads(length: usize, tail: Seq<u8>) {
        Self::encoding_decodes(length, tail);
    }

    proof fn reading_decodes(bytes: Seq<u8>) {
    }

    proof fn decoding_streams(bytes: Seq<u8>, given: nat) {
        if 8 <= bytes.len() {
            lemma_be_streams(bytes, 8, 0);
            if given <= 8 {
                lemma_be_streams(bytes, 8, given);
            }
        }
    }
}

} // verus!
