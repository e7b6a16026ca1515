//! Length prefixes: the trait that every encoding of a length implements, and
//! the reader that takes one from a stream piece by piece.
use crate::buffers::ByteSource;
use core::marker::PhantomData;
use vstd::prelude::*;

verus! {

/// Why a length could not be read from a stream.
#[derive(Debug)]
pub enum WithIOError<E> {
    /// The bytes are not a length.
    LengthDecodeError(E),
    /// The stream failed.
    IoError(std::io::Error),
}

/// Error emitted by const-length encodings when there aren't bytes in the
/// passed buffer when decoding.
#[derive(Debug, Clone, Copy, PartialEq, Eq, Structural)]
pub struct NotEnoughBytesError;

impl NotEnoughBytesError {
    /// The text shown for the error.
    pub fn message(&self) -> (text: &'static str)
        ensures
            text@ == "not enough bytes in buffer to decode length"@,
    {
        "not enough bytes in buffer to decode length"
    }
}

/// `value` as a `usize`, without the bits that a `usize` has no room for.
pub open spec fn low_word(value: nat) -> usize {
    if usize::BITS == 32 {
        (value % 0x1_0000_0000) as usize
    } else {
        (value % 0x1_0000_0000_0000_0000) as usize
    }
}

/// Length encoding trait, allows for different kinds of length encoding.
pub trait LengthCodec: core::fmt::Debug + Sized + 'static {
    /// Why bytes are not a length.
    type Error: core::fmt::Debug + Send + Sync + 'static;

    /// Holds an encoded length.
    type Buffer: Default + Sized + Send;

    /// The bytes in a buffer.
    spec fn bytes_of(buffer: Self::Buffer) -> Seq<u8>;

    /// The bytes that stand for `length`.
    spec fn encoding(length: usize) -> Seq<u8>;

    /// The length at the front of `bytes`, and how many bytes it takes up.
    spec fn decoding(bytes: Seq<u8>) -> Result<(usize, nat), Self::Error>;

    /// What reading a length from a buffer that holds `bytes` gives, and how
    /// many bytes that takes off the buffer.
    spec fn reading(bytes: Seq<u8>) -> (Result<usize, Self::Error>, nat);

    /// How many bytes a stream must still give, all at once, before the next
    /// decision, where it has given `read`; none where the length is complete.
    spec fn wanting(read: Seq<u8>) -> nat;

    /// The error for a stream that ends within the length, where that is one
    /// of the length and not one of the stream.
    spec fn ending() -> Option<Self::Error>;

    /// The lengths that [`Self::decode`] gives back as they were encoded.
    spec fn decodable(length: usize) -> bool;

    /// The lengths that [`Self::decode_bytes`] gives back as they were encoded.
    spec fn readable(length: usize) -> bool;

    /// The whole buffer as a slice.
    fn as_slice(buffer: &mut Self::Buffer) -> (slice: &mut [u8])
        ensures
            slice@ == Self::bytes_of(*old(buffer)),
            Self::bytes_of(*final(buffer)) == final(slice)@,
    ;

    /// Encode into buffer and return part of buffer that was written to.
    fn encode(length: usize, buffer: &mut Self::Buffer) -> (encoded: &[u8])
        ensures
            encoded@ == Self::encoding(length),
            Self::bytes_of(*final(buffer)) == encoded@ + Self::bytes_of(*old(buffer)).skip(
                encoded@.len() as int,
            ),
            Self::bytes_of(*final(buffer)).len() == Self::bytes_of(*old(buffer)).len(),
    ;

    /// Decode from buffer, fails if length is formatted incorrectly, returns
    /// length and remaining buffer.
    fn decode(buffer: &[u8]) -> (result: Result<(usize, &[u8]), Self::Error>)
        ensures
            match result {
                Ok((length, rest)) => {
                    &&& Self::decoding(buffer@) matches Ok((decoded, used))
                    &&& length == decoded
                    &&& rest@ == buffer@.skip(used as int)
                },
                Err(error) => Self::decoding(buffer@) matches Err(fault) && error == fault,
            },
    ;

    /// Takes a length off the front of `buf`.
    fn decode_bytes<B: ByteSource>(buf: &mut B) -> (result: Result<usize, Self::Error>)
        ensures
            result == Self::reading(old(buf).rest()).0,
            final(buf).rest() == old(buf).rest().skip(Self::reading(old(buf).rest()).1 as int),
    ;

    /// How many bytes to read from a stream next, after those in `read`; zero
    /// where `read` holds the whole length.
    fn wanted(read: &[u8]) -> (count: usize)
        ensures
            count == Self::wanting(read@),
    ;

    /// The error for a stream that failed within the length; `ended` says that
    /// it came to its end.
    fn stream_error(ended: bool, error: std::io::Error) -> (fault: WithIOError<Self::Error>)
        ensures
            fault == match Self::ending() {
                Some(ending) if ended => WithIOError::LengthDecodeError(ending),
                _ => WithIOError::IoError(error),
            },
    ;

    /// A length takes up at least one byte, and lies within the bytes it was
    /// found in.
    proof fn decoding_within(bytes: Seq<u8>)
        ensures
            Self::decoding(bytes) matches Ok((_, used)) ==> 0 < used <= bytes.len(),
            Self::reading(bytes).1 <= bytes.len(),
    ;

    /// Decoding what was encoded gives the length back and leaves what
    /// followed it.
    proof fn encoding_decodes(length: usize, tail: Seq<u8>)
        requires
            Self::decodable(length),
        ensures
            Self::decoding(Self::encoding(length) + tail) == Ok::<(usize, nat), Self::Error>(
                (length, Self::encoding(length).len()),
            ),
    ;

    /// Reading what was encoded gives the length back and takes exactly its
    /// bytes.
    proof fn encoding_reads(length: usize, tail: Seq<u8>)
        requires
            Self::readable(length),
        ensures
            Self::reading(Self::encoding(length) + tail) == (
                Ok::<usize, Self::Error>(length),
                Self::encoding(length).len(),
            ),
    ;

    /// A length that is read from a buffer is the length that is decoded from
    /// its bytes.
    proof fn reading_decodes(bytes: Seq<u8>)
        ensures
            Self::reading(bytes).0 matches Ok(length) ==> Self::decoding(bytes) == Ok::<
                (usize, nat),
                Self::Error,
            >((length, Self::reading(bytes).1)),
    ;

    /// A stream that gives a length is asked for all of its bytes and for no
    /// byte behind them, and those bytes alone decode to the same length.
    proof fn decoding_streams(bytes: Seq<u8>, given: nat)
        ensures
            Self::decoding(bytes) matches Ok((length, used)) ==> {
                &&& Self::decoding(bytes.take(used as int)) == Self::decoding(bytes)
                &&& given < used ==> Self::wanting(bytes.take(given as int)) > 0
                &&& given <= used ==> given + Self::wanting(bytes.take(given as int)) <= used
            },
    ;
}

/// Reads a length from a stream: it says how many bytes to read next, is fed
/// those bytes, and gives the length once it has them all.
pub struct LengthReader<L: LengthCodec> {
    read: Vec<u8>,
    _length: PhantomData<L>,
}

impl<L: LengthCodec> LengthReader<L> {
    /// The bytes fed so far.
    pub closed spec fn fed(&self) -> Seq<u8> {
        self.read@
    }

    /// A reader that has been fed nothing.
    pub fn new() -> (reader: Self)
        ensures
            reader.fed() == Seq::<u8>::empty(),
    {
        LengthReader { read: Vec::new(), _length: PhantomData }
    }

    /// How many bytes to read next; zero once the length is complete.
    pub fn wanted(&self) -> (count: usize)
        ensures
            count == L::wanting(self.fed()),
    {
        L::wanted(self.read.as_slice())
    }

    /// Takes in the bytes that were read.
    pub fn feed(&mut self, bytes: &[u8])
        ensures
            final(self).fed() == old(self).fed() + bytes@,
    {
        self.read.extend_from_slice(bytes);
    }

    /// The length that the bytes spell.
    pub fn finish(&self) -> (result: Result<usize, WithIOError<L::Error>>)
        ensures
            result == read_length::<L>(self.fed()),
    {
        match L::decode(self.read.as_slice()) {
            Ok((length, _)) => Ok(length),
            Err(error) => Err(WithIOError::LengthDecodeError(error)),
        }
    }
}

/// The length that the bytes taken from a stream spell.
pub open spec fn read_length<L: LengthCodec>(read: Seq<u8>) -> Result<
    usize,
    WithIOError<L::Error>,
> {
    match L::decoding(read) {
        Ok((length, _)) => Ok(length),
        Err(error) => Err(WithIOError::LengthDecodeError(error)),
    }
}

/// How many bytes a [`LengthReader`] takes from a stream that gives `input`,
/// where it has taken `taken` of them; nothing where the stream ends first.
pub open spec fn stream_extent<L: LengthCodec>(input: Seq<u8>, taken: nat) -> Option<nat>
    decreases input.len() - taken,
{
    let wanted = L::wanting(input.take(taken as int));
    if taken > input.len() || taken + wanted > input.len() {
        None
    } else if wanted == 0 {
        Some(taken)
    } else {
        stream_extent::<L>(input, taken + wanted)
    }
}

} // verus!
