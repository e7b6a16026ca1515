//! Length-prefixed framing of archived packets.
//!
//! A packet travels as a frame: the length of its archive, written by a
//! [`LengthCodec`], followed by the archive itself. The library writes frames,
//! finds them again, and decides what a stream has to read or write next; the
//! bytes of an archive are opaque to it.
pub mod big_endian;
pub mod buffers;
pub mod error;
pub mod frame;
pub mod framed_codec;
pub mod laws;
pub mod length_codec;
pub mod outside;
pub mod rkyv_codec;
pub mod varint;

pub use big_endian::{U16Length, U32Length, U64Length, U8Length};
pub use buffers::{ByteSink, ByteSource};
pub use error::RkyvCodecError;
pub use frame::{
    archive_sink_bytes, archive_stream_bytes, archive_stream_bytes_bounded,
    archive_stream_bytes_unsafe,
};
pub use framed_codec::RkyvCodec;
pub use length_codec::{LengthCodec, LengthReader, NotEnoughBytesError, WithIOError};
pub use rkyv_codec::{
    archive_sink, archive_stream, archive_stream_unsafe, FlushAction, FlushEvent, RkyvWriter,
};
pub use varint::{VarintLength, VarintLengthError};
