//! The error type of the library.
use crate::length_codec::{LengthCodec, WithIOError};
use vstd::prelude::*;

verus! {

/// What can go wrong with a frame.
#[derive(Debug)]
pub enum RkyvCodecError<L: LengthCodec> {
    /// The stream failed.
    IoError(std::io::Error),
    /// The packet is not correctly archived.
    CheckArchiveError(rkyv::rancor::Error),
    /// The length could not be parsed.
    ReadLengthError(L::Error),
    /// The buffer ends before the frame does.
    LengthTooLong {
        /// How many bytes the frame's length calls for.
        requested: usize,
        /// How many there are.
        available: usize,
    },
    /// The packet could not be serialized.
    SerializeError,
    /// The writer takes no more bytes.
    EOFError,
}

impl<L: LengthCodec> vstd::std_specs::convert::FromSpecImpl<WithIOError<L::Error>>
    for RkyvCodecError<L> {
    open spec fn obeys_from_spec() -> bool {
        true
    }

    open spec fn from_spec(value: WithIOError<L::Error>) -> Self {
        match value {
            WithIOError::IoError(error) => RkyvCodecError::IoError(error),
            WithIOError::LengthDecodeError(error) => RkyvCodecError::ReadLengthError(error),
        }
    }
}

impl<L: LengthCodec> From<WithIOError<L::Error>> for RkyvCodecError<L> {
    fn from(value: WithIOError<L::Error>) -> Self {
        match value {
            WithIOError::IoError(error) => RkyvCodecError::IoError(error),
            WithIOError::LengthDecodeError(error) => RkyvCodecError::ReadLengthError(error),
        }
    }
}

impl<L: LengthCodec> vstd::std_specs::convert::FromSpecImpl<std::io::Error> for RkyvCodecError<L> {
    open spec fn obeys_from_spec() -> bool {
        true
    }

    open spec fn from_spec(value: std::io::Error) -> Self {
        RkyvCodecError::IoError(value)
    }
}

impl<L: LengthCodec> From<std::io::Error> for RkyvCodecError<L> {
    fn from(value: std::io::Error) -> Self {
        RkyvCodecError::IoError(value)
    }
}

impl<L: LengthCodec> vstd::std_specs::convert::FromSpecImpl<rkyv::rancor::Error>
    for RkyvCodecError<L> {
    open spec fn obeys_from_spec() -> bool {
        true
    }

    open spec fn from_spec(value: rkyv::rancor::Error) -> Self {
        RkyvCodecError::CheckArchiveError(value)
    }
}

impl<L: LengthCodec> From<rkyv::rancor::Error> for RkyvCodecError<L> {
    fn from(value: rkyv::rancor::Error) -> Self {
        RkyvCodecError::CheckArchiveError(value)
    }
}

} // verus!
