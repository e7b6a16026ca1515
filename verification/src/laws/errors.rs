//! How errors are mapped, and what they say.
use crate::error::RkyvCodecError;
use crate::length_codec::{LengthCodec, NotEnoughBytesError, WithIOError};
use crate::varint::VarintLengthError;
use vstd::prelude::*;

verus! {

/// An error of reading a length from a stream stays what it was, one of the
/// length or one of the stream.
pub proof fn law_stream_fault_kept<L: LengthCodec>(
    fault: WithIOError<L::Error>,
    error: RkyvCodecError<L>,
)
    requires
        call_ensures(<RkyvCodecError<L> as From<WithIOError<L::Error>>>::from, (fault,), error),
    ensures
        match (fault, error) {
            (WithIOError::IoError(cause), RkyvCodecError::IoError(kept)) => kept == cause,
            (WithIOError::LengthDecodeError(cause), RkyvCodecError::ReadLengthError(kept)) => kept
                == cause,
            _ => false,
        },
{
}

/// An error of a stream, and one of an archive, is carried along as it is.
pub proof fn law_causes_kept<L: LengthCodec>(
    failure: std::io::Error,
    io: RkyvCodecError<L>,
    fault: rkyv::rancor::Error,
    archive: RkyvCodecError<L>,
)
    requires
        call_ensures(<RkyvCodecError<L> as From<std::io::Error>>::from, (failure,), io),
        call_ensures(<RkyvCodecError<L> as From<rkyv::rancor::Error>>::from, (fault,), archive),
    ensures
        io matches RkyvCodecError::IoError(kept) && kept == failure,
        archive matches RkyvCodecError::CheckArchiveError(kept) && kept == fault,
{
}

/// The errors of the `unsigned_varint` crate are mapped each to the one of the
/// same name.
pub proof fn law_varint_faults_kept(
    fault: unsigned_varint::decode::Error,
    error: VarintLengthError,
)
    requires
        call_ensures(
            <VarintLengthError as From<unsigned_varint::decode::Error>>::from,
            (fault,),
            error,
        ),
    ensures
        error is Insufficient <==> fault is Insufficient,
        error is Overflow <==> fault is Overflow,
        error is NotMinimal <==> fault is NotMinimal,
{
}

/// The texts of the errors of lengths.
pub proof fn law_texts(
    error: VarintLengthError,
    text: &'static str,
    short: NotEnoughBytesError,
    short_text: &'static str,
)
    requires
        call_ensures(VarintLengthError::message, (&error,), text),
        call_ensures(NotEnoughBytesError::message, (&short,), short_text),
    ensures
        text@ == match error {
            VarintLengthError::Insufficient => "not enough bytes for varint"@,
            VarintLengthError::Overflow => "too many bytes"@,
            VarintLengthError::NotMinimal => "not minimal, too many trailing zero bytes"@,
        },
        short_text@ == "not enough bytes in buffer to decode length"@,
{
}

} // verus!
