use bytes::{BufMut, Bytes, BytesMut};
use rkyv_codec::{
    LengthCodec, LengthReader, NotEnoughBytesError, U16Length, U32Length, U64Length, U8Length,
    VarintLength, VarintLengthError, WithIOError,
};

fn encoded<L: LengthCodec>(length: usize) -> Vec<u8> {
    let mut buffer = L::Buffer::default();
    L::encode(length, &mut buffer).to_vec()
}

/// Reads a length off the front of `bytes`, and gives what is left of them.
fn taken<L: LengthCodec>(bytes: &[u8]) -> (Result<usize, L::Error>, Vec<u8>) {
    let mut source = Bytes::copy_from_slice(bytes);
    let result = L::decode_bytes(&mut source);
    (result, source.to_vec())
}

/// Reads a length from `reader` as from a stream.
fn decode_stream<L: LengthCodec>(reader: &mut &[u8]) -> Result<usize, WithIOError<L::Error>> {
    let mut length = LengthReader::<L>::new();
    loop {
        let wanted = length.wanted();
        if wanted == 0 {
            return length.finish();
        }
        if reader.len() < wanted {
            *reader = &[];
            let error = std::io::Error::from(std::io::ErrorKind::UnexpectedEof);
            return Err(L::stream_error(true, error));
        }
        let (now, later) = reader.split_at(wanted);
        length.feed(now);
        *reader = later;
    }
}

fn check_fixed<L: LengthCodec<Error = NotEnoughBytesError>>(value: usize, bytes: &[u8]) {
    let mut buf = L::Buffer::default();
    let encoded = L::encode(value, &mut buf);
    assert_eq!(encoded, bytes);
    let (decoded, rest) = L::decode(encoded).unwrap();
    assert_eq!(decoded, value);
    assert!(rest.is_empty());

    let mut extended_bytes: Vec<u8> = bytes.to_vec();
    extended_bytes.extend_from_slice(&[1, 2, 3]);
    let (decoded_partial, rest_partial) = L::decode(&extended_bytes).unwrap();
    assert_eq!(decoded_partial, value);
    assert_eq!(rest_partial, &[1, 2, 3]);

    let short_bytes = &bytes[..bytes.len() - 1];
    assert_eq!(L::decode(short_bytes), Err(NotEnoughBytesError));
    assert_eq!(L::decode(&[]), Err(NotEnoughBytesError));
}

fn check_fixed_stream<L: LengthCodec<Error = NotEnoughBytesError>>(value: usize, bytes: &[u8]) {
    let mut reader = bytes;
    assert_eq!(decode_stream::<L>(&mut reader).unwrap(), value);

    let mut reader_short = &bytes[..bytes.len() - 1];
    let err = decode_stream::<L>(&mut reader_short).unwrap_err();
    match err {
        WithIOError::LengthDecodeError(NotEnoughBytesError) => {}
        _ => panic!("Unexpected error type for short data: {:?}", err),
    }

    let mut reader_empty: &[u8] = &[];
    let err_empty = decode_stream::<L>(&mut reader_empty).unwrap_err();
    match err_empty {
        WithIOError::LengthDecodeError(NotEnoughBytesError) => {}
        _ => panic!("Unexpected error type for empty data: {:?}", err_empty),
    }
}

#[test]
fn test_u8_length_codec() {
    check_fixed::<U8Length>(42, &[42]);
}

#[test]
fn test_u16_length_codec() {
    check_fixed::<U16Length>(300, &[1, 44]);
}

#[test]
fn test_u32_length_codec() {
    check_fixed::<U32Length>(70000, &[0, 1, 17, 112]);
}

#[test]
fn test_u64_length_codec() {
    check_fixed::<U64Length>(1_000_000_000_000, &[0, 0, 0, 232, 212, 165, 16, 0]);
}

#[test]
fn test_u8_decode_async() {
    check_fixed_stream::<U8Length>(42, &[42]);
}

#[test]
fn test_u16_decode_async() {
    check_fixed_stream::<U16Length>(300, &[1, 44]);
}

#[test]
fn test_u32_decode_async() {
    check_fixed_stream::<U32Length>(70000, &[0, 1, 17, 112]);
}

#[test]
fn test_u64_decode_async() {
    check_fixed_stream::<U64Length>(1_000_000_000_000, &[0, 0, 0, 232, 212, 165, 16, 0]);
}

#[test]
fn fixed_width_lengths_are_taken_off_a_buffer() {
    assert_eq!(taken::<U8Length>(&[42, 7]), (Ok(42), vec![7]));
    assert_eq!(taken::<U16Length>(&[1, 44, 7]), (Ok(300), vec![7]));
    assert_eq!(taken::<U32Length>(&[0, 1, 17, 112, 7]), (Ok(70000), vec![7]));
    let bytes = [0, 0, 0, 232, 212, 165, 16, 0, 7];
    assert_eq!(taken::<U64Length>(&bytes), (Ok(1_000_000_000_000), vec![7]));
}

#[test]
fn short_buffers_keep_their_bytes() {
    assert_eq!(taken::<U8Length>(&[]), (Err(NotEnoughBytesError), vec![]));
    assert_eq!(taken::<U16Length>(&[1]), (Err(NotEnoughBytesError), vec![1]));
    assert_eq!(taken::<U32Length>(&[1, 2, 3]), (Err(NotEnoughBytesError), vec![1, 2, 3]));
    assert_eq!(taken::<U64Length>(&[9; 7]), (Err(NotEnoughBytesError), vec![9; 7]));
}

#[test]
fn a_length_too_large_for_its_width_loses_its_upper_bytes() {
    assert_eq!(encoded::<U8Length>(300), [44]);
    assert_eq!(encoded::<U16Length>(70000), [17, 112]);
    assert_eq!(encoded::<U32Length>(1_000_000_000_000), [212, 165, 16, 0]);
    assert_eq!(U8Length::decode(&encoded::<U8Length>(300)).unwrap().0, 300 % 256);
}

#[test]
fn varints_are_little_endian_in_base_128() {
    assert_eq!(encoded::<VarintLength>(0), [0]);
    assert_eq!(encoded::<VarintLength>(1), [1]);
    assert_eq!(encoded::<VarintLength>(127), [127]);
    assert_eq!(encoded::<VarintLength>(128), [128, 1]);
    assert_eq!(encoded::<VarintLength>(300), [172, 2]);
    assert_eq!(encoded::<VarintLength>(16384), [128, 128, 1]);
    assert_eq!(
        encoded::<VarintLength>(usize::MAX),
        [255, 255, 255, 255, 255, 255, 255, 255, 255, 1]
    );
}

#[test]
fn varints_come_back() {
    let lengths = [0, 1, 127, 128, 300, 16383, 16384, 1 << 35, (1 << 63) - 1];
    for length in lengths {
        let mut bytes = encoded::<VarintLength>(length);
        let extent = bytes.len();
        bytes.extend_from_slice(&[1, 2, 3]);

        let (decoded, rest) = VarintLength::decode(&bytes).unwrap();
        assert_eq!(decoded, length);
        assert_eq!(rest, &[1, 2, 3]);
        assert_eq!(taken::<VarintLength>(&bytes), (Ok(length), vec![1, 2, 3]));

        let mut reader = &bytes[..];
        assert_eq!(decode_stream::<VarintLength>(&mut reader).unwrap(), length);
        assert_eq!(reader.len(), bytes.len() - extent);
    }
}

#[test]
fn every_part_of_a_varint_calls_for_more() {
    let bytes = encoded::<VarintLength>(1 << 62);
    assert_eq!(bytes.len(), 9);
    for kept in 0..9 {
        assert_eq!(VarintLength::decode(&bytes[..kept]), Err(VarintLengthError::Insufficient));
        assert_eq!(
            taken::<VarintLength>(&bytes[..kept]),
            (Err(VarintLengthError::Insufficient), vec![])
        );
        let mut reader = &bytes[..kept];
        match decode_stream::<VarintLength>(&mut reader) {
            Err(WithIOError::IoError(error)) => {
                assert_eq!(error.kind(), std::io::ErrorKind::UnexpectedEof)
            }
            other => panic!("unexpected outcome: {:?}", other),
        }
    }
}

#[test]
fn varints_beyond_two_to_the_63_are_decoded_but_not_taken() {
    let bytes = encoded::<VarintLength>(1 << 63);
    assert_eq!(bytes, [128, 128, 128, 128, 128, 128, 128, 128, 128, 1]);
    assert_eq!(VarintLength::decode(&bytes).unwrap().0, 1 << 63);
    assert_eq!(
        taken::<VarintLength>(&bytes),
        (Err(VarintLengthError::Insufficient), vec![1])
    );
}

#[test]
fn varints_that_could_be_shorter_are_refused() {
    assert_eq!(VarintLength::decode(&[0x81, 0]), Err(VarintLengthError::NotMinimal));
    assert_eq!(
        taken::<VarintLength>(&[0x81, 0, 5]),
        (Err(VarintLengthError::NotMinimal), vec![5])
    );
    let mut reader: &[u8] = &[0x81, 0, 5];
    match decode_stream::<VarintLength>(&mut reader) {
        Err(WithIOError::LengthDecodeError(error)) => {
            assert_eq!(error, VarintLengthError::NotMinimal)
        }
        other => panic!("unexpected outcome: {:?}", other),
    }
    assert_eq!(reader, &[5]);
    assert_eq!(VarintLength::decode(&[0]).unwrap().0, 0);
    assert_eq!(taken::<VarintLength>(&[0, 5]), (Ok(0), vec![5]));
}

#[test]
fn varints_without_an_end_are_refused() {
    assert_eq!(VarintLength::decode(&[0xff; 10]), Err(VarintLengthError::Overflow));
    assert_eq!(VarintLength::decode(&[0xff; 12]), Err(VarintLengthError::Overflow));
    assert_eq!(VarintLength::decode(&[0xff; 9]), Err(VarintLengthError::Insufficient));
    assert_eq!(
        taken::<VarintLength>(&[0xff; 12]),
        (Err(VarintLengthError::Insufficient), vec![0xff; 3])
    );
    let mut reader: &[u8] = &[0xff; 12];
    match decode_stream::<VarintLength>(&mut reader) {
        Err(WithIOError::LengthDecodeError(error)) => {
            assert_eq!(error, VarintLengthError::Overflow)
        }
        other => panic!("unexpected outcome: {:?}", other),
    }
    assert_eq!(reader.len(), 2);
}

#[test]
fn a_varint_is_the_only_one_for_its_length() {
    let varints: [&[u8]; 4] = [&[0], &[0x7f], &[0x80, 0x80, 4], &[0xff, 0xff, 0xff, 0xff, 1]];
    for bytes in varints {
        let (length, rest) = VarintLength::decode(bytes).unwrap();
        assert!(rest.is_empty());
        assert_eq!(encoded::<VarintLength>(length), bytes);
    }
}

#[test]
fn bits_beyond_a_length_are_dropped() {
    let mut bytes = [0xff; 10];
    bytes[9] = 0x7f;
    let (length, rest) = VarintLength::decode(&bytes).unwrap();
    assert_eq!(length, usize::MAX);
    assert!(rest.is_empty());
    assert_ne!(encoded::<VarintLength>(length), bytes);
}

#[test]
fn an_encoded_length_leaves_the_rest_of_its_buffer_alone() {
    let mut buffer = [9u8; 10];
    assert_eq!(VarintLength::encode(300, &mut buffer), &[172, 2]);
    assert_eq!(buffer, [172, 2, 9, 9, 9, 9, 9, 9, 9, 9]);
    VarintLength::as_slice(&mut buffer)[9] = 1;
    assert_eq!(buffer[9], 1);
    let mut buffer = [9u8; 4];
    U32Length::as_slice(&mut buffer).copy_from_slice(&[0, 1, 17, 112]);
    assert_eq!(U32Length::decode(&buffer).unwrap().0, 70000);
}

#[test]
fn a_mutable_buffer_gives_lengths_too() {
    let mut source = BytesMut::new();
    source.put_slice(&[172, 2, 1, 44, 7]);
    assert_eq!(VarintLength::decode_bytes(&mut source), Ok(300));
    assert_eq!(U16Length::decode_bytes(&mut source), Ok(300));
    assert_eq!(U16Length::decode_bytes(&mut source), Err(NotEnoughBytesError));
    assert_eq!(&source[..], &[7]);
    assert_eq!(U8Length::decode_bytes(&mut source), Ok(7));
    assert_eq!(
        VarintLength::decode_bytes(&mut source),
        Err(VarintLengthError::Insufficient)
    );
}

#[test]
fn a_failing_stream_is_told_from_one_that_ends() {
    let broken = || std::io::Error::from(std::io::ErrorKind::BrokenPipe);
    match U16Length::stream_error(false, broken()) {
        WithIOError::IoError(error) => assert_eq!(error.kind(), std::io::ErrorKind::BrokenPipe),
        other => panic!("unexpected error: {:?}", other),
    }
    assert!(matches!(
        U16Length::stream_error(true, broken()),
        WithIOError::LengthDecodeError(NotEnoughBytesError)
    ));
    assert!(matches!(VarintLength::stream_error(false, broken()), WithIOError::IoError(_)));
    assert!(matches!(VarintLength::stream_error(true, broken()), WithIOError::IoError(_)));
}

#[test]
fn a_reader_asks_for_what_the_length_needs() {
    let mut reader = LengthReader::<U32Length>::new();
    assert_eq!(reader.wanted(), 4);
    reader.feed(&[0, 1, 17, 112]);
    assert_eq!(reader.wanted(), 0);
    assert_eq!(reader.finish().unwrap(), 70000);

    let mut reader = LengthReader::<VarintLength>::new();
    assert_eq!(reader.wanted(), 1);
    reader.feed(&[172]);
    assert_eq!(reader.wanted(), 1);
    reader.feed(&[2]);
    assert_eq!(reader.wanted(), 0);
    assert_eq!(reader.finish().unwrap(), 300);
}

#[test]
fn errors_have_texts() {
    assert_eq!(
        NotEnoughBytesError.message(),
        "not enough bytes in buffer to decode length"
    );
    assert_eq!(VarintLengthError::Insufficient.message(), "not enough bytes for varint");
    assert_eq!(VarintLengthError::Overflow.message(), "too many bytes");
    assert_eq!(
        VarintLengthError::NotMinimal.message(),
        "not minimal, too many trailing zero bytes"
    );
}

#[test]
fn faults_of_the_varint_crate_are_mapped_one_for_one() {
    let map = |error: unsigned_varint::decode::Error| VarintLengthError::from(error);
    assert_eq!(
        map(unsigned_varint::decode::Error::Insufficient),
        VarintLengthError::Insufficient
    );
    assert_eq!(map(unsigned_varint::decode::Error::Overflow), VarintLengthError::Overflow);
    assert_eq!(map(unsigned_varint::decode::Error::NotMinimal), VarintLengthError::NotMinimal);
}
