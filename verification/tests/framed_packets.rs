use bytes::BytesMut;
use rkyv::rancor;
use rkyv::util::AlignedVec;
use rkyv::Archived;
use rkyv_codec::{
    archive_sink_bytes, archive_stream_bytes, NotEnoughBytesError, RkyvCodec, RkyvCodecError,
    U16Length, U8Length, VarintLength, VarintLengthError,
};

type TestLengthCodec = VarintLength;
type Test = (u8, String, Option<Vec<i32>>);

fn test_value() -> Test {
    (42, "hello world".to_string(), Some(vec![1, 2, 3, 4]))
}

fn deserialize(archived: &[u8]) -> Result<Test, rancor::Error> {
    rkyv::from_bytes::<Test, rancor::Error>(archived)
}

fn broken_archive() -> AlignedVec {
    let mut bytes = rkyv::to_bytes::<rancor::Error>(&test_value()).unwrap();
    bytes.as_mut_slice().fill(0xff);
    bytes
}

fn some_error() -> rancor::Error {
    rkyv::access::<Archived<Test>, rancor::Error>(&broken_archive()).map(|_| ()).unwrap_err()
}

#[test]
fn futures_ser_de() {
    let test = test_value();
    let serialized = rkyv::to_bytes::<rancor::Error>(&test).unwrap();
    let mut codec = RkyvCodec::<Test, TestLengthCodec>::default();
    let mut sent = BytesMut::new();
    codec.encode(Ok(&serialized), &mut sent).unwrap();
    let mut buffer = vec![0u8; 256];
    buffer[..sent.len()].copy_from_slice(&sent);

    let mut received = BytesMut::from(&buffer[..]);
    assert!(RkyvCodec::<Test, TestLengthCodec>::holds_frame(&received));
    let received_value = codec.decode(&mut received, deserialize).unwrap().unwrap();

    assert_eq!(test, received_value);
    assert_eq!(&received[..], &buffer[sent.len()..]);
}

#[test]
fn decoding_after_encoding_empties_the_buffer() {
    let value = test_value();
    let serialized = rkyv::to_bytes::<rancor::Error>(&value).unwrap();
    let mut codec = RkyvCodec::<Test, VarintLength>::default();
    let mut buf = BytesMut::new();
    codec.encode(Ok(&serialized), &mut buf).unwrap();
    let decoded_value = codec.decode(&mut buf, deserialize).unwrap().unwrap();
    assert_eq!(value, decoded_value);
    assert!(buf.is_empty());
}

#[test]
fn reading_and_decoding_agree() {
    let mut bytes = BytesMut::new();
    bytes.extend_from_slice(b"\x03abc\x02de");
    let mut read_from = bytes.clone();
    let mut buffer = AlignedVec::new();
    let mut codec = RkyvCodec::<Vec<u8>, VarintLength>::default();
    for _ in 0..2 {
        let read = archive_stream_bytes::<VarintLength>(&mut read_from, &mut buffer).unwrap();
        let decoded = codec.decode(&mut bytes, |archived| Ok(archived.to_vec())).unwrap();
        assert_eq!(decoded, Some(read.to_vec()));
        assert_eq!(bytes, read_from);
    }
}

#[test]
fn packets_are_decoded_in_the_order_they_were_encoded() {
    let mut codec = RkyvCodec::<Vec<u8>, U16Length>::default();
    let mut buffer = BytesMut::new();
    let packets: [&[u8]; 3] = [b"one", b"", b"a third"];
    for packet in packets {
        codec.encode(Ok(packet), &mut buffer).unwrap();
    }
    assert_eq!(&buffer[..], b"\0\x03one\0\0\0\x07a third");
    for packet in packets {
        let decoded = codec.decode(&mut buffer, |archived| Ok(archived.to_vec())).unwrap();
        assert_eq!(decoded, Some(packet.to_vec()));
        assert_eq!(codec.archive(), packet);
    }
    assert_eq!(codec.decode(&mut buffer, |archived| Ok(archived.to_vec())).unwrap(), None);
    assert_eq!(codec.archive(), b"a third");
}

#[test]
fn an_ordinary_buffer_has_room() {
    let mut buffer = BytesMut::new();
    assert!(RkyvCodec::<Vec<u8>, U16Length>::has_room(&buffer, b"abc"));
    buffer.extend_from_slice(&[1; 1000]);
    assert!(RkyvCodec::<Vec<u8>, U16Length>::has_room(&buffer, &[7; 1000]));
}

#[test]
fn an_encoded_packet_is_the_frame_that_a_buffer_is_given() {
    let mut codec = RkyvCodec::<Vec<u8>, VarintLength>::default();
    let mut encoded = BytesMut::new();
    let mut sunk = BytesMut::new();
    for archived in [&b"same"[..], b"same", b"other"] {
        codec.encode(Ok(archived), &mut encoded).unwrap();
        archive_sink_bytes::<VarintLength>(&mut sunk, archived).unwrap();
    }
    assert_eq!(encoded, sunk);
    assert_eq!(&encoded[..], b"\x04same\x04same\x05other");
}

#[test]
fn an_empty_buffer_holds_no_packet() {
    let mut codec = RkyvCodec::<Vec<u8>, VarintLength>::default();
    let mut buffer = BytesMut::new();
    assert!(RkyvCodec::<Vec<u8>, VarintLength>::holds_frame(&buffer));
    assert!(matches!(codec.next_frame(&buffer), Ok(None)));
    assert!(matches!(codec.decode(&mut buffer, |_| panic!("nothing to decode")), Ok(None)));
}

#[test]
fn a_frame_that_is_not_there_as_a_whole() {
    let mut buffer = BytesMut::new();
    buffer.extend_from_slice(&[4, 1, 2, 3]);
    assert!(!RkyvCodec::<Vec<u8>, U8Length>::holds_frame(&buffer));
    buffer.extend_from_slice(&[4]);
    assert!(RkyvCodec::<Vec<u8>, U8Length>::holds_frame(&buffer));
}

#[test]
fn a_bad_length_stays_in_the_buffer() {
    let mut codec = RkyvCodec::<Vec<u8>, VarintLength>::default();
    let mut buffer = BytesMut::new();
    codec.encode(Ok(b"abc"), &mut buffer).unwrap();
    codec.decode(&mut buffer, |archived| Ok(archived.to_vec())).unwrap();
    assert_eq!(codec.archive(), b"abc");

    buffer.extend_from_slice(&[0x80, 0, 7]);
    assert!(matches!(
        codec.decode(&mut buffer, |archived| Ok(archived.to_vec())),
        Err(RkyvCodecError::ReadLengthError(VarintLengthError::NotMinimal))
    ));
    assert_eq!(&buffer[..], &[0x80, 0, 7]);
    assert_eq!(codec.archive(), b"");

    let mut codec = RkyvCodec::<Vec<u8>, U16Length>::default();
    let mut buffer = BytesMut::new();
    buffer.extend_from_slice(&[1]);
    assert!(matches!(
        codec.next_frame(&buffer),
        Err(RkyvCodecError::ReadLengthError(NotEnoughBytesError))
    ));
}

#[test]
fn a_broken_archive_stays_in_the_buffer() {
    let mut codec = RkyvCodec::<Test, U16Length>::default();
    let mut buffer = BytesMut::new();
    codec.encode(Ok(&broken_archive()), &mut buffer).unwrap();
    let before = buffer.clone();
    assert!(matches!(
        codec.decode(&mut buffer, deserialize),
        Err(RkyvCodecError::CheckArchiveError(_))
    ));
    assert_eq!(buffer, before);
    assert_eq!(codec.archive(), &broken_archive()[..]);
}

#[test]
fn a_packet_that_cannot_be_serialized_is_not_encoded() {
    let mut codec = RkyvCodec::<Test, U8Length>::default();
    let mut buffer = BytesMut::new();
    buffer.extend_from_slice(b"before");
    assert!(matches!(
        codec.encode(Err(some_error()), &mut buffer),
        Err(RkyvCodecError::CheckArchiveError(_))
    ));
    assert_eq!(&buffer[..], b"before");
}

#[test]
fn decoding_in_steps() {
    let mut codec = RkyvCodec::<u8, U8Length>::default();
    let mut buffer = BytesMut::new();
    buffer.extend_from_slice(&[2, 10, 11, 1, 12]);
    assert!(matches!(codec.next_frame(&buffer), Ok(Some(3))));
    assert_eq!(codec.archive(), &[10, 11]);
    assert!(matches!(
        RkyvCodec::<u8, U8Length>::finish_decode(3, Err(some_error()), &mut buffer),
        Err(RkyvCodecError::CheckArchiveError(_))
    ));
    assert_eq!(buffer.len(), 5);
    assert!(matches!(
        RkyvCodec::<u8, U8Length>::finish_decode(3, Ok(21), &mut buffer),
        Ok(Some(21))
    ));
    assert_eq!(&buffer[..], &[1, 12]);
}
