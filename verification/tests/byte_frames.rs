use bytes::{Bytes, BytesMut};
use rkyv::util::AlignedVec;
use rkyv::{rancor, Archived};
use rkyv_codec::{
    archive_sink_bytes, archive_stream_bytes, archive_stream_bytes_bounded,
    archive_stream_bytes_unsafe, LengthCodec,
    NotEnoughBytesError, RkyvCodecError, U16Length, U32Length, U64Length, U8Length, VarintLength,
    VarintLengthError,
};

type TestLengthCodec = VarintLength;
type Test = (u8, String, Option<Vec<i32>>);

fn test_value() -> Test {
    (42, "hello world".to_string(), Some(vec![1, 2, 3, 4]))
}

fn test_bytes() -> AlignedVec {
    rkyv::to_bytes::<rancor::Error>(&test_value()).unwrap()
}

fn framed<L: LengthCodec>(archives: &[&[u8]]) -> BytesMut {
    let mut writer = BytesMut::new();
    for archived in archives {
        archive_sink_bytes::<L>(&mut writer, archived).unwrap();
    }
    writer
}

#[test]
fn bytes_functions() {
    let test = test_value();
    let test_bytes = test_bytes();
    let mut writer = BytesMut::new();
    for _ in 0..50 {
        archive_sink_bytes::<TestLengthCodec>(&mut writer, &test_bytes).unwrap();
    }

    let mut reader = writer.freeze();

    let mut buffer = AlignedVec::with_capacity(256);

    for _ in 0..50 {
        let archived = archive_stream_bytes::<TestLengthCodec>(&mut reader, &mut buffer).unwrap();
        let data = rkyv::access::<Archived<Test>, rancor::Error>(archived).unwrap();
        assert_eq!(test.0, data.0);
        assert_eq!(test.1.as_str(), data.1.as_str());
        let numbers: Vec<i32> = data.2.as_ref().unwrap().iter().map(|n| n.to_native()).collect();
        assert_eq!(test.2, Some(numbers));
        let value_sent = rkyv::deserialize::<Test, rancor::Error>(data).unwrap();
        assert_eq!(test, value_sent);
    }
    assert!(reader.is_empty());
}

#[test]
fn unchecked_reading_gives_the_archive() {
    let value: (Vec<u8>, u64) = (vec![1, 2, 3], 42);
    let bytes = rkyv::to_bytes::<rancor::Error>(&value).unwrap();
    let mut reader = framed::<VarintLength>(&[&bytes]).freeze();
    let mut buffer = AlignedVec::new();
    let archived =
        archive_stream_bytes_unsafe::<VarintLength>(&mut reader, &mut buffer).unwrap();
    assert_eq!(archived, &bytes[..]);
    assert_eq!(rkyv::from_bytes::<(Vec<u8>, u64), rancor::Error>(archived).unwrap(), value);

    let mut reader = Bytes::new();
    assert!(matches!(
        archive_stream_bytes_unsafe::<VarintLength>(&mut reader, &mut buffer),
        Err(RkyvCodecError::ReadLengthError(VarintLengthError::Insufficient))
    ));
}

#[test]
fn a_frame_is_the_length_and_the_archive() {
    assert_eq!(&framed::<U8Length>(&[b"abc"])[..], &[3, 97, 98, 99]);
    assert_eq!(&framed::<U16Length>(&[b"abc"])[..], &[0, 3, 97, 98, 99]);
    assert_eq!(&framed::<U32Length>(&[b"abc"])[..], &[0, 0, 0, 3, 97, 98, 99]);
    assert_eq!(&framed::<U64Length>(&[b"a"])[..], &[0, 0, 0, 0, 0, 0, 0, 1, 97]);
    assert_eq!(&framed::<VarintLength>(&[b"abc"])[..], &[3, 97, 98, 99]);
    assert_eq!(&framed::<VarintLength>(&[b""])[..], &[0]);
    assert_eq!(&framed::<VarintLength>(&[&[7; 300]])[..4], &[172, 2, 7, 7]);
}

fn check_in_turn<L: LengthCodec>() {
    let archives: [&[u8]; 4] = [b"one", b"", b"a longer one", &[5; 200]];
    let mut reader = framed::<L>(&archives);
    reader.extend_from_slice(&[9, 9]);
    let mut buffer = AlignedVec::new();
    for archived in archives {
        let read = archive_stream_bytes::<L>(&mut reader, &mut buffer).unwrap();
        assert_eq!(read, archived);
        assert_eq!(buffer.as_slice(), archived);
    }
    assert_eq!(&reader[..], &[9, 9]);
}

#[test]
fn frames_are_read_in_the_order_they_were_written() {
    check_in_turn::<VarintLength>();
    check_in_turn::<U8Length>();
    check_in_turn::<U16Length>();
    check_in_turn::<U32Length>();
    check_in_turn::<U64Length>();
}

#[test]
fn a_frame_cut_short_is_an_error_at_every_byte() {
    let whole = framed::<U16Length>(&[b"archive"]).freeze();
    for kept in 0..whole.len() {
        let mut reader = whole.slice(..kept);
        let mut buffer = AlignedVec::new();
        let result = archive_stream_bytes::<U16Length>(&mut reader, &mut buffer);
        if kept < 2 {
            assert!(matches!(
                result,
                Err(RkyvCodecError::ReadLengthError(NotEnoughBytesError))
            ));
            assert_eq!(reader.len(), kept);
        } else {
            match result {
                Err(RkyvCodecError::LengthTooLong { requested, available }) => {
                    assert_eq!(requested, 7);
                    assert_eq!(available, kept - 2);
                }
                other => panic!("unexpected outcome: {:?}", other),
            }
            assert_eq!(&reader[..], &b"archive"[..kept - 2]);
        }
    }
}

#[test]
fn the_packet_buffer_after_a_frame_cut_short() {
    let mut buffer = AlignedVec::new();
    buffer.extend_from_slice(b"before");
    let mut reader = Bytes::from_static(&[8, 1, 2]);
    assert!(archive_stream_bytes::<U8Length>(&mut reader, &mut buffer).is_err());
    assert_eq!(buffer.as_slice(), b"before\0\0");
    let mut reader = Bytes::from_static(&[3, 1, 2]);
    assert!(archive_stream_bytes::<U8Length>(&mut reader, &mut buffer).is_err());
    assert_eq!(buffer.as_slice(), b"bef");
    let mut reader = Bytes::new();
    let capacity = buffer.capacity();
    assert!(archive_stream_bytes::<U8Length>(&mut reader, &mut buffer).is_err());
    assert_eq!(buffer.as_slice(), b"bef");
    assert_eq!(buffer.capacity(), capacity);
}

#[test]
fn varint_faults_reach_the_reader_of_frames() {
    let mut buffer = AlignedVec::new();
    let mut reader = Bytes::from_static(&[0x80, 0, 1]);
    assert!(matches!(
        archive_stream_bytes::<VarintLength>(&mut reader, &mut buffer),
        Err(RkyvCodecError::ReadLengthError(VarintLengthError::NotMinimal))
    ));
    assert_eq!(&reader[..], &[1]);
    let mut reader = Bytes::from_static(&[0xff; 11]);
    assert!(matches!(
        archive_stream_bytes::<VarintLength>(&mut reader, &mut buffer),
        Err(RkyvCodecError::ReadLengthError(VarintLengthError::Insufficient))
    ));
    assert_eq!(reader.len(), 2);
}

#[test]
fn a_length_that_no_buffer_can_have_gives_nothing() {
    let mut buffer = AlignedVec::new();
    buffer.extend_from_slice(b"before");
    let mut reader = Bytes::from_static(&[0xff, 0xff, 0xff, 0xff, 0xff, 0xff, 0xff, 0xff, 7]);
    assert!(archive_stream_bytes_bounded::<U64Length>(&mut reader, &mut buffer).is_none());
    assert_eq!(&reader[..], &[7]);
    assert_eq!(buffer.as_slice(), b"before");

    let largest = AlignedVec::<16>::MAX_CAPACITY as u64;
    let mut reader = Bytes::copy_from_slice(&(largest + 1).to_be_bytes());
    assert!(archive_stream_bytes_bounded::<U64Length>(&mut reader, &mut buffer).is_none());
}

#[test]
fn reading_within_bounds_is_reading() {
    let mut reader = framed::<VarintLength>(&[b"abc", b"de"]).freeze();
    let mut buffer = AlignedVec::new();
    let archived = archive_stream_bytes_bounded::<VarintLength>(&mut reader, &mut buffer);
    assert_eq!(archived.unwrap().unwrap(), b"abc");
    assert_eq!(&reader[..], &[2, 100, 101]);
    assert!(matches!(
        archive_stream_bytes_bounded::<U8Length>(&mut reader.slice(..2), &mut buffer),
        Some(Err(RkyvCodecError::LengthTooLong { requested: 2, available: 1 }))
    ));
    assert!(matches!(
        archive_stream_bytes_bounded::<U32Length>(&mut reader, &mut buffer),
        Some(Err(RkyvCodecError::ReadLengthError(NotEnoughBytesError)))
    ));
    assert_eq!(&reader[..], &[2, 100, 101]);
}

#[test]
fn what_is_read_does_not_depend_on_the_packet_buffer() {
    let whole = framed::<VarintLength>(&[b"abc"]).freeze();
    for held in [0, 1, 3, 300] {
        let mut buffer = AlignedVec::new();
        buffer.resize(held, 9);
        let mut reader = whole.clone();
        assert_eq!(
            archive_stream_bytes::<VarintLength>(&mut reader, &mut buffer).unwrap(),
            b"abc"
        );
        assert_eq!(buffer.as_slice(), b"abc");
        assert!(reader.is_empty());
    }
}

#[test]
fn a_broken_archive_is_found_when_it_is_accessed() {
    let mut bytes = test_bytes();
    bytes.as_mut_slice().fill(0xff);
    let mut reader = framed::<VarintLength>(&[&bytes]).freeze();
    let mut buffer = AlignedVec::new();
    let archived = archive_stream_bytes::<VarintLength>(&mut reader, &mut buffer).unwrap();
    let error = rkyv::access::<Archived<Test>, rancor::Error>(archived).map(|_| ()).unwrap_err();
    assert!(matches!(
        RkyvCodecError::<VarintLength>::from(error),
        RkyvCodecError::CheckArchiveError(_)
    ));
}
