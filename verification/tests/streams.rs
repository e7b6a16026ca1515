use rkyv::util::AlignedVec;
use rkyv::{rancor, Archived};
use rkyv_codec::{
    archive_sink, archive_stream, archive_stream_unsafe, FlushAction, FlushEvent, LengthCodec,
    LengthReader, NotEnoughBytesError, RkyvCodecError, RkyvWriter, U16Length, U32Length, U64Length,
    U8Length, VarintLength, VarintLengthError, WithIOError,
};

type TestLengthCodec = VarintLength;
type Test = (u8, String, Option<Vec<i32>>);

fn test_value() -> Test {
    (42, "hello world".to_string(), Some(vec![1, 2, 3, 4]))
}

fn test_bytes() -> AlignedVec {
    rkyv::to_bytes::<rancor::Error>(&test_value()).unwrap()
}

fn end_of_stream() -> std::io::Error {
    std::io::Error::from(std::io::ErrorKind::UnexpectedEof)
}

fn read_stream_length<L: LengthCodec>(
    reader: &mut &[u8],
) -> Result<usize, WithIOError<L::Error>> {
    let mut length = LengthReader::<L>::new();
    loop {
        let wanted = length.wanted();
        if wanted == 0 {
            return length.finish();
        }
        if reader.len() < wanted {
            return Err(L::stream_error(true, end_of_stream()));
        }
        let (now, later) = reader.split_at(wanted);
        length.feed(now);
        *reader = later;
    }
}

fn fill<L: LengthCodec>(space: &mut [u8], reader: &mut &[u8]) -> Result<(), RkyvCodecError<L>> {
    if reader.len() < space.len() {
        return Err(RkyvCodecError::from(end_of_stream()));
    }
    let (now, later) = reader.split_at(space.len());
    space.copy_from_slice(now);
    *reader = later;
    Ok(())
}

/// Reads an archive from `reader` as from a stream.
fn read_stream<'b, L: LengthCodec>(
    reader: &mut &[u8],
    buffer: &'b mut AlignedVec,
) -> Result<&'b [u8], RkyvCodecError<L>> {
    let length = read_stream_length::<L>(reader);
    fill::<L>(archive_stream::<L>(length, buffer)?, reader)?;
    Ok(buffer.as_slice())
}

fn write_stream<L: LengthCodec>(writer: &mut Vec<u8>, archived: &[u8]) {
    let mut length_buffer = L::Buffer::default();
    let (length, body) = archive_sink::<L>(archived, &mut length_buffer);
    writer.extend_from_slice(length);
    writer.extend_from_slice(body);
}

/// Flushes a writer whose stream takes at most the given numbers of bytes, one
/// after the other, of what it is offered, and everything after that.
fn flush<L: LengthCodec>(
    sink: &mut RkyvWriter<&mut Vec<u8>, L>,
    portions: &[usize],
) -> Result<(), RkyvCodecError<L>> {
    let mut portions = portions.iter().copied();
    let mut event = FlushEvent::Polled;
    loop {
        event = match sink.poll_flush(event) {
            FlushAction::WriteLength => {
                let (stream, offered) = sink.offer_length();
                let taken = portions.next().unwrap_or(offered.len()).min(offered.len());
                stream.extend_from_slice(&offered[..taken]);
                FlushEvent::LengthWritten(taken)
            }
            FlushAction::WriteBody => {
                let (stream, offered) = sink.offer_body();
                let taken = portions.next().unwrap_or(offered.len()).min(offered.len());
                stream.extend_from_slice(&offered[..taken]);
                FlushEvent::BodyWritten(taken)
            }
            FlushAction::FlushStream => FlushEvent::Flushed,
            FlushAction::Done(result) => return result,
        };
    }
}

fn send<L: LengthCodec>(sink: &mut RkyvWriter<&mut Vec<u8>, L>, archived: &[u8]) {
    sink.start_send(archived, Ok(())).unwrap();
    flush(sink, &[]).unwrap();
}

#[test]
fn functions() {
    let mut writer = Vec::new();
    write_stream::<TestLengthCodec>(&mut writer, &test_bytes());

    let mut reader = &writer[..];

    let mut buffer = AlignedVec::with_capacity(256);
    let archived = read_stream::<TestLengthCodec>(&mut reader, &mut buffer).unwrap();
    let data = rkyv::access::<Archived<Test>, rancor::Error>(archived).unwrap();
    let value_sent: Test = rkyv::deserialize::<_, rancor::Error>(data).unwrap();

    assert_eq!(test_value(), value_sent);
}

#[test]
fn functions_varint_edge_case() {
    let small_test: (u8,) = (1,);
    let small_bytes = rkyv::to_bytes::<rancor::Error>(&small_test).unwrap();
    let mut writer = Vec::new();
    let mut sink = RkyvWriter::<_, TestLengthCodec>::new(&mut writer);
    for _ in 0..2 {
        send(&mut sink, &small_bytes);
    }

    let mut reader = &writer[..];
    println!("reader: {reader:?}");

    let mut buffer = AlignedVec::with_capacity(256);
    let archived = read_stream::<VarintLength>(&mut reader, &mut buffer).unwrap();
    let value_sent = rkyv::from_bytes::<(u8,), rancor::Error>(archived).unwrap();
    assert_eq!(small_test, value_sent);

    println!("reader: {reader:?}");

    let archived = read_stream::<VarintLength>(&mut reader, &mut buffer).unwrap();
    let value_sent = rkyv::from_bytes::<(u8,), rancor::Error>(archived).unwrap();
    assert_eq!(small_test, value_sent);
    assert!(reader.is_empty());
}

#[test]
fn rkyv_writer() {
    let mut writer = Vec::new();
    let mut sink = RkyvWriter::<_, TestLengthCodec>::new(&mut writer);
    send(&mut sink, &test_bytes());

    let mut reader = &writer[..];

    let mut buffer = AlignedVec::with_capacity(256);
    let archived = read_stream::<TestLengthCodec>(&mut reader, &mut buffer).unwrap();
    assert_eq!(test_value(), rkyv::from_bytes::<Test, rancor::Error>(archived).unwrap());
}

#[test]
fn the_stream_comes_back_out_of_a_writer() {
    let mut codec = RkyvWriter::<Vec<u8>, VarintLength>::new(vec![7]);
    codec.stream_mut().push(8);
    assert_eq!(codec.offer_length().1, &[]);
    assert_eq!(codec.offer_body().1, &[]);
    assert_eq!(codec.inner(), [7, 8]);
}

fn check_in_turn<L: LengthCodec>() {
    let archives: [&[u8]; 4] = [b"one", b"", b"a longer one", &[5; 200]];
    let mut written = Vec::new();
    for archived in archives {
        write_stream::<L>(&mut written, archived);
    }
    let mut sent = Vec::new();
    let mut sink = RkyvWriter::<_, L>::new(&mut sent);
    for archived in archives {
        send(&mut sink, archived);
    }
    assert_eq!(written, sent);
    sent.extend_from_slice(&[9, 9]);

    let mut reader = &sent[..];
    let mut buffer = AlignedVec::new();
    for archived in archives {
        assert_eq!(read_stream::<L>(&mut reader, &mut buffer).unwrap(), archived);
    }
    assert_eq!(reader, &[9, 9]);
}

#[test]
fn frames_are_read_in_the_order_they_were_sent() {
    check_in_turn::<VarintLength>();
    check_in_turn::<U8Length>();
    check_in_turn::<U16Length>();
    check_in_turn::<U32Length>();
    check_in_turn::<U64Length>();
}

#[test]
fn a_stream_cut_short_is_an_error_at_every_byte() {
    let mut whole = Vec::new();
    write_stream::<U16Length>(&mut whole, b"archive");
    for kept in 0..whole.len() {
        let mut reader = &whole[..kept];
        let mut buffer = AlignedVec::new();
        match read_stream::<U16Length>(&mut reader, &mut buffer) {
            Err(RkyvCodecError::ReadLengthError(NotEnoughBytesError)) => assert!(kept < 2),
            Err(RkyvCodecError::IoError(error)) => {
                assert!(kept >= 2);
                assert_eq!(error.kind(), std::io::ErrorKind::UnexpectedEof);
            }
            other => panic!("unexpected outcome: {:?}", other),
        }
    }

    let mut reader: &[u8] = &[0x80];
    let mut buffer = AlignedVec::new();
    assert!(matches!(
        read_stream::<VarintLength>(&mut reader, &mut buffer),
        Err(RkyvCodecError::IoError(_))
    ));
}

#[test]
fn the_packet_buffer_is_made_as_long_as_the_archive() {
    let mut buffer = AlignedVec::new();
    buffer.extend_from_slice(b"before");
    let space = archive_stream::<U8Length>(Ok(3), &mut buffer).unwrap();
    assert_eq!(space, &[0, 0, 0]);
    space.copy_from_slice(b"abc");
    assert_eq!(buffer.as_slice(), b"abc");

    let fault = WithIOError::LengthDecodeError(VarintLengthError::Overflow);
    assert!(matches!(
        archive_stream::<VarintLength>(Err(fault), &mut buffer),
        Err(RkyvCodecError::ReadLengthError(VarintLengthError::Overflow))
    ));
    assert_eq!(buffer.as_slice(), b"");

    let space = archive_stream_unsafe::<U8Length>(Ok(2), &mut buffer).unwrap();
    space[1] = 5;
    assert_eq!(buffer.as_slice(), &[0, 5]);
    assert!(matches!(
        archive_stream_unsafe::<U8Length>(Err(WithIOError::IoError(end_of_stream())), &mut buffer),
        Err(RkyvCodecError::IoError(_))
    ));
    assert_eq!(buffer.as_slice(), b"");
}

#[test]
fn a_stream_that_takes_a_few_bytes_at_a_time_gets_the_frame() {
    let mut sent = Vec::new();
    let mut sink = RkyvWriter::<_, U16Length>::new(&mut sent);
    sink.start_send(b"archive", Ok(())).unwrap();
    assert_eq!(sink.offer_length().1, &[0, 7]);
    flush(&mut sink, &[2, 1, 3, 1]).unwrap();
    assert_eq!(sink.offer_length().1, &[]);
    assert_eq!(sink.offer_body().1, &[]);
    assert_eq!(sent, b"\0\x07archive");
}

#[test]
fn a_stream_that_takes_one_byte_at_a_time_gets_the_frame() {
    let mut sent = Vec::new();
    let mut sink = RkyvWriter::<_, U16Length>::new(&mut sent);
    sink.start_send(&[0x2a], Ok(())).unwrap();
    flush(&mut sink, &[1, 1, 1]).unwrap();
    assert_eq!(sent, [0x00, 0x01, 0x2a]);
}

#[test]
fn the_length_is_offered_until_it_is_taken() {
    let mut sink = RkyvWriter::<Vec<u8>, U16Length>::new(Vec::new());
    sink.start_send(b"ab", Ok(())).unwrap();
    assert!(matches!(sink.poll_flush(FlushEvent::Polled), FlushAction::WriteLength));
    assert!(matches!(sink.poll_flush(FlushEvent::LengthWritten(1)), FlushAction::WriteLength));
    assert_eq!(sink.offer_length().1, &[2]);
    assert!(matches!(sink.poll_flush(FlushEvent::Polled), FlushAction::WriteLength));
    assert_eq!(sink.offer_length().1, &[2]);
    assert!(matches!(sink.poll_flush(FlushEvent::LengthWritten(1)), FlushAction::WriteBody));
    assert_eq!(sink.offer_body().1, b"ab");
    assert!(matches!(sink.poll_flush(FlushEvent::BodyWritten(2)), FlushAction::FlushStream));
    assert!(matches!(sink.poll_flush(FlushEvent::Flushed), FlushAction::Done(Ok(()))));
}

#[test]
fn a_stream_that_takes_nothing_of_the_length_is_at_its_end() {
    let mut sent = Vec::new();
    let mut sink = RkyvWriter::<_, U16Length>::new(&mut sent);
    sink.start_send(b"ab", Ok(())).unwrap();
    assert!(matches!(flush(&mut sink, &[1, 0]), Err(RkyvCodecError::EOFError)));
    assert_eq!(sink.offer_length().1, &[2]);
    assert_eq!(sink.offer_body().1, b"ab");
    flush(&mut sink, &[]).unwrap();
    assert_eq!(sent, b"\0\x02ab");
}

#[test]
fn the_length_of_an_empty_archive_goes_out() {
    let mut sent = Vec::new();
    let mut sink = RkyvWriter::<_, U16Length>::new(&mut sent);
    sink.start_send(b"", Ok(())).unwrap();
    flush(&mut sink, &[1, 1]).unwrap();
    assert_eq!(sink.offer_length().1, &[]);
    assert_eq!(sent, [0, 0]);
}

#[test]
fn flushing_twice_is_flushing_once() {
    let mut sent = Vec::new();
    let mut sink = RkyvWriter::<_, U16Length>::new(&mut sent);
    flush(&mut sink, &[]).unwrap();
    assert!(sink.stream_mut().is_empty());
    sink.start_send(b"ab", Ok(())).unwrap();
    flush(&mut sink, &[1, 1, 1, 1]).unwrap();
    flush(&mut sink, &[]).unwrap();
    assert_eq!(sent, b"\0\x02ab");
}

#[test]
fn a_stream_that_takes_nothing_of_the_archive_is_at_its_end() {
    let mut sent = Vec::new();
    let mut sink = RkyvWriter::<_, U8Length>::new(&mut sent);
    sink.start_send(b"abc", Ok(())).unwrap();
    assert!(matches!(flush(&mut sink, &[1, 2, 0]), Err(RkyvCodecError::EOFError)));
    assert_eq!(sink.offer_body().1, b"c");
    assert_eq!(sent, b"\x03ab");
}

#[test]
fn a_failing_stream_ends_the_flush() {
    let mut sink = RkyvWriter::<Vec<u8>, U8Length>::new(Vec::new());
    sink.start_send(b"abc", Ok(())).unwrap();
    assert!(matches!(sink.poll_flush(FlushEvent::Polled), FlushAction::WriteLength));
    let error = std::io::Error::from(std::io::ErrorKind::BrokenPipe);
    match sink.poll_flush(FlushEvent::Failed(error)) {
        FlushAction::Done(Err(RkyvCodecError::IoError(error))) => {
            assert_eq!(error.kind(), std::io::ErrorKind::BrokenPipe)
        }
        other => panic!("unexpected action: {:?}", other),
    }
    assert_eq!(sink.offer_length().1, &[3]);
    assert_eq!(sink.offer_body().1, b"abc");
}

#[test]
fn a_packet_that_cannot_be_serialized_gets_no_frame() {
    let mut bytes = test_bytes();
    bytes.as_mut_slice().fill(0xff);
    let error = rkyv::access::<Archived<Test>, rancor::Error>(&bytes).map(|_| ()).unwrap_err();

    let mut sent = Vec::new();
    let mut sink = RkyvWriter::<_, U8Length>::new(&mut sent);
    send(&mut sink, b"first");
    assert!(matches!(sink.start_send(b"part", Err(error)), Err(RkyvCodecError::SerializeError)));
    assert_eq!(sink.offer_length().1, &[]);
    assert_eq!(sink.offer_body().1, &[]);
    flush(&mut sink, &[]).unwrap();
    assert_eq!(sent, b"\x05first");
}

#[test]
fn what_was_written_before_a_failure_is_sent_from_the_old_position() {
    let broken = || {
        rkyv::access::<Archived<Test>, rancor::Error>(&[]).map(|_| ()).unwrap_err()
    };
    let mut sent = Vec::new();
    let mut sink = RkyvWriter::<_, U8Length>::new(&mut sent);
    assert!(matches!(sink.start_send(b"ab", Err(broken())), Err(RkyvCodecError::SerializeError)));
    flush(&mut sink, &[]).unwrap();
    assert_eq!(&sink.stream_mut()[..], b"ab");
    assert!(matches!(
        sink.start_send(b"cdefg", Err(broken())),
        Err(RkyvCodecError::SerializeError)
    ));
    assert_eq!(sink.offer_body().1, b"efg");
    flush(&mut sink, &[]).unwrap();
    assert_eq!(sent, b"abefg");
}

#[test]
fn a_new_packet_takes_the_place_of_an_unsent_one() {
    let mut sent = Vec::new();
    let mut sink = RkyvWriter::<_, U8Length>::new(&mut sent);
    sink.start_send(b"dropped", Ok(())).unwrap();
    send(&mut sink, b"kept");
    assert_eq!(sent, b"\x04kept");
}

#[test]
fn stream_faults_become_errors_of_the_library() {
    assert!(matches!(
        RkyvCodecError::<U8Length>::from(WithIOError::IoError(end_of_stream())),
        RkyvCodecError::IoError(_)
    ));
    assert!(matches!(
        RkyvCodecError::<U8Length>::from(WithIOError::LengthDecodeError(NotEnoughBytesError)),
        RkyvCodecError::ReadLengthError(NotEnoughBytesError)
    ));
    assert!(matches!(
        RkyvCodecError::<U8Length>::from(end_of_stream()),
        RkyvCodecError::IoError(_)
    ));
}
