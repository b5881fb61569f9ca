use qemu_agent::reader::{Progress, ReadEvent};
use qemu_agent::{
    Error, ErrorKind, Frame, FrameReader, FrameType, HEADER_SIZE, MAX_FRAME_SIZE, MAX_PAYLOAD,
};

/// Encode a frame and decode it back through a `FrameReader`.
fn round_trip(frame: &Frame) -> Frame {
    let mut buf = Vec::new();
    frame.write_to(&mut buf).expect("encode");
    let mut reader = FrameReader::new(buf);
    let decoded = reader.next().expect("a frame").expect("no error");
    assert!(reader.next().is_none(), "exactly one frame");
    decoded
}

#[test]
fn round_trip_every_endpoint() {
    let frames = [
        Frame::stdin(b"hello stdin".to_vec()),
        Frame::stdout(b"hello stdout".to_vec()),
        Frame::stderr(b"hello stderr".to_vec()),
        Frame::resize(80, 24),
        Frame::exit(42),
    ];
    for frame in &frames {
        assert_eq!(&round_trip(frame), frame);
    }
}

#[test]
fn empty_payload_round_trips() {
    let frame = Frame::stdin(Vec::new());
    assert_eq!(round_trip(&frame), frame);
}

#[test]
fn resize_payload_decodes() {
    let frame = Frame::resize(120, 40);
    assert_eq!(frame.as_resize(), Some((120, 40)));
}

#[test]
fn exit_payload_decodes() {
    let frame = Frame::exit(137);
    assert_eq!(frame.as_exit(), Some(137));
    assert_eq!(Frame::exit(0).as_exit(), Some(0));
    assert!(Frame::stdout(b"not an exit".to_vec()).as_exit().is_none());
}

#[test]
fn max_payload_round_trips() {
    let frame = Frame::stdout(vec![0xab; MAX_PAYLOAD]);
    assert_eq!(round_trip(&frame), frame);
}

#[test]
fn oversize_payload_rejected_on_write() {
    let frame = Frame::stdout(vec![0u8; MAX_PAYLOAD + 1]);
    let mut buf = Vec::new();
    let err = frame.write_to(&mut buf).expect_err("expected an error");
    assert_eq!(err.kind(), ErrorKind::InvalidInput);
}

#[test]
fn oversize_payload_rejected_on_read() {
    // Hand-craft a header advertising a payload bigger than the ceiling.
    let bogus_len = (MAX_PAYLOAD + 1) as u16;
    let mut bytes = vec![FrameType::Stdout as u8];
    bytes.extend_from_slice(&bogus_len.to_le_bytes());
    let mut reader = FrameReader::new(bytes);
    let err = reader
        .next()
        .expect("a result")
        .expect_err("expected an error");
    assert_eq!(err.kind(), ErrorKind::InvalidInput);
}

#[test]
fn truncated_header_is_unexpected_eof() {
    let reader = FrameReader::new(vec![FrameType::Stdin as u8]);
    let err = reader
        .frames()
        .into_iter()
        .next()
        .expect("a result")
        .expect_err("expected an error");
    assert_eq!(err.kind(), ErrorKind::UnexpectedEof);
}

#[test]
fn truncated_payload_is_unexpected_eof() {
    // Header claims 5 bytes of payload, but only 2 follow.
    let mut bytes = vec![FrameType::Stdin as u8, 5, 0];
    bytes.extend_from_slice(b"ab");
    let mut reader = FrameReader::new(bytes);
    let err = reader
        .next()
        .expect("a result")
        .expect_err("expected an error");
    assert_eq!(err.kind(), ErrorKind::UnexpectedEof);
}

#[test]
fn unknown_endpoint_still_decodes() {
    // Endpoint 99 is unknown, but the frame must still decode so the
    // stream stays in sync; the caller decides to drop it.
    let frame = Frame::new(FrameType::Unknown, b"mystery".to_vec());
    let decoded = round_trip(&frame);
    assert_eq!(decoded.frame_type, FrameType::Unknown);
    assert_eq!(decoded.payload, b"mystery");
    assert!(decoded.as_resize().is_none());
}

#[test]
fn clean_eof_terminates_iteration() {
    let reader = FrameReader::new(Vec::new());
    assert_eq!(reader.frames().into_iter().count(), 0);
}

#[test]
fn sizes_of_the_wire() {
    assert_eq!(MAX_FRAME_SIZE, 16384);
    assert_eq!(HEADER_SIZE, 3);
    assert_eq!(MAX_PAYLOAD, 16381);
    let mut buf = Vec::new();
    Frame::stdout(vec![7; MAX_PAYLOAD]).write_to(&mut buf).unwrap();
    assert_eq!(buf.len(), MAX_FRAME_SIZE);
}

#[test]
fn every_type_has_its_byte() {
    let types = [
        (FrameType::Unknown, 0, "Unknown"),
        (FrameType::Start, 1, "Start"),
        (FrameType::Stdin, 2, "Stdin"),
        (FrameType::Stdout, 3, "Stdout"),
        (FrameType::Stderr, 4, "Stderr"),
        (FrameType::Resize, 5, "Resize"),
        (FrameType::Exit, 6, "Exit"),
    ];
    for (frame_type, byte, name) in types {
        assert_eq!(frame_type.code(), byte);
        assert_eq!(frame_type as u8, byte);
        assert_eq!(FrameType::from(byte), frame_type);
        assert_eq!(frame_type.name(), name);
        assert_eq!(frame_type.name(), format!("{:?}", frame_type));
    }
    assert_eq!(FrameType::from(7), FrameType::Unknown);
    assert_eq!(FrameType::from(99), FrameType::Unknown);
    assert_eq!(FrameType::from(255), FrameType::Unknown);
}

#[test]
fn wire_form_is_type_length_payload() {
    let mut buf = vec![0xee];
    Frame::stdin(b"ab".to_vec()).write_to(&mut buf).unwrap();
    assert_eq!(buf, [0xee, 2, 2, 0, b'a', b'b']);

    let mut buf = Vec::new();
    Frame::resize(0x0102, 0x0304).write_to(&mut buf).unwrap();
    assert_eq!(buf, [5, 4, 0, 0x02, 0x01, 0x04, 0x03]);

    let mut buf = Vec::new();
    Frame::exit(-2).write_to(&mut buf).unwrap();
    assert_eq!(buf, [6, 4, 0, 0xfe, 0xff, 0xff, 0xff]);

    let mut buf = Vec::new();
    Frame::stderr(vec![1; 0x0234]).write_to(&mut buf).unwrap();
    assert_eq!(buf[..4], [4, 0x34, 0x02, 1]);
}

#[test]
fn exit_codes_keep_their_sign() {
    for code in [0, 1, 127, 128, 255, 256, 65536, -1, -2, i32::MAX, i32::MIN] {
        assert_eq!(Frame::exit(code).payload, code.to_le_bytes().to_vec());
        assert_eq!(Frame::exit(code).as_exit(), Some(code));
    }
}

#[test]
fn malformed_payloads_do_not_decode() {
    assert_eq!(Frame::new(FrameType::Exit, vec![0; 3]).as_exit(), None);
    assert_eq!(Frame::new(FrameType::Exit, vec![0; 5]).as_exit(), None);
    assert_eq!(Frame::new(FrameType::Resize, vec![0; 3]).as_resize(), None);
    assert_eq!(Frame::new(FrameType::Resize, vec![]).as_resize(), None);
    assert_eq!(Frame::exit(7).as_resize(), None);
    assert_eq!(Frame::resize(7, 7).as_exit(), None);
}

#[test]
fn stdin_eof_is_an_empty_stdin_frame() {
    assert_eq!(Frame::stdin_eof(), Frame::stdin(Vec::new()));
}

#[test]
fn errors_say_what_is_wrong() {
    let mut buf = vec![1, 2, 3];
    let err = Frame::stdout(vec![0u8; 16390])
        .write_to(&mut buf)
        .expect_err("too large");
    assert_eq!(err.message(), "payload too large: 16390 bytes (max 16381)");
    assert_eq!(buf, [1, 2, 3]);

    let err = FrameReader::new(vec![3, 0xff, 0xff])
        .next()
        .expect("a result")
        .expect_err("too large");
    assert_eq!(err.message(), "payload too large: 65535 bytes (max 16381)");

    let err = FrameReader::new(vec![3, 1])
        .next()
        .expect("a result")
        .expect_err("cut short");
    assert_eq!(err.message(), "unexpected eof in the middle of a frame");
}

#[test]
fn frames_follow_one_another() {
    let frames = vec![
        Frame::new(FrameType::Start, Vec::new()),
        Frame::resize(80, 24),
        Frame::stdin(b"ls\n".to_vec()),
        Frame::stdin_eof(),
        Frame::exit(3),
    ];
    let mut buf = Vec::new();
    for frame in &frames {
        frame.write_to(&mut buf).unwrap();
    }
    let read: Vec<Frame> = FrameReader::new(buf)
        .frames()
        .into_iter()
        .map(|result| result.unwrap())
        .collect();
    assert_eq!(read, frames);
}

#[test]
fn an_unknown_type_keeps_the_stream_in_sync() {
    let mut buf = vec![99, 2, 0, b'h', b'i'];
    Frame::exit(1).write_to(&mut buf).unwrap();
    let mut reader = FrameReader::new(buf);
    let unknown = reader.next().unwrap().unwrap();
    assert_eq!(unknown, Frame::new(FrameType::Unknown, b"hi".to_vec()));
    assert_eq!(reader.next(), Some(Ok(Frame::exit(1))));
    assert_eq!(reader.next(), None);
}

#[test]
fn reading_goes_on_behind_an_oversized_header() {
    let mut buf = vec![3, 0xff, 0xff];
    Frame::exit(1).write_to(&mut buf).unwrap();
    let results = FrameReader::new(buf).frames();
    assert_eq!(results.len(), 2);
    assert!(results[0].is_err());
    assert_eq!(results[1], Ok(Frame::exit(1)));
}

#[test]
fn into_inner_hands_back_the_unread_rest() {
    let mut buf = Vec::new();
    Frame::exit(1).write_to(&mut buf).unwrap();
    buf.extend_from_slice(b"rest");
    let mut reader = FrameReader::new(buf);
    reader.next();
    assert_eq!(reader.into_inner(), b"rest".to_vec());
}

/// Feed a stream to a reader in pieces of at most `piece` bytes, with an
/// interruption before each.
fn feed_in_pieces(stream: &[u8], piece: usize) -> Vec<Result<Frame, Error>> {
    let mut reader = FrameReader::new(());
    let mut results = Vec::new();
    let mut position = 0;
    loop {
        assert_eq!(reader.feed::<()>(ReadEvent::Interrupted), Progress::More);
        let count = reader.wanted().min(piece).min(stream.len() - position);
        let event = if count == 0 {
            ReadEvent::Eof
        } else {
            ReadEvent::Data(stream[position..position + count].to_vec())
        };
        position += count;
        match reader.feed::<()>(event) {
            Progress::More => {}
            Progress::Frame(frame) => results.push(Ok(frame)),
            Progress::Invalid(error) => {
                results.push(Err(error));
                if position == stream.len() {
                    return results;
                }
            }
            Progress::End => return results,
            Progress::Failed(()) => unreachable!(),
        }
    }
}

#[test]
fn cuts_do_not_matter() {
    let mut stream = Vec::new();
    Frame::stdout(vec![5; 1000]).write_to(&mut stream).unwrap();
    stream.extend_from_slice(&[3, 0xff, 0xff]);
    Frame::stdin_eof().write_to(&mut stream).unwrap();
    Frame::resize(1, 2).write_to(&mut stream).unwrap();
    stream.extend_from_slice(&[2, 9, 0, 1]);
    let whole = FrameReader::new(stream.clone()).frames();
    assert_eq!(whole.len(), 5);
    for piece in [1, 2, 3, 5, 7, 999, 2000] {
        assert_eq!(feed_in_pieces(&stream, piece), whole);
    }
}

#[test]
fn a_failed_stream_starts_over_at_a_frame_boundary() {
    let mut reader = FrameReader::new(());
    assert_eq!(reader.wanted(), 3);
    assert_eq!(reader.feed::<&str>(ReadEvent::Data(vec![2, 5])), Progress::More);
    assert_eq!(reader.wanted(), 1);
    assert_eq!(reader.feed::<&str>(ReadEvent::Data(vec![0])), Progress::More);
    assert_eq!(reader.wanted(), 5);
    assert_eq!(
        reader.feed(ReadEvent::Failed("broken")),
        Progress::Failed("broken")
    );
    assert_eq!(reader.wanted(), 3);
    assert_eq!(reader.feed::<&str>(ReadEvent::Eof), Progress::End);
}

#[test]
fn a_truncated_frame_is_an_error_wherever_it_is_cut() {
    let mut stream = Vec::new();
    Frame::stdin(b"hello".to_vec()).write_to(&mut stream).unwrap();
    for kept in 1..stream.len() {
        let results = FrameReader::new(stream[..kept].to_vec()).frames();
        assert_eq!(results.len(), 1);
        assert_eq!(
            results[0].as_ref().unwrap_err().kind(),
            ErrorKind::UnexpectedEof
        );
    }
}
