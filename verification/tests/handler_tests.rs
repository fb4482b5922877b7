use stream_server::decoder::decode_chunked;
use stream_server::encoder::{encode_header, EncoderMode};
use stream_server::handler::{
    classify, head_event, write_outcome, Action, Connection, ConnectionError, ConnectionState,
    Event,
};

fn streaming(mode: EncoderMode) -> Connection {
    let mut conn = Connection::new(mode);
    assert_eq!(conn.step(Event::HeadLine(Vec::new())), Action::WriteHeader(encode_header(mode)));
    assert_eq!(conn.step(Event::WriteDone), Action::Receive);
    assert_eq!(conn.state(), ConnectionState::Streaming);
    conn
}

#[test]
fn fresh_connection_reads_the_head() {
    let conn = Connection::new(EncoderMode::Chunked);
    assert_eq!(conn.state(), ConnectionState::ReadingHead);
    assert_eq!(conn.mode, EncoderMode::Chunked);
    assert!(!conn.is_closed());
}

#[test]
fn head_lines_are_read_until_the_blank_line() {
    let mut conn = Connection::new(EncoderMode::Chunked);
    assert_eq!(conn.step(Event::HeadLine(b"GET / HTTP/1.1".to_vec())), Action::ReadLine);
    assert_eq!(conn.state(), ConnectionState::ReadingHead);
    assert_eq!(conn.step(Event::HeadLine(b"Host: localhost".to_vec())), Action::ReadLine);
    assert_eq!(conn.state(), ConnectionState::ReadingHead);
    let action = conn.step(Event::HeadLine(Vec::new()));
    assert_eq!(action, Action::WriteHeader(encode_header(EncoderMode::Chunked)));
    assert_eq!(conn.state(), ConnectionState::WritingHeader);
}

#[test]
fn head_ends_at_end_of_stream() {
    let mut conn = Connection::new(EncoderMode::EventStream);
    assert_eq!(conn.step(Event::HeadLine(b"GET / HTTP/1.1".to_vec())), Action::ReadLine);
    let action = conn.step(Event::HeadEnd);
    assert_eq!(action, Action::WriteHeader(encode_header(EncoderMode::EventStream)));
    assert_eq!(conn.state(), ConnectionState::WritingHeader);
}

#[test]
fn read_failure_closes_without_a_response() {
    let mut conn = Connection::new(EncoderMode::Chunked);
    assert_eq!(conn.step(Event::HeadLine(b"GET / HTTP/1.1".to_vec())), Action::ReadLine);
    assert_eq!(conn.step(Event::ReadFailed), Action::Close);
    assert_eq!(conn.state(), ConnectionState::Closed);
    assert!(conn.is_closed());
}

#[test]
fn header_write_failure_closes_before_streaming() {
    let mut conn = Connection::new(EncoderMode::Chunked);
    conn.step(Event::HeadLine(Vec::new()));
    assert_eq!(conn.step(Event::WriteFailed), Action::Close);
    assert_eq!(conn.state(), ConnectionState::Closed);
}

#[test]
fn chunked_connection_streams_frames_in_order() {
    let mut conn = streaming(EncoderMode::Chunked);
    assert_eq!(conn.step(Event::Message(b"1".to_vec())), Action::WriteFrame(b"1\r\n1\r\n".to_vec()));
    assert_eq!(conn.step(Event::WriteDone), Action::Receive);
    assert_eq!(
        conn.step(Event::Message(b"hello world".to_vec())),
        Action::WriteFrame(b"b\r\nhello world\r\n".to_vec())
    );
    assert_eq!(conn.step(Event::WriteDone), Action::Receive);
    assert_eq!(conn.state(), ConnectionState::Streaming);
    assert_eq!(conn.step(Event::SourceClosed), Action::Finish(b"0\r\n\r\n".to_vec()));
    assert_eq!(conn.state(), ConnectionState::Closed);
}

#[test]
fn event_stream_connection_streams_and_closes_plainly() {
    let mut conn = streaming(EncoderMode::EventStream);
    assert_eq!(conn.step(Event::Message(b"7".to_vec())), Action::WriteFrame(b"data: 7\n\n".to_vec()));
    assert_eq!(conn.step(Event::WriteDone), Action::Receive);
    assert_eq!(conn.step(Event::SourceClosed), Action::Close);
    assert_eq!(conn.state(), ConnectionState::Closed);
}

#[test]
fn frame_write_failure_closes_the_connection() {
    let mut conn = streaming(EncoderMode::Chunked);
    conn.step(Event::Message(b"1".to_vec()));
    assert_eq!(conn.step(Event::WriteFailed), Action::Finish(b"0\r\n\r\n".to_vec()));
    assert_eq!(conn.state(), ConnectionState::Closed);

    let mut conn = streaming(EncoderMode::EventStream);
    conn.step(Event::Message(b"1".to_vec()));
    assert_eq!(conn.step(Event::WriteFailed), Action::Close);
    assert_eq!(conn.state(), ConnectionState::Closed);
}

#[test]
fn write_failure_on_one_connection_leaves_the_other_alone() {
    let mut a = streaming(EncoderMode::Chunked);
    let mut b = streaming(EncoderMode::Chunked);
    a.step(Event::Message(b"1".to_vec()));
    a.step(Event::WriteFailed);
    assert!(a.is_closed());
    assert_eq!(b.state(), ConnectionState::Streaming);
    assert_eq!(b.step(Event::Message(b"2".to_vec())), Action::WriteFrame(b"1\r\n2\r\n".to_vec()));
    assert_eq!(b.step(Event::WriteDone), Action::Receive);
}

#[test]
fn closed_connection_stays_closed_and_idle() {
    let mut conn = streaming(EncoderMode::Chunked);
    conn.step(Event::SourceClosed);
    for event in [
        Event::HeadLine(Vec::new()),
        Event::HeadEnd,
        Event::ReadFailed,
        Event::WriteDone,
        Event::WriteFailed,
        Event::Message(b"9".to_vec()),
        Event::SourceClosed,
    ] {
        assert_eq!(conn.step(event), Action::Idle);
        assert_eq!(conn.state(), ConnectionState::Closed);
    }
}

#[test]
fn event_out_of_place_releases_the_connection() {
    let mut conn = Connection::new(EncoderMode::Chunked);
    assert_eq!(conn.step(Event::Message(b"1".to_vec())), Action::Close);
    assert!(conn.is_closed());

    let mut conn = Connection::new(EncoderMode::Chunked);
    conn.step(Event::HeadEnd);
    assert_eq!(conn.step(Event::SourceClosed), Action::Close);
    assert!(conn.is_closed());

    let mut conn = streaming(EncoderMode::Chunked);
    assert_eq!(conn.step(Event::HeadEnd), Action::Close);
    assert!(conn.is_closed());
}

#[test]
fn header_is_written_once_and_first() {
    let events = vec![
        Event::HeadLine(b"GET / HTTP/1.1".to_vec()),
        Event::HeadLine(Vec::new()),
        Event::WriteDone,
        Event::Message(b"1".to_vec()),
        Event::WriteDone,
        Event::Message(b"2".to_vec()),
        Event::WriteDone,
        Event::SourceClosed,
        Event::WriteDone,
    ];
    let mut conn = Connection::new(EncoderMode::Chunked);
    let mut headers = Vec::new();
    let mut bodies = Vec::new();
    let mut finishes = 0;
    for (i, event) in events.into_iter().enumerate() {
        match conn.step(event) {
            Action::WriteHeader(_) => headers.push(i),
            Action::WriteFrame(_) => bodies.push(i),
            Action::Finish(_) => {
                bodies.push(i);
                finishes += 1;
            }
            _ => {}
        }
    }
    assert_eq!(headers, vec![1]);
    assert_eq!(bodies, vec![3, 5, 7]);
    assert_eq!(finishes, 1);
}

#[test]
fn write_and_flush_failures_are_one_event() {
    assert_eq!(write_outcome(true, true), Event::WriteDone);
    assert_eq!(write_outcome(true, false), Event::WriteFailed);
    assert_eq!(write_outcome(false, true), Event::WriteFailed);
    assert_eq!(write_outcome(false, false), Event::WriteFailed);
}

#[test]
fn failures_are_named_by_where_they_happen() {
    assert_eq!(
        classify(ConnectionState::ReadingHead, &Event::ReadFailed),
        Some(ConnectionError::ConnectionReadError)
    );
    assert_eq!(
        classify(ConnectionState::WritingHeader, &Event::WriteFailed),
        Some(ConnectionError::HeaderWriteError)
    );
    assert_eq!(
        classify(ConnectionState::Streaming, &Event::WriteFailed),
        Some(ConnectionError::FrameWriteError)
    );
    assert_eq!(
        classify(ConnectionState::Streaming, &Event::ReadFailed),
        Some(ConnectionError::UnexpectedEvent)
    );
}

#[test]
fn end_of_source_is_no_failure() {
    assert_eq!(classify(ConnectionState::Streaming, &Event::SourceClosed), None);
    assert_eq!(classify(ConnectionState::Streaming, &Event::Message(b"1".to_vec())), None);
    assert_eq!(classify(ConnectionState::ReadingHead, &Event::HeadEnd), None);
    assert_eq!(classify(ConnectionState::WritingHeader, &Event::WriteDone), None);
    assert_eq!(classify(ConnectionState::Closed, &Event::WriteFailed), None);
}

#[test]
fn chunked_stream_decodes_to_the_messages() {
    let mode = EncoderMode::Chunked;
    let mut conn = Connection::new(mode);
    let mut wire: Vec<u8> = Vec::new();
    let mut events = vec![Event::HeadLine(b"GET / HTTP/1.1".to_vec()), Event::HeadEnd, Event::WriteDone];
    for message in ["1", "22", "three", "a much longer message than sixteen bytes"] {
        events.push(Event::Message(message.as_bytes().to_vec()));
        events.push(Event::WriteDone);
    }
    events.push(Event::SourceClosed);
    for event in events {
        match conn.step(event) {
            Action::WriteHeader(bytes) | Action::WriteFrame(bytes) | Action::Finish(bytes) => {
                wire.extend_from_slice(&bytes)
            }
            _ => {}
        }
    }
    assert!(conn.is_closed());
    let header = encode_header(mode);
    assert_eq!(&wire[..header.len()], &header[..]);
    assert_eq!(
        decode_chunked(&wire[header.len()..]),
        Some(b"122threea much longer message than sixteen bytes".to_vec())
    );
}

#[test]
fn event_stream_wire_is_header_and_events() {
    let mode = EncoderMode::EventStream;
    let mut conn = Connection::new(mode);
    let mut wire: Vec<u8> = Vec::new();
    let events = vec![
        Event::HeadEnd,
        Event::WriteDone,
        Event::Message(b"1".to_vec()),
        Event::WriteDone,
        Event::Message(b"2".to_vec()),
        Event::WriteDone,
        Event::SourceClosed,
    ];
    for event in events {
        match conn.step(event) {
            Action::WriteHeader(bytes) | Action::WriteFrame(bytes) | Action::Finish(bytes) => {
                wire.extend_from_slice(&bytes)
            }
            _ => {}
        }
    }
    let mut expected = encode_header(mode);
    expected.extend_from_slice(b"data: 1\n\ndata: 2\n\n");
    assert_eq!(wire, expected);
}

#[test]
fn head_event_strips_one_line_end() {
    assert_eq!(head_event(b"GET / HTTP/1.1\r\n"), Event::HeadLine(b"GET / HTTP/1.1".to_vec()));
    assert_eq!(head_event(b"GET / HTTP/1.1\n"), Event::HeadLine(b"GET / HTTP/1.1".to_vec()));
    assert_eq!(head_event(b"Host: x"), Event::HeadLine(b"Host: x".to_vec()));
    assert_eq!(head_event(b"a\r\n\r\n"), Event::HeadLine(b"a\r\n".to_vec()));
    assert_eq!(head_event(b"a\r"), Event::HeadLine(b"a\r".to_vec()));
    assert_eq!(head_event(b"a\n\r"), Event::HeadLine(b"a\n\r".to_vec()));
}

#[test]
fn head_event_of_a_blank_line_is_an_empty_line() {
    assert_eq!(head_event(b"\r\n"), Event::HeadLine(Vec::new()));
    assert_eq!(head_event(b"\n"), Event::HeadLine(Vec::new()));
    let mut conn = Connection::new(EncoderMode::Chunked);
    assert_eq!(conn.step(head_event(b"GET / HTTP/1.1\r\n")), Action::ReadLine);
    assert_eq!(
        conn.step(head_event(b"\r\n")),
        Action::WriteHeader(encode_header(EncoderMode::Chunked))
    );
}

#[test]
fn head_event_of_no_bytes_is_the_end_of_the_stream() {
    assert_eq!(head_event(b""), Event::HeadEnd);
}
