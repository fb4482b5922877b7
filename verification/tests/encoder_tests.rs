use stream_server::decoder::decode_chunked;
use stream_server::encoder::{
    encode_chunk, encode_event, encode_header, encode_message, encode_terminal, EncoderMode,
    EncodingFrame,
};

fn body_of(payload: &[u8]) -> Vec<u8> {
    let mut body = encode_chunk(payload);
    body.extend_from_slice(&encode_terminal(EncoderMode::Chunked));
    body
}

#[test]
fn chunk_frame_of_short_payload() {
    assert_eq!(encode_chunk(b"hello"), b"5\r\nhello\r\n".to_vec());
}

#[test]
fn chunk_frame_of_single_digit_counter() {
    assert_eq!(encode_chunk(b"1"), b"1\r\n1\r\n".to_vec());
}

#[test]
fn chunk_length_is_hexadecimal() {
    let payload = vec![b'x'; 26];
    let frame = encode_chunk(&payload);
    assert_eq!(&frame[..4], b"1a\r\n");
    assert_eq!(&frame[4..30], &payload[..]);
    assert_eq!(&frame[30..], b"\r\n");
}

#[test]
fn chunk_length_ten_is_a_not_10() {
    let frame = encode_chunk(b"0123456789");
    assert_eq!(frame, b"a\r\n0123456789\r\n".to_vec());
}

#[test]
fn chunk_length_at_digit_boundaries() {
    assert_eq!(&encode_chunk(&vec![0u8; 15])[..3], b"f\r\n");
    assert_eq!(&encode_chunk(&vec![0u8; 16])[..4], b"10\r\n");
    assert_eq!(&encode_chunk(&vec![0u8; 255])[..4], b"ff\r\n");
    assert_eq!(&encode_chunk(&vec![0u8; 256])[..5], b"100\r\n");
    assert_eq!(&encode_chunk(&vec![0u8; 4096])[..6], b"1000\r\n");
}

#[test]
fn chunk_frame_of_empty_payload() {
    assert_eq!(encode_chunk(b""), b"0\r\n\r\n".to_vec());
}

#[test]
fn chunk_frame_keeps_line_ends_in_payload() {
    assert_eq!(encode_chunk(b"a\r\nb"), b"4\r\na\r\nb\r\n".to_vec());
}

#[test]
fn chunked_terminal_is_zero_chunk() {
    assert_eq!(encode_terminal(EncoderMode::Chunked), b"0\r\n\r\n".to_vec());
}

#[test]
fn event_stream_has_no_terminal_bytes() {
    assert_eq!(encode_terminal(EncoderMode::EventStream), Vec::<u8>::new());
}

#[test]
fn event_frame_is_exact() {
    assert_eq!(encode_event(b"42"), b"data: 42\n\n".to_vec());
    assert_eq!(encode_event(b""), b"data: \n\n".to_vec());
    assert_eq!(encode_event(b"hello world"), b"data: hello world\n\n".to_vec());
}

#[test]
fn encode_message_follows_the_mode() {
    assert_eq!(encode_message(EncoderMode::Chunked, b"abc"), b"3\r\nabc\r\n".to_vec());
    assert_eq!(encode_message(EncoderMode::EventStream, b"abc"), b"data: abc\n\n".to_vec());
}

#[test]
fn chunked_header_is_exact() {
    assert_eq!(
        encode_header(EncoderMode::Chunked),
        b"HTTP/1.1 200 OK\r\nContent-Type: text/plain\r\nTransfer-Encoding: chunked\r\nX-Content-Type-Options: nosniff\r\n\r\n".to_vec()
    );
}

#[test]
fn event_stream_header_is_exact() {
    assert_eq!(
        encode_header(EncoderMode::EventStream),
        b"HTTP/1.1 200 OK\r\nContent-Type: text/event-stream\r\nCache-Control: no-cache\r\nConnection: keep-alive\r\n\r\n".to_vec()
    );
}

#[test]
fn round_trip_of_one_chunk() {
    for payload in [&b"1"[..], &b"hello"[..], &b"a\r\nb"[..], &b"0\r\n\r\n"[..], &b""[..]] {
        assert_eq!(decode_chunked(&body_of(payload)), Some(payload.to_vec()));
    }
}

#[test]
fn round_trip_of_long_payloads() {
    for len in [9usize, 10, 15, 16, 17, 255, 256, 300, 4095, 4096, 70000] {
        let payload: Vec<u8> = (0..len).map(|i| (i % 251) as u8).collect();
        assert_eq!(decode_chunked(&body_of(&payload)), Some(payload));
    }
}

#[test]
fn decode_joins_several_chunks() {
    let mut body = Vec::new();
    for message in ["1", "2", "3", "10", "hello"] {
        body.extend_from_slice(&encode_chunk(message.as_bytes()));
    }
    body.extend_from_slice(&encode_terminal(EncoderMode::Chunked));
    assert_eq!(decode_chunked(&body), Some(b"12310hello".to_vec()));
}

#[test]
fn decode_reads_the_length_as_hexadecimal() {
    assert_eq!(
        decode_chunked(b"10\r\n0123456789abcdef\r\n0\r\n\r\n"),
        Some(b"0123456789abcdef".to_vec())
    );
    assert_eq!(decode_chunked(b"A\r\n0123456789\r\n0\r\n\r\n"), Some(b"0123456789".to_vec()));
    assert_eq!(decode_chunked(b"0a\r\n0123456789\r\n0\r\n\r\n"), Some(b"0123456789".to_vec()));
}

#[test]
fn decode_of_terminal_alone_is_empty() {
    assert_eq!(decode_chunked(b"0\r\n\r\n"), Some(Vec::new()));
}

#[test]
fn decode_ignores_bytes_after_the_closing_chunk() {
    assert_eq!(decode_chunked(b"1\r\nx\r\n0\r\n\r\nrest"), Some(b"x".to_vec()));
}

#[test]
fn decode_refuses_incomplete_bodies() {
    assert_eq!(decode_chunked(b""), None);
    assert_eq!(decode_chunked(b"5\r\nhello\r\n"), None);
    assert_eq!(decode_chunked(b"5\r\nhel"), None);
    assert_eq!(decode_chunked(b"5\r\nhello\r\n0\r\n"), None);
    assert_eq!(decode_chunked(b"0\r\n"), None);
}

#[test]
fn decode_refuses_malformed_bodies() {
    assert_eq!(decode_chunked(b"\r\nhello\r\n0\r\n\r\n"), None);
    assert_eq!(decode_chunked(b"g\r\nhello\r\n0\r\n\r\n"), None);
    assert_eq!(decode_chunked(b"5\nhello\r\n0\r\n\r\n"), None);
    assert_eq!(decode_chunked(b"4\r\nhello\r\n0\r\n\r\n"), None);
    assert_eq!(decode_chunked(b"6\r\nhello\r\n0\r\n\r\n"), None);
    assert_eq!(decode_chunked(b"5;x=y\r\nhello\r\n0\r\n\r\n"), None);
}

#[test]
fn decode_refuses_a_length_beyond_the_input() {
    assert_eq!(decode_chunked(b"ffffffffffffffffffffffff\r\nx\r\n0\r\n\r\n"), None);
    assert_eq!(decode_chunked(b"ffffffffffffffff\r\nx\r\n0\r\n\r\n"), None);
    assert_eq!(decode_chunked(b"2\r\nx\r\n"), None);
}

#[test]
fn decimal_length_would_not_round_trip() {
    let payload = vec![b'z'; 16];
    let mut wrong = b"16\r\n".to_vec();
    wrong.extend_from_slice(&payload);
    wrong.extend_from_slice(b"\r\n0\r\n\r\n");
    assert_ne!(decode_chunked(&wrong), Some(payload.clone()));
    assert_eq!(decode_chunked(&body_of(&payload)), Some(payload));
}

#[test]
fn frame_for_a_message_follows_the_mode() {
    assert_eq!(
        EncodingFrame::for_message(EncoderMode::Chunked, b"hello".to_vec()),
        EncodingFrame::ChunkFrame { length: 5, payload: b"hello".to_vec() }
    );
    assert_eq!(
        EncodingFrame::for_message(EncoderMode::EventStream, b"hello".to_vec()),
        EncodingFrame::SseFrame { payload: b"hello".to_vec() }
    );
}

#[test]
fn closing_frame_exists_only_in_chunked_mode() {
    assert_eq!(EncodingFrame::closing(EncoderMode::Chunked), Some(EncodingFrame::TerminalFrame));
    assert_eq!(EncodingFrame::closing(EncoderMode::EventStream), None);
}

#[test]
fn frames_encode_to_their_wire_bytes() {
    let chunk = EncodingFrame::for_message(EncoderMode::Chunked, vec![b'q'; 31]);
    let mut expected = b"1f\r\n".to_vec();
    expected.extend_from_slice(&[b'q'; 31]);
    expected.extend_from_slice(b"\r\n");
    assert_eq!(chunk.encode(), expected);
    let event = EncodingFrame::for_message(EncoderMode::EventStream, b"3".to_vec());
    assert_eq!(event.encode(), b"data: 3\n\n".to_vec());
    assert_eq!(EncodingFrame::TerminalFrame.encode(), b"0\r\n\r\n".to_vec());
}
