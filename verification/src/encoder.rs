//! Stream encoders: turn one message into the bytes of one response frame.
//!
//! Chunked mode frames a payload as `<hex-length>\r\n<payload>\r\n` and ends
//! the body with `0\r\n\r\n`. Event-stream mode frames a payload as
//! `data: <payload>\n\n` and has no terminal bytes: the stream ends when the
//! connection closes.

use vstd::prelude::*;
use vstd::string::StringSliceAdditionalSpecFns;

verus! {

/// Carriage return.
pub const CR: u8 = 13;

/// Line feed.
pub const LF: u8 = 10;

/// The framing chosen for a connection when its header is written.
#[derive(Clone, Copy, Debug, PartialEq, Eq, Structural)]
pub enum EncoderMode {
    /// HTTP/1.1 chunked transfer encoding.
    Chunked,
    /// `text/event-stream` framing.
    EventStream,
}

/// The ASCII lower-case hexadecimal digit for a value below sixteen.
pub open spec fn hex_digit(d: nat) -> u8 {
    if d < 10 {
        (48 + d) as u8
    } else {
        (87 + d) as u8
    }
}

/// The hexadecimal numeral of `n`, most significant digit first, without
/// leading zeros (`0` for zero).
pub open spec fn hex_numeral(n: nat) -> Seq<u8>
    decreases n,
{
    if n < 16 {
        seq![hex_digit(n)]
    } else {
        hex_numeral(n / 16).push(hex_digit(n % 16))
    }
}

/// The two bytes that end a line of a chunked body.
pub open spec fn crlf() -> Seq<u8> {
    seq![13u8, 10u8]
}

/// One chunk: the payload's length in hexadecimal, a line end, the payload,
/// a line end.
pub open spec fn chunk_frame(payload: Seq<u8>) -> Seq<u8> {
    hex_numeral(payload.len()) + crlf() + payload + crlf()
}

/// The zero-length chunk that ends a chunked body: `0\r\n\r\n`.
pub open spec fn chunk_terminal() -> Seq<u8> {
    seq![48u8, 13u8, 10u8, 13u8, 10u8]
}

/// The field name that opens an event: `data: `.
pub open spec fn event_prefix() -> Seq<u8> {
    seq![100u8, 97u8, 116u8, 97u8, 58u8, 32u8]
}

/// One event: `data: <payload>\n\n`.
pub open spec fn event_frame(payload: Seq<u8>) -> Seq<u8> {
    event_prefix() + payload + seq![10u8, 10u8]
}

/// The frame that carries `payload` in the given mode.
pub open spec fn message_frame(mode: EncoderMode, payload: Seq<u8>) -> Seq<u8> {
    match mode {
        EncoderMode::Chunked => chunk_frame(payload),
        EncoderMode::EventStream => event_frame(payload),
    }
}

/// The frames that carry `messages`, one after the other.
pub open spec fn frames(mode: EncoderMode, messages: Seq<Seq<u8>>) -> Seq<u8>
    decreases messages.len(),
{
    if messages.len() == 0 {
        Seq::empty()
    } else {
        frames(mode, messages.drop_last()) + message_frame(mode, messages.last())
    }
}

/// The bytes written when the source is exhausted: the zero chunk in chunked
/// mode, nothing in event-stream mode.
pub open spec fn terminal_frame(mode: EncoderMode) -> Seq<u8> {
    match mode {
        EncoderMode::Chunked => chunk_terminal(),
        EncoderMode::EventStream => Seq::<u8>::empty(),
    }
}

/// The status line and headers of a chunked response.
pub open spec fn chunked_header() -> Seq<u8> {
    "HTTP/1.1 200 OK\r\nContent-Type: text/plain\r\nTransfer-Encoding: chunked\r\nX-Content-Type-Options: nosniff\r\n\r\n".spec_bytes()
}

/// The status line and headers of an event-stream response.
pub open spec fn event_stream_header() -> Seq<u8> {
    "HTTP/1.1 200 OK\r\nContent-Type: text/event-stream\r\nCache-Control: no-cache\r\nConnection: keep-alive\r\n\r\n".spec_bytes()
}

/// The response head for the given mode.
pub open spec fn header_bytes(mode: EncoderMode) -> Seq<u8> {
    match mode {
        EncoderMode::Chunked => chunked_header(),
        EncoderMode::EventStream => event_stream_header(),
    }
}

/// Appends `bytes` to `out`.
fn append(out: &mut Vec<u8>, bytes: &[u8])
    ensures
        final(out)@ == old(out)@ + bytes@,
{
    let ghost before = out@;
    let mut i: usize = 0;
    while i < bytes.len()
        invariant
            i <= bytes@.len(),
            out@ == before + bytes@.subrange(0, i as int),
        decreases bytes@.len() - i,
    {
        out.push(bytes[i]);
        i = i + 1;
        assert(out@ =~= before + bytes@.subrange(0, i as int));
    }
    assert(bytes@.subrange(0, i as int) =~= bytes@);
}

/// Appends the hexadecimal numeral of `n` to `out`.
fn append_hex(out: &mut Vec<u8>, n: usize)
    ensures
        final(out)@ == old(out)@ + hex_numeral(n as nat),
    decreases n,
{
    let ghost before = out@;
    if n >= 16 {
        append_hex(out, n / 16);
    }
    let d: usize = n % 16;
    let digit: u8 = if d < 10 {
        48u8 + (d as u8)
    } else {
        87u8 + (d as u8)
    };
    out.push(digit);
    assert(out@ =~= before + hex_numeral(n as nat));
}

/// Encodes one chunk of a chunked body.
pub fn encode_chunk(payload: &[u8]) -> (frame: Vec<u8>)
    ensures
        frame@ == chunk_frame(payload@),
{
    let mut frame: Vec<u8> = Vec::new();
    append_hex(&mut frame, payload.len());
    frame.push(CR);
    frame.push(LF);
    append(&mut frame, payload);
    frame.push(CR);
    frame.push(LF);
    assert(frame@ =~= chunk_frame(payload@));
    frame
}

/// Encodes one event of an event stream.
pub fn encode_event(payload: &[u8]) -> (frame: Vec<u8>)
    ensures
        frame@ == event_frame(payload@),
{
    let mut frame: Vec<u8> = Vec::new();
    frame.push(100u8);
    frame.push(97u8);
    frame.push(116u8);
    frame.push(97u8);
    frame.push(58u8);
    frame.push(32u8);
    append(&mut frame, payload);
    frame.push(LF);
    frame.push(LF);
    assert(frame@ =~= event_frame(payload@));
    frame
}

/// Encodes one message in the connection's mode.
pub fn encode_message(mode: EncoderMode, payload: &[u8]) -> (frame: Vec<u8>)
    ensures
        frame@ == message_frame(mode, payload@),
{
    match mode {
        EncoderMode::Chunked => encode_chunk(payload),
        EncoderMode::EventStream => encode_event(payload),
    }
}

/// The bytes that end the body in the connection's mode.
pub fn encode_terminal(mode: EncoderMode) -> (frame: Vec<u8>)
    ensures
        frame@ == terminal_frame(mode),
{
    let mut frame: Vec<u8> = Vec::new();
    match mode {
        EncoderMode::Chunked => {
            frame.push(48u8);
            frame.push(CR);
            frame.push(LF);
            frame.push(CR);
            frame.push(LF);
            assert(frame@ =~= chunk_terminal());
        },
        EncoderMode::EventStream => {},
    }
    frame
}

/// The response head that announces the connection's mode.
pub fn encode_header(mode: EncoderMode) -> (head: Vec<u8>)
    ensures
        head@ == header_bytes(mode),
{
    let mut head: Vec<u8> = Vec::new();
    match mode {
        EncoderMode::Chunked => {
            append(
                &mut head,
                "HTTP/1.1 200 OK\r\nContent-Type: text/plain\r\nTransfer-Encoding: chunked\r\nX-Content-Type-Options: nosniff\r\n\r\n".as_bytes(),
            );
        },
        EncoderMode::EventStream => {
            append(
                &mut head,
                "HTTP/1.1 200 OK\r\nContent-Type: text/event-stream\r\nCache-Control: no-cache\r\nConnection: keep-alive\r\n\r\n".as_bytes(),
            );
        },
    }
    assert(head@ =~= header_bytes(mode));
    head
}

/// One unit of a response body, before it is turned into bytes.
#[derive(Debug, PartialEq, Eq)]
pub enum EncodingFrame {
    /// A chunk of a chunked body: the declared length and the payload.
    ChunkFrame { length: usize, payload: Vec<u8> },
    /// An event of an event stream.
    SseFrame { payload: Vec<u8> },
    /// The zero-length chunk that closes a chunked body.
    TerminalFrame,
}

impl EncodingFrame {
    /// The bytes that the frame puts on the wire.
    pub open spec fn wire(&self) -> Seq<u8> {
        match *self {
            EncodingFrame::ChunkFrame { length, payload } => hex_numeral(length as nat) + crlf()
                + payload@ + crlf(),
            EncodingFrame::SseFrame { payload } => event_frame(payload@),
            EncodingFrame::TerminalFrame => chunk_terminal(),
        }
    }

    /// Whether the frame is the one that `mode` derives from `payload`.
    pub open spec fn carries(&self, mode: EncoderMode, message: Seq<u8>) -> bool {
        match *self {
            EncodingFrame::ChunkFrame { length, payload } => mode == EncoderMode::Chunked
                && length == message.len() && payload@ == message,
            EncodingFrame::SseFrame { payload } => mode == EncoderMode::EventStream && payload@
                == message,
            EncodingFrame::TerminalFrame => false,
        }
    }

    /// The frame for one message in the given mode. A chunk declares the
    /// payload's own length.
    pub fn for_message(mode: EncoderMode, payload: Vec<u8>) -> (frame: EncodingFrame)
        ensures
            frame.carries(mode, payload@),
            frame.wire() == message_frame(mode, payload@),
    {
        match mode {
            EncoderMode::Chunked => EncodingFrame::ChunkFrame { length: payload.len(), payload },
            EncoderMode::EventStream => EncodingFrame::SseFrame { payload },
        }
    }

    /// The frame that closes a body in the given mode, if the mode has one:
    /// an event stream ends by closing the connection.
    pub fn closing(mode: EncoderMode) -> (frame: Option<EncodingFrame>)
        ensures
            mode == EncoderMode::Chunked ==> frame == Some(EncodingFrame::TerminalFrame),
            mode == EncoderMode::EventStream ==> frame.is_none(),
            frame is Some ==> frame->Some_0.wire() == terminal_frame(mode),
            frame is None ==> terminal_frame(mode) == Seq::<u8>::empty(),
    {
        match mode {
            EncoderMode::Chunked => Some(EncodingFrame::TerminalFrame),
            EncoderMode::EventStream => None,
        }
    }

    /// Turns the frame into bytes.
    pub fn encode(&self) -> (bytes: Vec<u8>)
        ensures
            bytes@ == self.wire(),
    {
        match self {
            EncodingFrame::ChunkFrame { length, payload } => {
                let mut bytes: Vec<u8> = Vec::new();
                append_hex(&mut bytes, *length);
                bytes.push(CR);
                bytes.push(LF);
                append(&mut bytes, payload.as_slice());
                bytes.push(CR);
                bytes.push(LF);
                assert(bytes@ =~= self.wire());
                bytes
            },
            EncodingFrame::SseFrame { payload } => encode_event(payload.as_slice()),
            EncodingFrame::TerminalFrame => encode_terminal(EncoderMode::Chunked),
        }
    }
}

} // verus!
