//! The life of one connection as a state machine.
//!
//! The handler does no I/O. The caller performs each [`Action`] on the
//! connection's byte stream or on the distribution gate and reports the
//! outcome as the next [`Event`]. A connection starts in
//! [`ConnectionState::ReadingHead`] with the action [`Action::ReadLine`] and
//! is finished once it reaches [`ConnectionState::Closed`].

use vstd::prelude::*;
use crate::decoder::{chunked_body, decode_body, joined, law_body_round_trip};
use crate::encoder::{
    encode_header, encode_message, encode_terminal, frames, header_bytes, message_frame,
    terminal_frame, EncoderMode,
};

verus! {

/// Where a connection stands.
#[derive(Clone, Copy, Debug, PartialEq, Eq, Structural)]
pub enum ConnectionState {
    /// Reading the request head, line by line.
    ReadingHead,
    /// The response head is being written.
    WritingHeader,
    /// Messages are received and written as frames.
    Streaming,
    /// The connection is released.
    Closed,
}

/// What the caller reports back to the handler.
#[derive(Debug, PartialEq, Eq)]
pub enum Event {
    /// One line of the request head, without its line end.
    HeadLine(Vec<u8>),
    /// The peer's stream ended while the head was read.
    HeadEnd,
    /// Reading the head failed.
    ReadFailed,
    /// The last write was written and flushed.
    WriteDone,
    /// The last write or its flush failed: the peer is unreachable.
    WriteFailed,
    /// A message was received.
    Message(Vec<u8>),
    /// The source is exhausted: no message will come.
    SourceClosed,
}

/// What the handler asks the caller to do next.
#[derive(Debug, PartialEq, Eq)]
pub enum Action {
    /// Read the next line of the request head.
    ReadLine,
    /// Write and flush the response head.
    WriteHeader(Vec<u8>),
    /// Ask the distribution gate for the next message.
    Receive,
    /// Write and flush one frame.
    WriteFrame(Vec<u8>),
    /// Write the terminal frame, ignoring any failure, then release the
    /// connection.
    Finish(Vec<u8>),
    /// Release the connection.
    Close,
    /// Nothing is left to do: the connection was released before.
    Idle,
}

/// An [`Event`] with its bytes as a sequence.
pub enum EventView {
    HeadLine(Seq<u8>),
    HeadEnd,
    ReadFailed,
    WriteDone,
    WriteFailed,
    Message(Seq<u8>),
    SourceClosed,
}

/// An [`Action`] with its bytes as a sequence.
pub enum ActionView {
    ReadLine,
    WriteHeader(Seq<u8>),
    Receive,
    WriteFrame(Seq<u8>),
    Finish(Seq<u8>),
    Close,
    Idle,
}

impl View for Event {
    type V = EventView;

    open spec fn view(&self) -> EventView {
        match *self {
            Event::HeadLine(line) => EventView::HeadLine(line@),
            Event::HeadEnd => EventView::HeadEnd,
            Event::ReadFailed => EventView::ReadFailed,
            Event::WriteDone => EventView::WriteDone,
            Event::WriteFailed => EventView::WriteFailed,
            Event::Message(payload) => EventView::Message(payload@),
            Event::SourceClosed => EventView::SourceClosed,
        }
    }
}

impl View for Action {
    type V = ActionView;

    open spec fn view(&self) -> ActionView {
        match *self {
            Action::ReadLine => ActionView::ReadLine,
            Action::WriteHeader(bytes) => ActionView::WriteHeader(bytes@),
            Action::Receive => ActionView::Receive,
            Action::WriteFrame(bytes) => ActionView::WriteFrame(bytes@),
            Action::Finish(bytes) => ActionView::Finish(bytes@),
            Action::Close => ActionView::Close,
            Action::Idle => ActionView::Idle,
        }
    }
}

/// How a connection leaves the streaming state: with one best-effort
/// terminal frame where the mode has one, with a plain close where it has
/// none.
pub open spec fn closing_action(mode: EncoderMode) -> ActionView {
    if terminal_frame(mode).len() > 0 {
        ActionView::Finish(terminal_frame(mode))
    } else {
        ActionView::Close
    }
}

/// The state that follows `state` on `event`.
///
/// The head ends at an empty line or at the end of the peer's stream. An
/// event that the current state does not wait for releases the connection.
pub open spec fn next_state(state: ConnectionState, event: EventView) -> ConnectionState {
    match (state, event) {
        (ConnectionState::ReadingHead, EventView::HeadLine(line)) => if line.len() == 0 {
            ConnectionState::WritingHeader
        } else {
            ConnectionState::ReadingHead
        },
        (ConnectionState::ReadingHead, EventView::HeadEnd) => ConnectionState::WritingHeader,
        (ConnectionState::WritingHeader, EventView::WriteDone) => ConnectionState::Streaming,
        (ConnectionState::Streaming, EventView::Message(_)) => ConnectionState::Streaming,
        (ConnectionState::Streaming, EventView::WriteDone) => ConnectionState::Streaming,
        _ => ConnectionState::Closed,
    }
}

/// The action that answers `event` in `state`.
///
/// A failed read or a failed header write releases the connection with
/// nothing more sent. Once streaming, both exhaustion of the source and a
/// failed frame write end the connection by [`closing_action`]; nothing is
/// retried.
pub open spec fn next_action(mode: EncoderMode, state: ConnectionState, event: EventView)
    -> ActionView {
    match (state, event) {
        (ConnectionState::ReadingHead, EventView::HeadLine(line)) => if line.len() == 0 {
            ActionView::WriteHeader(header_bytes(mode))
        } else {
            ActionView::ReadLine
        },
        (ConnectionState::ReadingHead, EventView::HeadEnd) => ActionView::WriteHeader(
            header_bytes(mode),
        ),
        (ConnectionState::WritingHeader, EventView::WriteDone) => ActionView::Receive,
        (ConnectionState::Streaming, EventView::Message(payload)) => ActionView::WriteFrame(
            message_frame(mode, payload),
        ),
        (ConnectionState::Streaming, EventView::WriteDone) => ActionView::Receive,
        (ConnectionState::Streaming, EventView::SourceClosed) => closing_action(mode),
        (ConnectionState::Streaming, EventView::WriteFailed) => closing_action(mode),
        (ConnectionState::Closed, _) => ActionView::Idle,
        _ => ActionView::Close,
    }
}

/// A line as it was read, without the line end that closes it: `\r\n` or
/// `\n`.
pub open spec fn without_line_end(raw: Seq<u8>) -> Seq<u8> {
    if raw.len() >= 2 && raw[raw.len() - 2] == 13 && raw[raw.len() - 1] == 10 {
        raw.subrange(0, raw.len() - 2)
    } else if raw.len() >= 1 && raw[raw.len() - 1] == 10 {
        raw.subrange(0, raw.len() - 1)
    } else {
        raw
    }
}

/// The event that reports one successful read of the request head. A read
/// of no bytes means that the peer's stream has ended; anything else is a
/// line, reported without its line end.
pub fn head_event(raw: &[u8]) -> (event: Event)
    ensures
        event@ == (if raw@.len() == 0 {
            EventView::HeadEnd
        } else {
            EventView::HeadLine(without_line_end(raw@))
        }),
{
    let len: usize = raw.len();
    if len == 0 {
        return Event::HeadEnd;
    }
    let keep: usize = if len >= 2 && raw[len - 2] == 13 && raw[len - 1] == 10 {
        len - 2
    } else if raw[len - 1] == 10 {
        len - 1
    } else {
        len
    };
    let mut line: Vec<u8> = Vec::new();
    let mut i: usize = 0;
    while i < keep
        invariant
            i <= keep <= raw@.len(),
            line@ == raw@.subrange(0, i as int),
        decreases keep - i,
    {
        line.push(raw[i]);
        i = i + 1;
        assert(line@ =~= raw@.subrange(0, i as int));
    }
    assert(line@ =~= without_line_end(raw@));
    Event::HeadLine(line)
}

/// The event that reports a write followed by a flush. A failed write and a
/// failed flush are not told apart: either means the peer is unreachable.
pub fn write_outcome(written: bool, flushed: bool) -> (event: Event)
    ensures
        event@ == (if written && flushed {
            EventView::WriteDone
        } else {
            EventView::WriteFailed
        }),
{
    if written && flushed {
        Event::WriteDone
    } else {
        Event::WriteFailed
    }
}

/// One connection: its framing and its state.
#[derive(Clone, Copy, Debug, PartialEq, Eq)]
pub struct Connection {
    pub mode: EncoderMode,
    pub state: ConnectionState,
}

impl Connection {
    /// A fresh connection, about to read its request head. The caller's
    /// first action is [`Action::ReadLine`].
    pub fn new(mode: EncoderMode) -> (conn: Connection)
        ensures
            conn.mode == mode,
            conn.state == ConnectionState::ReadingHead,
    {
        Connection { mode, state: ConnectionState::ReadingHead }
    }

    /// The connection's state.
    pub fn state(&self) -> (state: ConnectionState)
        ensures
            state == self.state,
    {
        self.state
    }

    /// Whether the connection is released.
    pub fn is_closed(&self) -> (closed: bool)
        ensures
            closed == (self.state == ConnectionState::Closed),
    {
        match self.state {
            ConnectionState::Closed => true,
            _ => false,
        }
    }

    /// Takes one event and returns what to do next.
    pub fn step(&mut self, event: Event) -> (action: Action)
        ensures
            final(self).mode == old(self).mode,
            final(self).state == next_state(old(self).state, event@),
            action@ == next_action(old(self).mode, old(self).state, event@),
    {
        let mode = self.mode;
        match self.state {
            ConnectionState::ReadingHead => match event {
                Event::HeadLine(line) => {
                    if line.len() == 0 {
                        self.state = ConnectionState::WritingHeader;
                        Action::WriteHeader(encode_header(mode))
                    } else {
                        Action::ReadLine
                    }
                },
                Event::HeadEnd => {
                    self.state = ConnectionState::WritingHeader;
                    Action::WriteHeader(encode_header(mode))
                },
                _ => {
                    self.state = ConnectionState::Closed;
                    Action::Close
                },
            },
            ConnectionState::WritingHeader => match event {
                Event::WriteDone => {
                    self.state = ConnectionState::Streaming;
                    Action::Receive
                },
                _ => {
                    self.state = ConnectionState::Closed;
                    Action::Close
                },
            },
            ConnectionState::Streaming => match event {
                Event::Message(payload) => Action::WriteFrame(
                    encode_message(mode, payload.as_slice()),
                ),
                Event::WriteDone => Action::Receive,
                Event::SourceClosed | Event::WriteFailed => {
                    self.state = ConnectionState::Closed;
                    let last = encode_terminal(mode);
                    if last.len() > 0 {
                        Action::Finish(last)
                    } else {
                        Action::Close
                    }
                },
                _ => {
                    self.state = ConnectionState::Closed;
                    Action::Close
                },
            },
            ConnectionState::Closed => Action::Idle,
        }
    }
}

/// How far a state is along a connection's life.
pub open spec fn progress(state: ConnectionState) -> nat {
    match state {
        ConnectionState::ReadingHead => 0,
        ConnectionState::WritingHeader => 1,
        ConnectionState::Streaming => 2,
        ConnectionState::Closed => 3,
    }
}

/// The state of a fresh connection after the first `n` of `events`.
pub open spec fn state_after(events: Seq<EventView>, n: nat) -> ConnectionState
    decreases n,
{
    if n == 0 {
        ConnectionState::ReadingHead
    } else {
        next_state(state_after(events, (n - 1) as nat), events[n - 1])
    }
}

/// The action with which a fresh connection answers `events[i]`.
pub open spec fn action_at(mode: EncoderMode, events: Seq<EventView>, i: int) -> ActionView {
    next_action(mode, state_after(events, i as nat), events[i])
}

/// Whether an action puts body bytes on the wire.
pub open spec fn writes_body(action: ActionView) -> bool {
    action is WriteFrame || action is Finish
}

/// A connection never moves backwards.
pub proof fn law_progress_monotone(events: Seq<EventView>, n: nat, m: nat)
    requires
        n <= m <= events.len(),
    ensures
        progress(state_after(events, n)) <= progress(state_after(events, m)),
    decreases m,
{
    if n < m {
        law_progress_monotone(events, n, (m - 1) as nat);
    }
}

/// The response head is written at most once on a connection.
pub proof fn law_header_at_most_once(mode: EncoderMode, events: Seq<EventView>, i: int, j: int)
    requires
        0 <= i < j < events.len(),
        action_at(mode, events, i) is WriteHeader,
    ensures
        !(action_at(mode, events, j) is WriteHeader),
{
    law_progress_monotone(events, (i + 1) as nat, j as nat);
}

/// Whatever body bytes a connection writes, the response head was written
/// before them, with the bytes that announce the connection's mode.
pub proof fn law_header_before_body(mode: EncoderMode, events: Seq<EventView>, j: int)
    requires
        0 <= j < events.len(),
        writes_body(action_at(mode, events, j)),
    ensures
        exists|i: int|
            0 <= i < j && #[trigger] action_at(mode, events, i) == ActionView::WriteHeader(
                header_bytes(mode),
            ),
{
    lemma_header_precedes(mode, events, j as nat);
}

/// A connection that writes its header or streams has been told to write
/// the header.
proof fn lemma_header_precedes(mode: EncoderMode, events: Seq<EventView>, n: nat)
    requires
        n <= events.len(),
        progress(state_after(events, n)) == 1 || progress(state_after(events, n)) == 2,
    ensures
        exists|i: int|
            0 <= i < n && #[trigger] action_at(mode, events, i) == ActionView::WriteHeader(
                header_bytes(mode),
            ),
    decreases n,
{
    let before = state_after(events, (n - 1) as nat);
    if before == ConnectionState::ReadingHead {
        assert(action_at(mode, events, n - 1) == ActionView::WriteHeader(header_bytes(mode)));
    } else {
        lemma_header_precedes(mode, events, (n - 1) as nat);
        let i = choose|i: int|
            0 <= i < n - 1 && #[trigger] action_at(mode, events, i) == ActionView::WriteHeader(
                header_bytes(mode),
            );
        assert(0 <= i < n);
    }
}

/// Once a connection was told to finish or to close, it asks for nothing
/// more: the terminal frame goes out at most once, and nothing follows it.
pub proof fn law_nothing_after_release(mode: EncoderMode, events: Seq<EventView>, i: int, j: int)
    requires
        0 <= i < j < events.len(),
        action_at(mode, events, i) is Finish || action_at(mode, events, i) is Close,
    ensures
        action_at(mode, events, j) is Idle,
{
    law_progress_monotone(events, (i + 1) as nat, j as nat);
}

/// A failed write releases the connection at once, whatever its state, and
/// the decision reads nothing but that connection's own state.
pub proof fn law_write_failure_closes(state: ConnectionState)
    ensures
        next_state(state, EventView::WriteFailed) == ConnectionState::Closed,
{
}

/// The frames of a connection follow its messages one for one: each message
/// received while streaming is answered at once by the frame that carries
/// it, and by nothing else.
pub proof fn law_frame_per_message(mode: EncoderMode, events: Seq<EventView>, i: int)
    requires
        0 <= i < events.len(),
    ensures
        action_at(mode, events, i) is WriteFrame ==> events[i] is Message && action_at(
            mode,
            events,
            i,
        ) == ActionView::WriteFrame(message_frame(mode, events[i]->Message_0)),
        events[i] is Message && state_after(events, i as nat) == ConnectionState::Streaming
            ==> action_at(mode, events, i) is WriteFrame,
{
}

/// Why a connection was given up.
#[derive(Clone, Copy, Debug, PartialEq, Eq, Structural)]
pub enum ConnectionError {
    /// Reading the request head failed: nothing was sent.
    ConnectionReadError,
    /// The response head could not be written: streaming never began.
    HeaderWriteError,
    /// A frame could not be written or flushed: the peer is unreachable.
    FrameWriteError,
    /// An event arrived that the connection's state does not wait for.
    UnexpectedEvent,
}

/// The failure, if any, that `event` means for a connection in `state`.
/// Exhaustion of the source is the normal end of a stream and no failure,
/// and nothing fails on a connection that is closed already.
pub open spec fn failure_of(state: ConnectionState, event: EventView) -> Option<ConnectionError> {
    match (state, event) {
        (ConnectionState::Closed, _) => None,
        (ConnectionState::ReadingHead, EventView::HeadLine(_)) => None,
        (ConnectionState::ReadingHead, EventView::HeadEnd) => None,
        (ConnectionState::ReadingHead, EventView::ReadFailed) => Some(
            ConnectionError::ConnectionReadError,
        ),
        (ConnectionState::WritingHeader, EventView::WriteDone) => None,
        (ConnectionState::WritingHeader, EventView::WriteFailed) => Some(
            ConnectionError::HeaderWriteError,
        ),
        (ConnectionState::Streaming, EventView::Message(_)) => None,
        (ConnectionState::Streaming, EventView::WriteDone) => None,
        (ConnectionState::Streaming, EventView::SourceClosed) => None,
        (ConnectionState::Streaming, EventView::WriteFailed) => Some(
            ConnectionError::FrameWriteError,
        ),
        _ => Some(ConnectionError::UnexpectedEvent),
    }
}

/// Names the failure, if any, that `event` means for a connection in
/// `state`.
pub fn classify(state: ConnectionState, event: &Event) -> (failure: Option<ConnectionError>)
    ensures
        failure == failure_of(state, event@),
{
    match state {
        ConnectionState::Closed => None,
        ConnectionState::ReadingHead => match event {
            Event::HeadLine(_) => None,
            Event::HeadEnd => None,
            Event::ReadFailed => Some(ConnectionError::ConnectionReadError),
            _ => Some(ConnectionError::UnexpectedEvent),
        },
        ConnectionState::WritingHeader => match event {
            Event::WriteDone => None,
            Event::WriteFailed => Some(ConnectionError::HeaderWriteError),
            _ => Some(ConnectionError::UnexpectedEvent),
        },
        ConnectionState::Streaming => match event {
            Event::Message(_) => None,
            Event::WriteDone => None,
            Event::SourceClosed => None,
            Event::WriteFailed => Some(ConnectionError::FrameWriteError),
            _ => Some(ConnectionError::UnexpectedEvent),
        },
    }
}

/// Every failure releases the connection, and a connection that is still
/// open is released by nothing but a failure or the end of the source.
pub proof fn law_failure_closes(state: ConnectionState, event: EventView)
    ensures
        failure_of(state, event) is Some ==> next_state(state, event) == ConnectionState::Closed,
        state != ConnectionState::Closed && next_state(state, event) == ConnectionState::Closed
            ==> failure_of(state, event) is Some || (state == ConnectionState::Streaming
            && event is SourceClosed),
{
}

/// The bytes that an action asks to be written.
pub open spec fn wire_of(action: ActionView) -> Seq<u8> {
    match action {
        ActionView::WriteHeader(bytes) => bytes,
        ActionView::WriteFrame(bytes) => bytes,
        ActionView::Finish(bytes) => bytes,
        _ => Seq::empty(),
    }
}

/// Everything that a fresh connection asked to be written in answer to the
/// first `n` of `events`, in order.
pub open spec fn written(mode: EncoderMode, events: Seq<EventView>, n: nat) -> Seq<u8>
    decreases n,
{
    if n == 0 {
        Seq::empty()
    } else {
        written(mode, events, (n - 1) as nat) + wire_of(action_at(mode, events, n - 1))
    }
}

/// The events of a connection that nothing disturbs, up to the point where
/// it has written `messages`: the head ends, the header is written, and
/// each message is received and written in turn.
pub open spec fn undisturbed(messages: Seq<Seq<u8>>) -> Seq<EventView>
    decreases messages.len(),
{
    if messages.len() == 0 {
        seq![EventView::HeadEnd, EventView::WriteDone]
    } else {
        undisturbed(messages.drop_last()).push(EventView::Message(messages.last())).push(
            EventView::WriteDone,
        )
    }
}

/// Only the past counts: two runs that agree on their first `n` events
/// agree on the state reached and on what was written by then.
pub proof fn law_past_decides(mode: EncoderMode, a: Seq<EventView>, b: Seq<EventView>, n: nat)
    requires
        n <= a.len(),
        n <= b.len(),
        forall|i: int| 0 <= i < n ==> a[i] == b[i],
    ensures
        state_after(a, n) == state_after(b, n),
        written(mode, a, n) == written(mode, b, n),
    decreases n,
{
    if n > 0 {
        law_past_decides(mode, a, b, (n - 1) as nat);
    }
}

/// A connection that nothing disturbs is streaming after it has written
/// its messages, and has written the header followed by one frame for each
/// message, in the order in which it received them.
pub proof fn law_undisturbed_stream(mode: EncoderMode, messages: Seq<Seq<u8>>)
    ensures
        undisturbed(messages).len() == 2 + 2 * messages.len(),
        state_after(undisturbed(messages), undisturbed(messages).len())
            == ConnectionState::Streaming,
        written(mode, undisturbed(messages), undisturbed(messages).len()) == header_bytes(mode)
            + frames(mode, messages),
    decreases messages.len(),
{
    let events = undisturbed(messages);
    if messages.len() == 0 {
        assert(events[0] == EventView::HeadEnd);
        assert(events[1] == EventView::WriteDone);
        assert(state_after(events, 0) == ConnectionState::ReadingHead);
        assert(state_after(events, 1) == ConnectionState::WritingHeader);
        assert(state_after(events, 2) == ConnectionState::Streaming);
        assert(written(mode, events, 0) =~= Seq::<u8>::empty());
        assert(written(mode, events, 1) =~= header_bytes(mode));
        assert(written(mode, events, 2) =~= header_bytes(mode));
        assert(header_bytes(mode) + frames(mode, messages) =~= header_bytes(mode));
    } else {
        let before = undisturbed(messages.drop_last());
        let n = before.len();
        law_undisturbed_stream(mode, messages.drop_last());
        law_past_decides(mode, events, before, n);
        assert(events[n as int] == EventView::Message(messages.last()));
        assert(events[n as int + 1] == EventView::WriteDone);
        assert(state_after(events, n + 1) == ConnectionState::Streaming);
        assert(state_after(events, n + 2) == ConnectionState::Streaming);
        assert(written(mode, events, n + 1) == written(mode, events, n) + message_frame(
            mode,
            messages.last(),
        ));
        assert(written(mode, events, n + 2) =~= written(mode, events, n + 1));
        assert(header_bytes(mode) + frames(mode, messages) =~= (header_bytes(mode) + frames(
            mode,
            messages.drop_last(),
        )) + message_frame(mode, messages.last()));
    }
}

/// When the source ends, such a connection is released, and all it has
/// written is the header, the frames of its messages, and what closes the
/// body in its mode.
pub proof fn law_undisturbed_end(mode: EncoderMode, messages: Seq<Seq<u8>>)
    ensures
        state_after(
            undisturbed(messages).push(EventView::SourceClosed),
            undisturbed(messages).len() + 1,
        ) == ConnectionState::Closed,
        written(
            mode,
            undisturbed(messages).push(EventView::SourceClosed),
            undisturbed(messages).len() + 1,
        ) == header_bytes(mode) + frames(mode, messages) + terminal_frame(mode),
{
    let before = undisturbed(messages);
    let n = before.len();
    let events = before.push(EventView::SourceClosed);
    law_undisturbed_stream(mode, messages);
    law_past_decides(mode, events, before, n);
    assert(events[n as int] == EventView::SourceClosed);
    assert(action_at(mode, events, n as int) == closing_action(mode));
    assert(wire_of(closing_action(mode)) =~= terminal_frame(mode));
    assert(written(mode, events, n + 1) == written(mode, events, n) + wire_of(
        action_at(mode, events, n as int),
    ));
}

/// The body of a chunked connection can be read back: what such a
/// connection writes after its header, up to and with the closing chunk,
/// decodes to the messages it received, in order. (Messages are taken to be
/// non-empty: an empty one would frame as the closing chunk.)
pub proof fn law_chunked_stream_decodes(messages: Seq<Seq<u8>>)
    requires
        forall|i: int| 0 <= i < messages.len() ==> (#[trigger] messages[i]).len() > 0,
    ensures
        written(
            EncoderMode::Chunked,
            undisturbed(messages).push(EventView::SourceClosed),
            undisturbed(messages).len() + 1,
        ) == header_bytes(EncoderMode::Chunked) + chunked_body(messages),
        decode_body(chunked_body(messages)) == Some(joined(messages)),
{
    let mode = EncoderMode::Chunked;
    law_undisturbed_end(mode, messages);
    law_body_round_trip(messages);
    assert(header_bytes(mode) + frames(mode, messages) + terminal_frame(mode) =~= header_bytes(
        mode,
    ) + chunked_body(messages));
}

} // verus!
