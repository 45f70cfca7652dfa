//! One connection's protocol, as a machine that never touches a socket.
//!
//! Whoever owns the socket performs an `Action` and reports what came of it as an
//! `Event`; `Connection::step` decides what to do next. A connection works on one
//! directive at a time: the next frame is looked at only once the outcome of the last
//! has been written.
use vstd::prelude::*;
use vstd::utf8::*;
use crate::dispatch::{
    clock_outcome, clock_text, directive_of, handler_of, invalid_command, lookup, ClockReading,
    Handler,
};
use crate::frame::{encode_frame, fits, frame_of, scan, FrameDecoder, FrameError, Scan};
use crate::text::text_of;

verus! {

/// What a connection is waiting for.
#[derive(Clone, Copy, Debug, PartialEq, Eq, Structural)]
pub enum Phase {
    /// Bytes from the peer.
    Idle,
    /// The host's clock.
    AwaitingClock,
    /// The end of a write.
    Sending,
    /// Nothing: the connection is over.
    Closed,
}

/// Why a connection is closed.
#[derive(Clone, Copy, Debug, PartialEq, Eq, Structural)]
pub enum Closing {
    /// The peer ended the stream at a frame boundary.
    EndOfStream,
    /// A frame was over the limit, or the stream ended inside one.
    Frame(FrameError),
    /// A frame's payload was not UTF-8.
    NotText,
    /// Reading or writing failed.
    Transport,
    /// An event arrived that the connection was not waiting for.
    OutOfTurn,
}

/// What happened outside.
#[derive(Debug, PartialEq, Eq)]
pub enum Event {
    /// These bytes were read from the peer.
    Received(Vec<u8>),
    /// The peer ended the stream.
    EndOfStream,
    /// The clock was asked, with this result.
    ClockFinished(ClockReading),
    /// The frame was written in full.
    Sent,
    /// Reading or writing failed.
    Failed,
}

/// What to do outside.
#[derive(Debug, PartialEq, Eq)]
pub enum Action {
    /// Read from the peer and report `Received`, `EndOfStream` or `Failed`.
    Read,
    /// Ask the host's clock and report `ClockFinished`.
    AskClock,
    /// Write these bytes in one piece and report `Sent` or `Failed`.
    Send(Vec<u8>),
    /// Release the connection. Nothing is written to the peer.
    Close(Closing),
}

/// An `Action` as contracts see it.
pub enum Command {
    Read,
    AskClock,
    Send(Seq<u8>),
    Close(Closing),
}

impl View for Action {
    type V = Command;

    open spec fn view(&self) -> Command {
        match *self {
            Action::Read => Command::Read,
            Action::AskClock => Command::AskClock,
            Action::Send(bytes) => Command::Send(bytes@),
            Action::Close(why) => Command::Close(why),
        }
    }
}

/// A connection as contracts see it.
pub struct ConnState {
    /// The bytes received and not yet cut into frames.
    pub pending: Seq<u8>,
    /// The largest payload accepted and sent.
    pub limit: nat,
    pub phase: Phase,
}

/// A state together with the command that led to it.
pub struct Reaction {
    pub state: ConnState,
    pub command: Command,
}

/// The connection ends for the reason `why`.
pub open spec fn closing(state: ConnState, why: Closing) -> Reaction {
    Reaction {
        state: ConnState { pending: state.pending, limit: state.limit, phase: Phase::Closed },
        command: Command::Close(why),
    }
}

/// The outcome goes out as one frame; one that no frame can hold ends the connection.
pub open spec fn respond(state: ConnState, outcome: Seq<char>) -> Reaction {
    let payload = encode_utf8(outcome);
    if fits(payload.len(), state.limit) {
        Reaction {
            state: ConnState { pending: state.pending, limit: state.limit, phase: Phase::Sending },
            command: Command::Send(frame_of(payload)),
        }
    } else {
        closing(state, Closing::Frame(FrameError::TooLong))
    }
}

/// Looks at the front of what is pending and acts on the frame found there.
pub open spec fn advance(state: ConnState) -> Reaction {
    match scan(state.pending, state.limit) {
        Scan::Incomplete => Reaction {
            state: ConnState { pending: state.pending, limit: state.limit, phase: Phase::Idle },
            command: Command::Read,
        },
        Scan::TooLong => closing(state, Closing::Frame(FrameError::TooLong)),
        Scan::Frame { payload, rest } => {
            let taken = ConnState { pending: rest, limit: state.limit, phase: state.phase };
            match text_of(payload) {
                None => closing(taken, Closing::NotText),
                Some(directive) => match handler_of(directive) {
                    Some(Handler::Clock) => Reaction {
                        state: ConnState {
                            pending: rest,
                            limit: state.limit,
                            phase: Phase::AwaitingClock,
                        },
                        command: Command::AskClock,
                    },
                    None => respond(taken, "invalid command"@),
                },
            }
        },
    }
}

/// The whole protocol: the state and the command that follow `event` in `state`.
pub open spec fn react(state: ConnState, event: Event) -> Reaction {
    match (state.phase, event) {
        (Phase::Idle, Event::Received(bytes)) => advance(
            ConnState { pending: state.pending + bytes@, limit: state.limit, phase: state.phase },
        ),
        (Phase::Idle, Event::EndOfStream) => if state.pending.len() == 0 {
            closing(state, Closing::EndOfStream)
        } else {
            closing(state, Closing::Frame(FrameError::Truncated))
        },
        (Phase::AwaitingClock, Event::ClockFinished(reading)) => respond(
            state,
            clock_text(reading),
        ),
        (Phase::Sending, Event::Sent) => advance(state),
        (Phase::Closed, _) => closing(state, Closing::OutOfTurn),
        (_, Event::Failed) => closing(state, Closing::Transport),
        (_, _) => closing(state, Closing::OutOfTurn),
    }
}

/// One connection: its decoder and what it is waiting for.
pub struct Connection {
    decoder: FrameDecoder,
    phase: Phase,
}

impl View for Connection {
    type V = ConnState;

    closed spec fn view(&self) -> ConnState {
        ConnState {
            pending: self.decoder.pending(),
            limit: self.decoder.limit(),
            phase: self.phase,
        }
    }
}

impl Connection {
    /// A connection that has received nothing and waits for bytes: its owner starts by
    /// reading. Payloads of up to `max_frame_len` bytes are accepted and sent.
    pub fn new(max_frame_len: usize) -> (c: Connection)
        ensures
            c@ == (ConnState {
                pending: Seq::empty(),
                limit: max_frame_len as nat,
                phase: Phase::Idle,
            }),
    {
        Connection { decoder: FrameDecoder::new(max_frame_len), phase: Phase::Idle }
    }

    /// What the connection is waiting for.
    pub fn phase(&self) -> (p: Phase)
        ensures
            p == self@.phase,
    {
        self.phase
    }

    fn close(&mut self, why: Closing) -> (action: Action)
        ensures
            final(self)@ == closing(old(self)@, why).state,
            action@ == closing(old(self)@, why).command,
    {
        self.phase = Phase::Closed;
        Action::Close(why)
    }

    fn respond(&mut self, outcome: &str) -> (action: Action)
        ensures
            final(self)@ == respond(old(self)@, outcome@).state,
            action@ == respond(old(self)@, outcome@).command,
    {
        match encode_frame(outcome.as_bytes(), self.decoder.max_frame_len()) {
            Ok(bytes) => {
                self.phase = Phase::Sending;
                Action::Send(bytes)
            },
            Err(_) => self.close(Closing::Frame(FrameError::TooLong)),
        }
    }

    fn advance(&mut self) -> (action: Action)
        ensures
            final(self)@ == advance(old(self)@).state,
            action@ == advance(old(self)@).command,
    {
        match self.decoder.next_frame() {
            Ok(None) => {
                self.phase = Phase::Idle;
                Action::Read
            },
            Err(_) => self.close(Closing::Frame(FrameError::TooLong)),
            Ok(Some(payload)) => match directive_of(payload) {
                None => self.close(Closing::NotText),
                Some(directive) => match lookup(directive.as_str()) {
                    Some(Handler::Clock) => {
                        self.phase = Phase::AwaitingClock;
                        Action::AskClock
                    },
                    None => {
                        let outcome: String = invalid_command();
                        self.respond(outcome.as_str())
                    },
                },
            },
        }
    }

    /// Takes in what happened outside and says what to do next.
    ///
    /// Once `Close` has been returned the connection is over; nothing is ever sent in
    /// answer to the end of the stream or to a frame that cannot be read.
    pub fn step(&mut self, event: Event) -> (action: Action)
        ensures
            final(self)@ == react(old(self)@, event).state,
            action@ == react(old(self)@, event).command,
    {
        match self.phase {
            Phase::Closed => self.close(Closing::OutOfTurn),
            Phase::Idle => match event {
                Event::Received(bytes) => {
                    self.decoder.feed(bytes.as_slice());
                    self.advance()
                },
                Event::EndOfStream => match self.decoder.end_of_stream() {
                    Ok(()) => self.close(Closing::EndOfStream),
                    Err(_) => self.close(Closing::Frame(FrameError::Truncated)),
                },
                Event::Failed => self.close(Closing::Transport),
                _ => self.close(Closing::OutOfTurn),
            },
            Phase::AwaitingClock => match event {
                Event::ClockFinished(reading) => {
                    let outcome: String = clock_outcome(reading);
                    self.respond(outcome.as_str())
                },
                Event::Failed => self.close(Closing::Transport),
                _ => self.close(Closing::OutOfTurn),
            },
            Phase::Sending => match event {
                Event::Sent => self.advance(),
                Event::Failed => self.close(Closing::Transport),
                _ => self.close(Closing::OutOfTurn),
            },
        }
    }
}

/// Whether a connection that waits for bytes has indeed no whole frame pending, so that
/// a stream that ends on it ends at a frame boundary or inside a frame.
pub open spec fn settled(state: ConnState) -> bool {
    state.phase == Phase::Idle ==> scan(state.pending, state.limit) is Incomplete
}

/// A connection that has received nothing is settled.
pub proof fn lemma_new_is_settled(limit: nat)
    ensures
        settled(ConnState { pending: Seq::empty(), limit, phase: Phase::Idle }),
{
}

/// A settled connection is settled after every event.
pub proof fn lemma_settled_is_kept(state: ConnState, event: Event)
    requires
        settled(state),
    ensures
        settled(react(state, event).state),
{
}

/// A command is `Close` exactly when the connection is then closed.
pub proof fn lemma_close_iff_closed(state: ConnState, event: Event)
    ensures
        react(state, event).command is Close <==> react(state, event).state.phase == Phase::Closed,
{
}

/// A closed connection stays as it is and asks for nothing but its release.
pub proof fn lemma_closed_is_final(state: ConnState, event: Event)
    requires
        state.phase == Phase::Closed,
    ensures
        react(state, event).state == state,
        react(state, event).command == Command::Close(Closing::OutOfTurn),
{
}

/// The end of the stream is never answered: the connection closes and nothing is sent.
pub proof fn lemma_end_of_stream_closes(state: ConnState)
    ensures
        react(state, Event::EndOfStream).command is Close,
        react(state, Event::EndOfStream).state.phase == Phase::Closed,
        state.phase == Phase::Idle ==> react(state, Event::EndOfStream).command == Command::Close(
            if state.pending.len() == 0 {
                Closing::EndOfStream
            } else {
                Closing::Frame(FrameError::Truncated)
            },
        ),
{
}

/// One directive is in work at a time: while the clock is asked or an outcome is being
/// written, no frame is taken.
pub proof fn lemma_one_directive_at_a_time(state: ConnState, bytes: Vec<u8>)
    requires
        state.phase == Phase::AwaitingClock || state.phase == Phase::Sending,
    ensures
        react(state, Event::Received(bytes)).command == Command::Close(Closing::OutOfTurn),
        react(state, Event::Received(bytes)).state.pending == state.pending,
{
}

/// A clock that fails costs the directive its answer, not the connection: the fixed
/// sentence goes out, and once it is written the connection turns to what is pending.
pub proof fn lemma_failed_clock_keeps_connection(state: ConnState)
    requires
        state.phase == Phase::AwaitingClock,
        fits(encode_utf8("Failed to execute command"@).len(), state.limit),
    ensures
        react(state, Event::ClockFinished(ClockReading::Failed)).command == Command::Send(
            frame_of(encode_utf8("Failed to execute command"@)),
        ),
        react(
            react(state, Event::ClockFinished(ClockReading::Failed)).state,
            Event::Sent,
        ) == advance(state),
{
    let sent = react(state, Event::ClockFinished(ClockReading::Failed)).state;
    assert(sent.pending == state.pending && sent.limit == state.limit);
}

} // verus!
