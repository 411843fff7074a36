//! The two halves of a split connection, and the driver between them.
//!
//! One driver owns the writing side. The reading half tells it what arrived; the
//! writing half hands it messages. The first cause that ends the connection is
//! kept, and both halves report it.

use crate::buffers;
use crate::buffers::{buffered, contents};
use crate::error::Error;
use crate::protocol::{Message, MessageView};
use crate::stream::{message_views, ConnectionView, StreamState, Timeout, WebSocketStream};
use bytes::{Bytes, BytesMut};
use std::collections::VecDeque;
use vstd::prelude::*;

verus! {

/// How many control requests may wait for the driver.
pub const SPLIT_CONTROL_CAPACITY: usize = 32;

/// How many messages may wait for the driver.
pub const SPLIT_APPLICATION_CAPACITY: usize = 32;

/// Where a split connection stands.
#[derive(Debug, Clone, Copy, PartialEq, Eq, Structural)]
pub enum SplitState {
    /// Messages may be sent.
    Open,
    /// A close was sent or received.
    Closing,
    /// The connection is over.
    Closed,
}

/// Why a split connection is over.
#[derive(Debug, Clone, Copy, PartialEq, Eq, Structural)]
pub enum TerminalCause {
    /// It was closed.
    ConnectionClosed,
    /// No pong came back in time.
    HeartbeatTimeout,
    /// Nothing arrived for too long.
    IdleTimeout,
}

/// The error for a cause.
pub open spec fn cause_error(cause: TerminalCause) -> Error {
    match cause {
        TerminalCause::ConnectionClosed => Error::ConnectionClosed,
        TerminalCause::HeartbeatTimeout => Error::HeartbeatTimeout,
        TerminalCause::IdleTimeout => Error::IdleTimeout,
    }
}

impl TerminalCause {
    /// The error for this cause.
    pub fn error(self) -> (r: Error)
        ensures
            r == cause_error(self),
    {
        match self {
            TerminalCause::ConnectionClosed => Error::ConnectionClosed,
            TerminalCause::HeartbeatTimeout => Error::HeartbeatTimeout,
            TerminalCause::IdleTimeout => Error::IdleTimeout,
        }
    }
}

/// What the halves of a split connection share.
#[derive(Debug, Clone, Copy, PartialEq, Eq, Structural)]
pub struct SplitShared {
    /// Where the connection stands.
    pub status: SplitState,
    /// Why it is over, once it is.
    pub cause: Option<TerminalCause>,
}

/// A cause is known exactly once the connection is over.
pub open spec fn shared_wf(s: SplitShared) -> bool {
    s.status == SplitState::Closed <==> s.cause is Some
}

/// The shared state after the connection ended for a cause: the first cause
/// stays.
pub open spec fn terminated(s: SplitShared, cause: TerminalCause) -> SplitShared {
    if s.status == SplitState::Closed {
        s
    } else {
        SplitShared { status: SplitState::Closed, cause: Some(cause) }
    }
}

/// The shared state after a close was sent or received.
pub open spec fn closing(s: SplitShared) -> SplitShared {
    if s.status == SplitState::Open {
        SplitShared { status: SplitState::Closing, ..s }
    } else {
        s
    }
}

/// The error that a writer reports.
pub open spec fn error_now(s: SplitShared) -> Error {
    match s.cause {
        Some(c) => cause_error(c),
        None => Error::ConnectionClosed,
    }
}

/// Whether messages may be sent.
pub open spec fn sending(s: SplitShared) -> Result<(), Error> {
    if s.status == SplitState::Open {
        Ok(())
    } else {
        Err(error_now(s))
    }
}

/// What the halves share at first.
pub open spec fn shared_at_first(closed: bool) -> SplitShared {
    SplitShared {
        status: if closed {
            SplitState::Closed
        } else {
            SplitState::Open
        },
        cause: if closed {
            Some(TerminalCause::ConnectionClosed)
        } else {
            None
        },
    }
}

/// Whether a connection was split into a reader and what the halves share.
pub open spec fn is_split(c: ConnectionView, reader: ReaderView, shared: SplitShared) -> bool {
    &&& reader.queue == c.queue
    &&& reader.failure == c.failure
    &&& !reader.reported
    &&& shared == shared_at_first(c.state != StreamState::Open)
}

/// Whether `count` of the bytes of a frame were written.
pub open spec fn is_progress(before: WriteProgress, count: nat, after: WriteProgress) -> bool {
    after.written == before.written + count
}

/// Whether writing goes on after a transport took `count` bytes: one that takes none has
/// failed.
pub open spec fn goes_on(count: nat) -> bool {
    count > 0
}

/// What is left to write of a frame.
pub open spec fn unwritten(progress: WriteProgress, bytes: Seq<u8>) -> Seq<u8> {
    bytes.skip(progress.written as int)
}

impl SplitShared {
    /// The state of a connection that is split; one that is not open counts as
    /// closed.
    pub fn new(closed: bool) -> (r: Self)
        ensures
            shared_wf(r),
            r == (if closed {
                SplitShared {
                    status: SplitState::Closed,
                    cause: Some(TerminalCause::ConnectionClosed),
                }
            } else {
                SplitShared { status: SplitState::Open, cause: None }
            }),
            r == shared_at_first(closed),
    {
        if closed {
            SplitShared {
                status: SplitState::Closed,
                cause: Some(TerminalCause::ConnectionClosed),
            }
        } else {
            SplitShared { status: SplitState::Open, cause: None }
        }
    }

    /// Notes that a close was sent or received; tells whether it is the first.
    pub fn begin_closing(&mut self) -> (r: bool)
        ensures
            r == (old(self).status == SplitState::Open),
            *final(self) == closing(*old(self)),
            r <==> *final(self) != *old(self),
    {
        if self.status == SplitState::Open {
            self.status = SplitState::Closing;
            true
        } else {
            false
        }
    }

    /// Notes that the connection is over, and why.
    pub fn terminate(&mut self, cause: TerminalCause)
        ensures
            *final(self) == terminated(*old(self), cause),
    {
        if self.status != SplitState::Closed {
            self.status = SplitState::Closed;
            self.cause = Some(cause);
        }
    }

    /// Whether messages may be sent.
    pub fn is_open(&self) -> (r: bool)
        ensures
            r == (self.status == SplitState::Open),
            r <==> sending(*self) is Ok,
    {
        self.status == SplitState::Open
    }

    /// Whether a close was sent or received, or the connection is over.
    pub fn is_closed(&self) -> (r: bool)
        ensures
            r == (self.status != SplitState::Open),
            r <==> sending(*self) is Err,
    {
        self.status != SplitState::Open
    }

    /// Whether a writer may send a message or ask for a flush.
    pub fn check_send(&self) -> (r: Result<(), Error>)
        ensures
            r == (if self.status == SplitState::Open {
                Ok(())
            } else {
                Err(
                    match self.cause {
                        Some(c) => cause_error(c),
                        None => Error::ConnectionClosed,
                    },
                )
            }),
            r == sending(*self),
    {
        if self.is_open() {
            Ok(())
        } else {
            Err(self.current_error())
        }
    }

    /// The error that a writer reports.
    pub fn current_error(&self) -> (r: Error)
        ensures
            r == (match self.cause {
                Some(c) => cause_error(c),
                None => Error::ConnectionClosed,
            }),
            r == error_now(*self),
    {
        match self.cause {
            Some(c) => c.error(),
            None => Error::ConnectionClosed,
        }
    }
}

/// What a reader tells the driver.
#[derive(Debug)]
pub enum ControlRequest {
    /// Something arrived.
    Activity,
    /// A ping arrived, which is to be answered.
    Ping(Bytes),
    /// A pong arrived.
    Pong(Bytes),
    /// The peer closes.
    PeerClose,
    /// The peer ended the stream.
    Eof,
}

/// Whether a request is the one for a message.
pub open spec fn requests(m: MessageView, r: ControlRequest) -> bool {
    match m {
        MessageView::Ping(data) => r matches ControlRequest::Ping(b) && contents(b) == data,
        MessageView::Pong(data) => r matches ControlRequest::Pong(b) && contents(b) == data,
        MessageView::Close(_) => r is PeerClose,
        _ => r is Activity,
    }
}

/// The request for a message.
pub fn request_for(message: &Message) -> (r: ControlRequest)
    ensures
        requests(message@, r),
{
    match message {
        Message::Ping(data) => ControlRequest::Ping(buffers::bytes_clone(data)),
        Message::Pong(data) => ControlRequest::Pong(buffers::bytes_clone(data)),
        Message::Close(_) => ControlRequest::PeerClose,
        _ => ControlRequest::Activity,
    }
}

/// What a reader does next.
#[derive(Debug)]
pub enum SplitAction {
    /// Send the request to the driver, then deliver the message.
    Deliver(Message, ControlRequest),
    /// Report the error once; nothing follows.
    Fail(Error),
    /// Report the end of the stream.
    End,
    /// Read more.
    Read,
}

/// The reading half of a split connection.
pub struct SplitReader {
    read_buf: BytesMut,
    pending_messages: VecDeque<Message>,
    failure: Option<Error>,
    terminal_reported: bool,
}

/// The reading half, as mathematical values.
pub struct ReaderView {
    /// The messages that were received and not yet delivered, oldest first.
    pub queue: Seq<MessageView>,
    /// The error that follows those messages.
    pub failure: Option<Error>,
    /// Whether the end was reported.
    pub reported: bool,
}

impl View for SplitReader {
    type V = ReaderView;

    closed spec fn view(&self) -> ReaderView {
        ReaderView {
            queue: message_views(self.pending_messages@),
            failure: self.failure,
            reported: self.terminal_reported,
        }
    }
}

/// What a reader does next: whether it delivers, what it reports, and what it is
/// afterwards.
///
/// Nothing that was received behind a close is delivered. A failure that is
/// already known is reported behind the messages before it,
/// even where the connection has ended meanwhile. Otherwise an ended connection
/// is reported at once: a timeout as an error, and once only.
pub open spec fn reader_next(
    v: ReaderView,
    shared: SplitShared,
    r: SplitAction,
    after: ReaderView,
    shared_after: SplitShared,
) -> bool {
    let delivers = {
        &&& r matches SplitAction::Deliver(m, request) && m@ == v.queue[0] && requests(m@, request)
        &&& if v.queue[0] is Close {
            &&& after == (ReaderView { queue: Seq::empty(), failure: None, ..v })
            &&& shared_after == closing(shared)
        } else {
            &&& after == (ReaderView { queue: v.queue.skip(1), ..v })
            &&& shared_after == shared
        }
    };
    if v.failure is Some && v.queue.len() > 0 {
        delivers
    } else if v.failure is Some {
        &&& r == SplitAction::Fail(v.failure->0)
        &&& after == (ReaderView { failure: None, reported: true, ..v })
        &&& shared_after == terminated(shared, TerminalCause::ConnectionClosed)
    } else if shared.status == SplitState::Closed {
        &&& after == (ReaderView { reported: true, ..v })
        &&& shared_after == shared
        &&& if v.reported || shared.cause is None || shared.cause
            == Some(TerminalCause::ConnectionClosed) {
            r is End
        } else {
            r == SplitAction::Fail(cause_error(shared.cause->0))
        }
    } else if v.queue.len() > 0 {
        delivers
    } else {
        r is Read && after == v && shared_after == shared
    }
}

impl SplitReader {
    /// What was read and not yet parsed.
    pub closed spec fn unparsed(&self) -> Seq<u8> {
        buffered(self.read_buf)
    }

    /// Lends the buffer that is read into.
    pub fn read_buf_mut(&mut self) -> (r: &mut BytesMut)
        ensures
            buffered(*r) == old(self).unparsed(),
            final(self).unparsed() == buffered(*final(r)),
            final(self)@ == old(self)@,
    {
        &mut self.read_buf
    }

    /// Decides what the reader does next.
    pub fn next_action(&mut self, shared: &mut SplitShared) -> (r: SplitAction)
        ensures
            reader_next(old(self)@, *old(shared), r, final(self)@, *final(shared)),
            final(self).unparsed() == old(self).unparsed(),
    {
        let ghost before = self.pending_messages@;
        if self.failure.is_none() && shared.status == SplitState::Closed {
            let reported = self.terminal_reported;
            self.terminal_reported = true;
            if reported {
                return SplitAction::End;
            }
            return match shared.cause {
                Some(TerminalCause::HeartbeatTimeout) => SplitAction::Fail(Error::HeartbeatTimeout),
                Some(TerminalCause::IdleTimeout) => SplitAction::Fail(Error::IdleTimeout),
                _ => SplitAction::End,
            };
        }
        match self.pending_messages.pop_front() {
            Some(m) => {
                proof {
                    assert(message_views(before)[0] == before[0]@);
                    assert(message_views(self.pending_messages@) =~= message_views(before).skip(1));
                }
                let request = request_for(&m);
                if m.is_close() {
                    shared.begin_closing();
                    self.pending_messages.clear();
                    self.failure = None;
                    assert(message_views(self.pending_messages@) =~= Seq::empty());
                }
                return SplitAction::Deliver(m, request);
            },
            None => {},
        }
        match self.failure.take() {
            Some(e) => {
                self.terminal_reported = true;
                shared.terminate(TerminalCause::ConnectionClosed);
                SplitAction::Fail(e)
            },
            None => SplitAction::Read,
        }
    }

    /// Reports what the bytes read so far were parsed to.
    pub fn on_parsed(&mut self, messages: VecDeque<Message>, failure: Option<Error>)
        requires
            old(self)@.failure is None,
        ensures
            final(self)@ == (ReaderView {
                queue: old(self)@.queue + message_views(messages@),
                failure,
                ..old(self)@
            }),
            final(self).unparsed() == old(self).unparsed(),
            is_parse(old(self)@, message_views(messages@), final(self)@),
            crate::stream::is_failure_step(
                old(self)@.failure,
                crate::stream::FailureStep::Parsed(failure),
                final(self)@.failure,
            ),
    {
        let mut messages = messages;
        let ghost before = self.pending_messages@;
        let ghost more = messages@;
        self.pending_messages.append(&mut messages);
        self.failure = failure;
        assert(message_views(self.pending_messages@) =~= message_views(before) + message_views(more));
    }
}

/// Whether messages were added behind those that wait.
pub open spec fn is_parse(
    before: ReaderView,
    messages: Seq<MessageView>,
    after: ReaderView,
) -> bool {
    after.queue == before.queue + messages && after.reported == before.reported
}

/// Splits a connection: its transport, its reading half, and what the halves
/// share. What is pending for the socket is dropped.
pub fn split<S>(stream: WebSocketStream<S>) -> (r: (S, SplitReader, SplitShared))
    ensures
        r.0 == stream.transport(),
        r.1.unparsed() == stream.unparsed(),
        r.1@ == (ReaderView {
            queue: stream@.queue,
            failure: stream@.failure,
            reported: false,
        }),
        shared_wf(r.2),
        r.2.status == (if stream@.state == StreamState::Open {
            SplitState::Open
        } else {
            SplitState::Closed
        }),
        r.2.cause is Some ==> r.2.cause == Some(TerminalCause::ConnectionClosed),
        is_split(stream@, r.1@, r.2),
{
    let (inner, read_buf, pending_messages, failure, open) = stream.into_parts();
    let reader = SplitReader { read_buf, pending_messages, failure, terminal_reported: false };
    (inner, reader, SplitShared::new(!open))
}

/// What the driver is told.
#[derive(Debug, Clone, Copy, PartialEq, Eq, Structural)]
pub enum DriverEvent {
    /// One of the halves was dropped.
    Cancelled,
    /// The reader is gone.
    ReaderGone,
    /// Something arrived.
    Activity,
    /// A ping arrived.
    Ping,
    /// A pong arrived.
    Pong,
    /// The peer closes.
    PeerClose,
    /// The peer ended the stream.
    Eof,
    /// The writer is gone.
    WriterGone,
    /// A message is to be sent; `true` for a close.
    Send(bool),
    /// A flush is asked for.
    Flush,
    /// The last write or flush succeeded; `true` where it sent a close.
    Done(bool),
    /// The last write or flush failed.
    Failed,
    /// The peer did not answer a close in time.
    CloseTimeout,
    /// A ping is due.
    PingDue,
    /// A deadline has passed.
    Expired(Timeout),
    /// The last close and the shutdown are done, as far as they could be.
    Ended,
}

/// What the driver does.
#[derive(Debug, Clone, Copy, PartialEq, Eq, Structural)]
pub enum DriverAction {
    /// Stop.
    Stop,
    /// Nothing but noting the activity.
    Note,
    /// Answer a ping.
    WritePong,
    /// Answer a close, shut down, and report with `Ended`.
    RespondAndShutdown,
    /// Shut down, and report with `Ended`.
    Shutdown,
    /// Write the message.
    Write,
    /// Refuse the message.
    Refuse,
    /// Flush.
    Flush,
    /// Go on.
    Continue,
    /// Send a ping.
    WritePing,
    /// Send the close for a passed deadline, shut down, and report with `Ended`.
    TimeoutClose(Timeout),
}

/// The state of the driver.
#[derive(Debug, Clone, Copy, PartialEq, Eq, Structural)]
pub struct DriverState {
    /// Whether this side sent a close.
    pub local_close_sent: bool,
    /// Whether the answer to that close is awaited.
    pub awaiting_close: bool,
    /// Why the connection is being ended, once it is.
    pub ending: Option<TerminalCause>,
}

/// The cause for a passed deadline.
pub open spec fn timeout_cause(timeout: Timeout) -> TerminalCause {
    match timeout {
        Timeout::Pong => TerminalCause::HeartbeatTimeout,
        Timeout::Idle => TerminalCause::IdleTimeout,
    }
}

/// The state of a driver that ends the connection for a cause.
pub open spec fn ending(s: DriverState, cause: TerminalCause) -> DriverState {
    DriverState { ending: Some(cause), ..s }
}

/// How the driver goes on from a state on an event: its next state, what the
/// halves share then, and what it does.
pub open spec fn driver_next(s: DriverState, shared: SplitShared, event: DriverEvent) -> (
    DriverState,
    SplitShared,
    DriverAction,
) {
    match event {
        DriverEvent::Cancelled
        | DriverEvent::ReaderGone
        | DriverEvent::WriterGone
        | DriverEvent::Eof
        | DriverEvent::Failed => (
            s,
            terminated(shared, TerminalCause::ConnectionClosed),
            DriverAction::Stop,
        ),
        DriverEvent::Activity | DriverEvent::Pong => (s, shared, DriverAction::Note),
        DriverEvent::Ping => (s, shared, DriverAction::WritePong),
        DriverEvent::PeerClose => (
            ending(s, TerminalCause::ConnectionClosed),
            shared,
            if s.local_close_sent {
                DriverAction::Shutdown
            } else {
                DriverAction::RespondAndShutdown
            },
        ),
        DriverEvent::Send(is_close) => if shared.status != SplitState::Open {
            (s, shared, DriverAction::Refuse)
        } else if is_close {
            (DriverState { local_close_sent: true, ..s }, closing(shared), DriverAction::Write)
        } else {
            (s, shared, DriverAction::Write)
        },
        DriverEvent::Flush => (s, shared, DriverAction::Flush),
        DriverEvent::Done(is_close) => (
            DriverState { awaiting_close: s.awaiting_close || is_close, ..s },
            shared,
            DriverAction::Continue,
        ),
        DriverEvent::CloseTimeout => (
            ending(s, TerminalCause::ConnectionClosed),
            shared,
            DriverAction::Shutdown,
        ),
        DriverEvent::PingDue => (
            s,
            shared,
            if shared.status == SplitState::Open {
                DriverAction::WritePing
            } else {
                DriverAction::Continue
            },
        ),
        DriverEvent::Expired(timeout) => if shared.status == SplitState::Open {
            (ending(s, timeout_cause(timeout)), shared, DriverAction::TimeoutClose(timeout))
        } else {
            (s, shared, DriverAction::Continue)
        },
        DriverEvent::Ended => (
            s,
            terminated(
                shared,
                match s.ending {
                    Some(cause) => cause,
                    None => TerminalCause::ConnectionClosed,
                },
            ),
            DriverAction::Stop,
        ),
    }
}

impl DriverState {
    /// The state of a driver that has just been started.
    pub fn new() -> (r: Self)
        ensures
            r == (DriverState { local_close_sent: false, awaiting_close: false, ending: None }),
            crate::split_laws::is_started(r),
    {
        DriverState { local_close_sent: false, awaiting_close: false, ending: None }
    }

    /// Takes the driver one step further.
    pub fn step(&mut self, shared: &mut SplitShared, event: DriverEvent) -> (r: DriverAction)
        ensures
            (*final(self), *final(shared), r) == driver_next(*old(self), *old(shared), event),
    {
        match event {
            DriverEvent::Cancelled
            | DriverEvent::ReaderGone
            | DriverEvent::WriterGone
            | DriverEvent::Eof
            | DriverEvent::Failed => {
                shared.terminate(TerminalCause::ConnectionClosed);
                DriverAction::Stop
            },
            DriverEvent::Activity | DriverEvent::Pong => DriverAction::Note,
            DriverEvent::Ping => DriverAction::WritePong,
            DriverEvent::PeerClose => {
                self.ending = Some(TerminalCause::ConnectionClosed);
                if self.local_close_sent {
                    DriverAction::Shutdown
                } else {
                    DriverAction::RespondAndShutdown
                }
            },
            DriverEvent::Send(is_close) => {
                if !shared.is_open() {
                    return DriverAction::Refuse;
                }
                if is_close {
                    shared.begin_closing();
                    self.local_close_sent = true;
                }
                DriverAction::Write
            },
            DriverEvent::Flush => DriverAction::Flush,
            DriverEvent::Done(is_close) => {
                if is_close {
                    self.awaiting_close = true;
                }
                DriverAction::Continue
            },
            DriverEvent::CloseTimeout => {
                self.ending = Some(TerminalCause::ConnectionClosed);
                DriverAction::Shutdown
            },
            DriverEvent::PingDue => {
                if shared.is_open() {
                    DriverAction::WritePing
                } else {
                    DriverAction::Continue
                }
            },
            DriverEvent::Expired(timeout) => {
                if !shared.is_open() {
                    return DriverAction::Continue;
                }
                self.ending = Some(
                    match timeout {
                        Timeout::Pong => TerminalCause::HeartbeatTimeout,
                        Timeout::Idle => TerminalCause::IdleTimeout,
                    },
                );
                DriverAction::TimeoutClose(timeout)
            },
            DriverEvent::Ended => {
                shared.terminate(
                    match self.ending {
                        Some(cause) => cause,
                        None => TerminalCause::ConnectionClosed,
                    },
                );
                DriverAction::Stop
            },
        }
    }
}

/// Which of the things that are ready the driver attends to.
#[derive(Debug, Clone, Copy, PartialEq, Eq, Structural)]
pub enum DriverTurn {
    /// The cancellation.
    Cancel,
    /// A request of the reader.
    Control,
    /// A message or a flush of the writer.
    Application,
    /// The peer's time to answer a close is over.
    CloseDeadline,
    /// A heartbeat deadline.
    Heartbeat,
    /// Nothing is ready.
    Wait,
}

/// What is ready for the driver.
#[derive(Debug, Clone, Copy, PartialEq, Eq, Structural)]
pub struct Ready {
    /// One of the halves was dropped.
    pub cancelled: bool,
    /// The reader has sent a request.
    pub control: bool,
    /// The writer has sent a request.
    pub application: bool,
    /// The peer's time to answer a close is over.
    pub close_deadline: bool,
    /// A heartbeat deadline has passed.
    pub heartbeat: bool,
}

/// What the driver attends to: a cancellation first, then what the reader
/// reports, then the writer, then the deadline of a close, then the heartbeat.
/// The writer and the heartbeat only count while the connection is open.
pub open spec fn turn_of(ready: Ready, open: bool) -> DriverTurn {
    if ready.cancelled {
        DriverTurn::Cancel
    } else if ready.control {
        DriverTurn::Control
    } else if ready.application && open {
        DriverTurn::Application
    } else if ready.close_deadline {
        DriverTurn::CloseDeadline
    } else if ready.heartbeat && open {
        DriverTurn::Heartbeat
    } else {
        DriverTurn::Wait
    }
}

/// Picks what the driver attends to.
pub fn driver_turn(ready: Ready, open: bool) -> (r: DriverTurn)
    ensures
        r == turn_of(ready, open),
{
    if ready.cancelled {
        DriverTurn::Cancel
    } else if ready.control {
        DriverTurn::Control
    } else if ready.application && open {
        DriverTurn::Application
    } else if ready.close_deadline {
        DriverTurn::CloseDeadline
    } else if ready.heartbeat && open {
        DriverTurn::Heartbeat
    } else {
        DriverTurn::Wait
    }
}

/// How far the bytes of a frame have been written.
#[derive(Debug, Clone, Copy, PartialEq, Eq, Structural)]
pub struct WriteProgress {
    /// How many of them were written.
    pub written: usize,
}

impl WriteProgress {
    /// Nothing was written yet.
    pub fn new() -> (r: Self)
        ensures
            r.written == 0,
    {
        WriteProgress { written: 0 }
    }

    /// What is left to write; nothing where a flush is due.
    pub fn remaining<'a>(&self, bytes: &'a [u8]) -> (r: Option<&'a [u8]>)
        requires
            self.written <= bytes@.len(),
        ensures
            if self.written == bytes@.len() {
                r is None
            } else {
                r matches Some(rest) && rest@ == bytes@.skip(self.written as int)
            },
            match r {
                Some(rest) => rest@ == unwritten(*self, bytes@) && rest@.len() > 0,
                None => unwritten(*self, bytes@).len() == 0,
            },
    {
        if self.written == bytes.len() {
            None
        } else {
            let rest = vstd::slice::slice_subrange(bytes, self.written, bytes.len());
            assert(rest@ =~= bytes@.skip(self.written as int));
            Some(rest)
        }
    }

    /// Reports that `count` of the remaining bytes were written. Tells whether
    /// to go on: a transport that takes none has failed.
    pub fn on_written(&mut self, total: usize, count: usize) -> (r: bool)
        requires
            old(self).written + count <= total,
        ensures
            r == (count > 0),
            final(self).written == old(self).written + count,
            is_progress(*old(self), count as nat, *final(self)),
            r == goes_on(count as nat),
    {
        self.written = self.written + count;
        count > 0
    }
}

/// Once a close was sent or received, neither the writer nor the heartbeat is
/// attended to.
pub proof fn law_closing_ignores_writer_and_heartbeat(ready: Ready)
    ensures
        turn_of(ready, false) != DriverTurn::Application,
        turn_of(ready, false) != DriverTurn::Heartbeat,
{
}

/// The first cause stays: once a connection is over, no event changes why.
pub proof fn law_first_cause_stays(s: DriverState, shared: SplitShared, event: DriverEvent)
    requires
        shared.status == SplitState::Closed,
    ensures
        driver_next(s, shared, event).1 == shared,
{
}

/// A cause is known exactly once the connection is over, whatever happens.
pub proof fn law_cause_is_known_when_over(s: DriverState, shared: SplitShared, event: DriverEvent)
    requires
        shared_wf(shared),
    ensures
        shared_wf(driver_next(s, shared, event).1),
{
}

/// A connection that is not open never opens again.
pub proof fn law_never_reopens(s: DriverState, shared: SplitShared, event: DriverEvent)
    requires
        shared.status != SplitState::Open,
    ensures
        driver_next(s, shared, event).1.status != SplitState::Open,
{
}

/// No message is written once a close was sent or received.
pub proof fn law_nothing_is_sent_after_close(s: DriverState, shared: SplitShared, is_close: bool)
    requires
        shared.status != SplitState::Open,
    ensures
        driver_next(s, shared, DriverEvent::Send(is_close)) == (s, shared, DriverAction::Refuse),
{
}

/// After this side has sent a close, nothing more is sent but pongs: a close of
/// the peer is not answered, and no deadline brings a second close.
pub proof fn law_close_is_sent_once(s: DriverState, shared: SplitShared, event: DriverEvent)
    requires
        shared.status == SplitState::Open,
    ensures
        ({
            let (sent, closing, action) = driver_next(s, shared, DriverEvent::Send(true));
            let next = driver_next(sent, closing, event).2;
            &&& action == DriverAction::Write
            &&& next != DriverAction::RespondAndShutdown
            &&& next != DriverAction::Write
            &&& next != DriverAction::WritePing
            &&& !(next is TimeoutClose)
        }),
{
}

/// A driver that stops leaves the connection closed, and only then.
pub proof fn law_stop_means_closed(s: DriverState, shared: SplitShared, event: DriverEvent)
    ensures
        driver_next(s, shared, event).2 == DriverAction::Stop ==> driver_next(
            s,
            shared,
            event,
        ).1.status == SplitState::Closed,
        shared.status != SplitState::Closed && driver_next(s, shared, event).1.status
            == SplitState::Closed ==> driver_next(s, shared, event).2 == DriverAction::Stop,
{
}

/// A deadline that passes on an open connection is what the connection is found
/// to have ended for, unless it ended for another cause before.
pub proof fn law_timeout_is_the_cause(s: DriverState, shared: SplitShared, timeout: Timeout)
    requires
        shared.status == SplitState::Open,
    ensures
        ({
            let (s1, shared1, action) = driver_next(s, shared, DriverEvent::Expired(timeout));
            let (_, shared2, last) = driver_next(s1, shared1, DriverEvent::Ended);
            &&& action == DriverAction::TimeoutClose(timeout)
            &&& last == DriverAction::Stop
            &&& shared2.cause == Some(timeout_cause(timeout))
        }),
{
}

/// The end of a connection is reported at most once as an error: whatever a
/// reader reports of a connection that is over, it reports the end afterwards.
pub proof fn law_end_is_reported_once(
    v: ReaderView,
    shared: SplitShared,
    first: SplitAction,
    between: ReaderView,
    shared_between: SplitShared,
    second: SplitAction,
    after: ReaderView,
    shared_after: SplitShared,
)
    requires
        reader_next(v, shared, first, between, shared_between),
        first is Fail || first is End,
        reader_next(between, shared_between, second, after, shared_after),
    ensures
        second is End,
{
}

/// What was received before a failure is delivered first, even where the
/// connection ends meanwhile.
pub proof fn law_messages_precede_failure(
    v: ReaderView,
    shared: SplitShared,
    r: SplitAction,
    after: ReaderView,
    shared_after: SplitShared,
)
    requires
        reader_next(v, shared, r, after, shared_after),
        v.failure is Some,
    ensures
        v.queue.len() > 0 ==> r is Deliver,
        v.queue.len() == 0 ==> r == SplitAction::Fail(v.failure->0),
{
}

/// Nothing that was received behind a close is delivered.
pub proof fn law_close_discards_what_follows(
    v: ReaderView,
    shared: SplitShared,
    r: SplitAction,
    after: ReaderView,
    shared_after: SplitShared,
)
    requires
        reader_next(v, shared, r, after, shared_after),
        r matches SplitAction::Deliver(m, _) && m@ is Close,
    ensures
        after.queue.len() == 0,
        after.failure is None,
        shared_after.status != SplitState::Open,
{
}

} // verus!
