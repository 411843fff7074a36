//! The state machine of a WebSocket connection.
//!
//! The program around it owns the socket, the frame codec and the clock. It asks
//! the machine what to do next, does it, and reports what came of it.

use crate::buffers;
use crate::buffers::{buffered, contents};
use crate::cork::CorkBuffer;
use crate::deflate::{is_client_context, is_server_context, DeflateConfig, DeflateContext};
use crate::error::{CloseReason, Error};
use crate::protocol::{Message, MessageView, Role};
use crate::{default_config, Config, RECV_BUFFER_SIZE};
use bytes::{Bytes, BytesMut};
use std::collections::VecDeque;
use vstd::prelude::*;
use vstd::string::*;

verus! {

/// Default high water mark of the write buffer (64 KiB).
pub const DEFAULT_HIGH_WATER_MARK: usize = 64 * 1024;

/// Default low water mark of the write buffer (16 KiB).
pub const DEFAULT_LOW_WATER_MARK: usize = 16 * 1024;

/// Where a connection stands.
#[derive(Debug, Clone, Copy, PartialEq, Eq, Structural)]
pub enum StreamState {
    /// Normal operation.
    Open,
    /// A close frame was sent.
    CloseSent,
    /// The connection is closed.
    Closed,
}

/// Why a heartbeat deadline passed.
#[derive(Debug, Clone, Copy, PartialEq, Eq, Structural)]
pub enum Timeout {
    /// No pong came back in time.
    Pong,
    /// Nothing arrived for too long.
    Idle,
}

/// What a reader does next.
#[derive(Debug)]
pub enum ReadAction {
    /// Flush what is pending, and report with `on_flushed` or `on_closed`.
    Flush,
    /// Report the end of the stream.
    End,
    /// Handle the deadline that has passed.
    Deadline,
    /// Handle the message with `on_message`.
    Handle(Message),
    /// Report the error.
    Fail(Error),
    /// Read more, and report with `on_parsed` or `on_closed`.
    Read,
}

/// What it is a reader's turn to do.
pub enum ReadTurn {
    Flush,
    End,
    Deadline,
    Handle,
    Fail,
    Read,
}

/// What comes of a completed flush.
#[derive(Debug)]
pub enum Flushed {
    /// Report the error.
    Fail(Error),
    /// Deliver the message.
    Deliver(Message),
    /// Go on.
    Continue,
}

/// What is done about a message.
#[derive(Debug)]
pub enum MessageAction {
    /// Deliver it.
    Deliver(Message),
    /// Answer a ping; it is delivered once the answer is flushed.
    Pong(Bytes),
    /// Answer a close; it is delivered once the answer is flushed.
    CloseResponse,
    /// Deliver a close once what is pending is flushed.
    FlushClose,
}

/// The views of a queue of messages.
pub open spec fn message_views(q: Seq<Message>) -> Seq<MessageView> {
    q.map_values(|m: Message| m@)
}

/// The view of an optional message.
pub open spec fn opt_message(m: Option<Message>) -> Option<MessageView> {
    match m {
        Some(x) => Some(x@),
        None => None,
    }
}

/// A connection, as mathematical values.
pub struct ConnectionView {
    /// Where the connection stands.
    pub state: StreamState,
    /// The messages that were received and not yet handled, oldest first.
    pub queue: Seq<MessageView>,
    /// The error that follows those messages.
    pub failure: Option<Error>,
    /// The message that is delivered after the next flush.
    pub control: Option<MessageView>,
    /// The error that is reported after the next flush.
    pub terminal: Option<Error>,
    /// Whether a flush is due before anything else is read.
    pub flush_due: bool,
    /// Whether the connection is closed after that flush.
    pub close_after_flush: bool,
    /// Whether that flush sends a ping.
    pub ping_flush: bool,
    /// What is pending for the socket.
    pub pending: Seq<u8>,
    /// The high water mark.
    pub high: usize,
    /// The low water mark.
    pub low: usize,
}

/// A WebSocket connection over a transport `S`.
pub struct WebSocketStream<S> {
    inner: S,
    role: Role,
    config: Config,
    read_buf: BytesMut,
    write_buf: CorkBuffer,
    state: StreamState,
    pending_messages: VecDeque<Message>,
    failure: Option<Error>,
    pending_control_message: Option<Message>,
    pending_terminal_error: Option<Error>,
    flush_on_read: bool,
    close_after_flush: bool,
    ping_flush_pending: bool,
    high_water_mark: usize,
    low_water_mark: usize,
}

impl<S> View for WebSocketStream<S> {
    type V = ConnectionView;

    closed spec fn view(&self) -> ConnectionView {
        ConnectionView {
            state: self.state,
            queue: message_views(self.pending_messages@),
            failure: self.failure,
            control: opt_message(self.pending_control_message),
            terminal: self.pending_terminal_error,
            flush_due: self.flush_on_read,
            close_after_flush: self.close_after_flush,
            ping_flush: self.ping_flush_pending,
            pending: self.write_buf@,
            high: self.high_water_mark,
            low: self.low_water_mark,
        }
    }
}

/// A new connection with the given water marks.
pub open spec fn new_connection(high: usize, low: usize) -> ConnectionView {
    ConnectionView {
        state: StreamState::Open,
        queue: Seq::empty(),
        failure: None,
        control: None,
        terminal: None,
        flush_due: false,
        close_after_flush: false,
        ping_flush: false,
        pending: Seq::empty(),
        high,
        low,
    }
}

/// Whether more is pending than the configuration allows.
pub open spec fn exceeds(pending: Seq<u8>, config: Config) -> bool {
    pending.len() > config.max_backpressure
}

/// Where a connection stands once `pending` waits for the socket.
pub open spec fn state_with(state: StreamState, pending: Seq<u8>, config: Config) -> StreamState {
    if exceeds(pending, config) {
        StreamState::Closed
    } else {
        state
    }
}

/// The answer to bytes that were queued.
pub open spec fn queue_result(pending: Seq<u8>, config: Config) -> Result<(), Error> {
    if exceeds(pending, config) {
        Err(Error::ConnectionClosed)
    } else {
        Ok(())
    }
}

/// What a step does to the messages that were received.
pub enum ReadStep {
    /// Messages were received.
    Received(Seq<MessageView>),
    /// The oldest one was taken out.
    Taken(MessageView),
    /// One that was taken out is held back until the next flush.
    Held(MessageView),
    /// What was held back, if anything, is delivered.
    Released(Option<MessageView>),
    /// Nothing.
    Other,
}

/// Whether a step takes a connection from `before` to `after`.
pub open spec fn is_read_step(
    before: ConnectionView,
    step: ReadStep,
    after: ConnectionView,
) -> bool {
    match step {
        ReadStep::Received(messages) => {
            &&& after.queue == before.queue + messages
            &&& after.control == before.control
        },
        ReadStep::Taken(message) => {
            &&& before.queue == seq![message] + after.queue
            &&& after.control == before.control
        },
        ReadStep::Held(message) => {
            &&& after.queue == before.queue
            &&& after.control == Some(message)
            &&& before.control is None
        },
        ReadStep::Released(message) => {
            &&& after.queue == before.queue
            &&& after.control is None
            &&& before.control == message
        },
        ReadStep::Other => after.queue == before.queue && after.control == before.control,
    }
}

/// What a step does to the bytes that are pending.
pub enum WriteStep {
    /// Bytes were queued.
    Queued(Seq<u8>),
    /// The socket took bytes.
    Took(Seq<u8>),
    /// Nothing.
    Other,
}

/// Whether a step takes a connection from `before` to `after`.
pub open spec fn is_write_step(
    before: ConnectionView,
    step: WriteStep,
    after: ConnectionView,
) -> bool {
    match step {
        WriteStep::Queued(data) => after.pending == before.pending + data,
        WriteStep::Took(data) => before.pending == data + after.pending,
        WriteStep::Other => after.pending == before.pending,
    }
}

/// What a step does to the life of a connection.
pub enum LifeStep {
    /// A message is to be sent; `close` tells whether it is a close message.
    Sending { close: bool },
    /// A close message of the peer waits for the next flush.
    PeerClosed,
    /// A close message was queued for a deadline that has passed.
    TimedOut(Timeout),
    /// A ping was queued.
    Pinged,
    /// All that was pending is out.
    Flushed,
    /// The connection has ended.
    Ended,
    /// Nothing.
    Other,
}

/// Whether a step takes a connection from `before` to `after`.
pub open spec fn is_life_step(
    before: ConnectionView,
    step: LifeStep,
    after: ConnectionView,
) -> bool {
    match step {
        LifeStep::Sending { close } => {
            &&& after.state == (if close && before.state == StreamState::Open {
                StreamState::CloseSent
            } else {
                before.state
            })
            &&& after.close_after_flush == before.close_after_flush
            &&& after.terminal == before.terminal
            &&& after.ping_flush == before.ping_flush
        },
        LifeStep::PeerClosed => {
            &&& after.state == before.state
            &&& after.close_after_flush
            &&& after.flush_due
            &&& after.terminal == before.terminal
            &&& after.ping_flush == before.ping_flush
        },
        LifeStep::TimedOut(timeout) => {
            &&& after.state == (if before.state == StreamState::Closed {
                StreamState::Closed
            } else {
                StreamState::CloseSent
            })
            &&& after.close_after_flush
            &&& after.flush_due
            &&& after.terminal == Some(timeout_error(timeout))
            &&& after.ping_flush == before.ping_flush
        },
        LifeStep::Pinged => {
            &&& after.state == before.state
            &&& after.close_after_flush == before.close_after_flush
            &&& after.terminal == before.terminal
            &&& after.ping_flush
            &&& after.flush_due
        },
        LifeStep::Flushed => {
            &&& after.state == (if before.close_after_flush {
                StreamState::Closed
            } else {
                before.state
            })
            &&& !after.close_after_flush
            &&& !after.flush_due
            &&& !after.ping_flush
            &&& after.terminal is None
        },
        LifeStep::Ended => {
            &&& after.state == StreamState::Closed
            &&& after.close_after_flush == before.close_after_flush
            &&& after.terminal == before.terminal
            &&& after.ping_flush == before.ping_flush
        },
        LifeStep::Other => {
            &&& after.state == before.state
            &&& after.close_after_flush == before.close_after_flush
            &&& after.terminal == before.terminal
            &&& after.ping_flush == before.ping_flush
        },
    }
}

/// Whether `r` is what comes of a flush: whether it sent a ping, and then the error
/// that waited for it, or else the message that did.
pub open spec fn is_release(c: ConnectionView, r: (bool, Flushed)) -> bool {
    &&& r.0 == c.ping_flush
    &&& match r.1 {
        Flushed::Fail(e) => c.terminal == Some(e),
        Flushed::Deliver(m) => c.terminal is None && c.control == Some(m@),
        Flushed::Continue => c.terminal is None && c.control is None,
    }
}

/// Whether `r` is what is done about a message.
pub open spec fn is_answer_to(state: StreamState, message: MessageView, r: MessageAction) -> bool {
    match r {
        MessageAction::Deliver(m) => m@ == message && !(message is Ping) && !(message is Close),
        MessageAction::Pong(data) => message == MessageView::Ping(contents(data)),
        MessageAction::CloseResponse => message is Close && state == StreamState::Open,
        MessageAction::FlushClose => message is Close && state != StreamState::Open,
    }
}

/// Whether messages may be sent.
pub open spec fn send_result(state: StreamState) -> Result<(), Error> {
    if state == StreamState::Open {
        Ok(())
    } else {
        Err(Error::ConnectionClosed)
    }
}

/// What a step does to the error that follows the messages that were received.
pub enum FailureStep {
    /// Bytes were parsed, possibly up to an error.
    Parsed(Option<Error>),
    /// The error was reported.
    Reported(Error),
    /// Nothing.
    Other,
}

/// Whether a step takes the error that waits from `before` to `after`.
pub open spec fn is_failure_step(
    before: Option<Error>,
    step: FailureStep,
    after: Option<Error>,
) -> bool {
    match step {
        FailureStep::Parsed(failure) => before is None && after == failure,
        FailureStep::Reported(e) => before == Some(e) && after is None,
        FailureStep::Other => after == before,
    }
}

/// Whether more is pending than the high water mark.
pub open spec fn is_above(pending: nat, high: usize) -> bool {
    pending > high
}

/// Whether no more is pending than the low water mark.
pub open spec fn is_low(pending: nat, low: usize) -> bool {
    pending <= low
}

/// Whether `r` is the close message to send, if one is.
pub open spec fn is_close_message(
    state: StreamState,
    code: u16,
    reason: Seq<char>,
    r: Option<MessageView>,
) -> bool {
    match r {
        Some(m) => {
            &&& state == StreamState::Open
            &&& m == MessageView::Close(Some(crate::protocol::CloseView { code, reason }))
        },
        None => state != StreamState::Open,
    }
}

/// Whether only the water marks were changed, to these.
pub open spec fn are_marks_set(
    before: ConnectionView,
    high: usize,
    low: usize,
    after: ConnectionView,
) -> bool {
    after == (ConnectionView { high, low, ..before })
}

/// Whether `r` is as much of `reason` as a close frame has room for.
pub open spec fn is_bounded_reason(reason: Seq<char>, r: Seq<char>) -> bool {
    &&& r.is_prefix_of(reason)
    &&& fits_close(r)
    &&& forall|k: int| r.len() < k <= reason.len() ==> !fits_close(#[trigger] reason.take(k))
}

/// What happened on the way to a complete flush.
#[derive(Debug, Clone, Copy, PartialEq, Eq, Structural)]
pub enum FlushEvent {
    /// A flush is asked for.
    Begin,
    /// The socket took so many bytes.
    Written(usize),
    /// The socket itself is flushed.
    Flushed,
    /// Writing or flushing failed.
    Failed,
}

/// What is done for a flush.
#[derive(Debug, Clone, Copy, PartialEq, Eq, Structural)]
pub enum FlushAction {
    /// Write what is pending.
    Write,
    /// Flush the socket.
    FlushSocket,
    /// The flush is complete.
    Done,
    /// The flush has failed; a socket that takes nothing is closed.
    Fail,
}

/// How a flush goes on: the connection afterwards, and what is done next.
pub open spec fn flush_next(c: ConnectionView, event: FlushEvent) -> (ConnectionView, FlushAction) {
    let failed = (ConnectionView { state: StreamState::Closed, ..c }, FlushAction::Fail);
    match event {
        FlushEvent::Begin => (
            c,
            if c.pending.len() > 0 {
                FlushAction::Write
            } else {
                FlushAction::FlushSocket
            },
        ),
        FlushEvent::Written(n) => if n == 0 {
            failed
        } else if n < c.pending.len() {
            (
                ConnectionView { pending: c.pending.skip(n as int), ..c },
                FlushAction::Write,
            )
        } else {
            (ConnectionView { pending: Seq::empty(), ..c }, FlushAction::FlushSocket)
        },
        FlushEvent::Flushed => (
            c,
            if c.pending.len() > 0 {
                FlushAction::Write
            } else {
                FlushAction::Done
            },
        ),
        FlushEvent::Failed => failed,
    }
}

/// What a reader does next, in this order: flush, end, heed a deadline, handle a
/// message, report a failure, read.
pub open spec fn next_read(c: ConnectionView, deadline_due: bool) -> ReadTurn {
    if c.flush_due {
        ReadTurn::Flush
    } else if c.state == StreamState::Closed {
        ReadTurn::End
    } else if deadline_due {
        ReadTurn::Deadline
    } else if c.queue.len() > 0 {
        ReadTurn::Handle
    } else if c.failure is Some {
        ReadTurn::Fail
    } else {
        ReadTurn::Read
    }
}

impl<S> WebSocketStream<S> {
    /// The transport.
    pub closed spec fn transport(&self) -> S {
        self.inner
    }

    /// The role of this side.
    pub closed spec fn side(&self) -> Role {
        self.role
    }

    /// The configuration.
    pub closed spec fn settings(&self) -> Config {
        self.config
    }

    /// What was read and not yet parsed.
    pub closed spec fn unparsed(&self) -> Seq<u8> {
        buffered(self.read_buf)
    }

    /// The write buffer is well formed; a message or an error that waits for a
    /// flush has one coming; and a connection with more pending than the
    /// configuration allows is closed.
    pub closed spec fn wf(&self) -> bool {
        &&& self.write_buf.wf()
        &&& self.pending_control_message is Some ==> self.flush_on_read
        &&& self.pending_terminal_error is Some ==> self.flush_on_read
        &&& self.pending_control_message is None || self.pending_terminal_error is None
        &&& exceeds(self.write_buf@, self.config) ==> self.state == StreamState::Closed
    }

    /// The transport, the role, the configuration and what was read are as
    /// before.
    pub open spec fn keeps_setup(&self, before: &Self) -> bool {
        &&& self.transport() == before.transport()
        &&& self.side() == before.side()
        &&& self.settings() == before.settings()
        &&& self.unparsed() == before.unparsed()
    }

    /// Starts a connection over an upgraded transport.
    pub fn from_raw(inner: S, role: Role, config: Config) -> (r: Self)
        requires
            config.write_buffer_size <= isize::MAX,
        ensures
            r.wf(),
            r@ == new_connection(DEFAULT_HIGH_WATER_MARK, DEFAULT_LOW_WATER_MARK),
            r.transport() == inner,
            r.side() == role,
            r.settings() == config,
            r.unparsed() == Seq::<u8>::empty(),
    {
        let r = WebSocketStream {
            inner,
            role,
            config,
            read_buf: BytesMut::with_capacity(RECV_BUFFER_SIZE),
            write_buf: CorkBuffer::with_capacity(config.write_buffer_size),
            state: StreamState::Open,
            pending_messages: VecDeque::new(),
            failure: None,
            pending_control_message: None,
            pending_terminal_error: None,
            flush_on_read: false,
            close_after_flush: false,
            ping_flush_pending: false,
            high_water_mark: DEFAULT_HIGH_WATER_MARK,
            low_water_mark: DEFAULT_LOW_WATER_MARK,
        };
        assert(message_views(r.pending_messages@) =~= Seq::empty());
        r
    }

    /// Starts the server side of a connection.
    pub fn server(inner: S, config: Config) -> (r: Self)
        requires
            config.write_buffer_size <= isize::MAX,
        ensures
            r.wf(),
            r@ == new_connection(DEFAULT_HIGH_WATER_MARK, DEFAULT_LOW_WATER_MARK),
            r.transport() == inner,
            r.side() == Role::Server,
            r.settings() == config,
            r.unparsed() == Seq::<u8>::empty(),
    {
        WebSocketStream::from_raw(inner, Role::Server, config)
    }

    /// Starts the client side of a connection.
    pub fn client(inner: S, config: Config) -> (r: Self)
        requires
            config.write_buffer_size <= isize::MAX,
        ensures
            r.wf(),
            r@ == new_connection(DEFAULT_HIGH_WATER_MARK, DEFAULT_LOW_WATER_MARK),
            r.transport() == inner,
            r.side() == Role::Client,
            r.settings() == config,
            r.unparsed() == Seq::<u8>::empty(),
    {
        WebSocketStream::from_raw(inner, Role::Client, config)
    }

    /// Lends the transport.
    pub fn get_ref(&self) -> (r: &S)
        ensures
            *r == self.transport(),
    {
        &self.inner
    }

    /// Lends the transport for use.
    pub fn get_mut(&mut self) -> (r: &mut S)
        requires
            old(self).wf(),
        ensures
            *r == old(self).transport(),
            final(self).transport() == *final(r),
            final(self).wf(),
            final(self)@ == old(self)@,
            final(self).side() == old(self).side(),
            final(self).settings() == old(self).settings(),
            final(self).unparsed() == old(self).unparsed(),
    {
        &mut self.inner
    }

    /// Gives the transport back.
    pub fn into_inner(self) -> (r: S)
        ensures
            r == self.transport(),
    {
        self.inner
    }

    /// The role of this side.
    pub fn role(&self) -> (r: Role)
        ensures
            r == self.side(),
    {
        self.role
    }

    /// The configuration.
    pub fn config(&self) -> (r: Config)
        ensures
            r == self.settings(),
    {
        self.config
    }

    /// Whether the connection is closed.
    pub fn is_closed(&self) -> (r: bool)
        ensures
            r == (self@.state == StreamState::Closed),
    {
        self.state == StreamState::Closed
    }

    /// Whether more is pending than the high water mark.
    pub fn is_backpressured(&self) -> (r: bool)
        requires
            self.wf(),
        ensures
            r == (self@.pending.len() > self@.high),
            r == is_above(self@.pending.len(), self@.high),
    {
        self.write_buf.pending_bytes() > self.high_water_mark
    }

    /// Whether no more is pending than the low water mark.
    pub fn is_write_buffer_low(&self) -> (r: bool)
        requires
            self.wf(),
        ensures
            r == (self@.pending.len() <= self@.low),
            r == is_low(self@.pending.len(), self@.low),
    {
        self.write_buf.pending_bytes() <= self.low_water_mark
    }

    /// The number of bytes that are pending for the socket.
    pub fn write_buffer_len(&self) -> (r: usize)
        requires
            self.wf(),
        ensures
            r == self@.pending.len(),
    {
        self.write_buf.pending_bytes()
    }

    /// The number of bytes that were read and not yet parsed.
    pub fn read_buffer_len(&self) -> (r: usize)
        ensures
            r == self.unparsed().len(),
    {
        self.read_buf.len()
    }

    /// Sets the high water mark.
    pub fn set_high_water_mark(&mut self, size: usize)
        requires
            old(self).wf(),
        ensures
            final(self).wf(),
            final(self).keeps_setup(old(self)),
            final(self)@ == (ConnectionView { high: size, ..old(self)@ }),
            are_marks_set(old(self)@, size, old(self)@.low, final(self)@),
    {
        self.high_water_mark = size;
    }

    /// Sets the low water mark.
    pub fn set_low_water_mark(&mut self, size: usize)
        requires
            old(self).wf(),
        ensures
            final(self).wf(),
            final(self).keeps_setup(old(self)),
            final(self)@ == (ConnectionView { low: size, ..old(self)@ }),
            are_marks_set(old(self)@, old(self)@.high, size, final(self)@),
    {
        self.low_water_mark = size;
    }

    /// The high water mark.
    pub fn high_water_mark(&self) -> (r: usize)
        ensures
            r == self@.high,
    {
        self.high_water_mark
    }

    /// The low water mark.
    pub fn low_water_mark(&self) -> (r: usize)
        ensures
            r == self@.low,
    {
        self.low_water_mark
    }

    /// Decides what a reader does next. `deadline_due` tells whether a heartbeat
    /// deadline has passed.
    pub fn next_action(&mut self, deadline_due: bool) -> (r: ReadAction)
        requires
            old(self).wf(),
        ensures
            final(self).wf(),
            final(self).keeps_setup(old(self)),
            match next_read(old(self)@, deadline_due) {
                ReadTurn::Flush => r is Flush && final(self)@ == old(self)@,
                ReadTurn::End => r is End && final(self)@ == old(self)@,
                ReadTurn::Deadline => r is Deadline && final(self)@ == old(self)@,
                ReadTurn::Handle => r matches ReadAction::Handle(m) && m@ == old(self)@.queue[0] && final(self)@
                    == (ConnectionView { queue: old(self)@.queue.skip(1), ..old(self)@ }),
                ReadTurn::Fail => r == ReadAction::Fail(old(self)@.failure->0) && final(self)@ == (
                ConnectionView { failure: None, state: StreamState::Closed, ..old(self)@ }),
                ReadTurn::Read => r is Read && final(self)@ == old(self)@,
            },
            is_read_step(
                old(self)@,
                match r {
                    ReadAction::Handle(m) => ReadStep::Taken(m@),
                    _ => ReadStep::Other,
                },
                final(self)@,
            ),
            is_write_step(old(self)@, WriteStep::Other, final(self)@),
            is_life_step(
                old(self)@,
                if r is Fail {
                    LifeStep::Ended
                } else {
                    LifeStep::Other
                },
                final(self)@,
            ),
            is_failure_step(
                old(self)@.failure,
                match r {
                    ReadAction::Fail(e) => FailureStep::Reported(e),
                    _ => FailureStep::Other,
                },
                final(self)@.failure,
            ),
    {
        if self.flush_on_read {
            return ReadAction::Flush;
        }
        if self.state == StreamState::Closed {
            return ReadAction::End;
        }
        if deadline_due {
            return ReadAction::Deadline;
        }
        let ghost before = self.pending_messages@;
        match self.pending_messages.pop_front() {
            Some(m) => {
                proof {
                    assert(message_views(before)[0] == before[0]@);
                    assert(message_views(self.pending_messages@) =~= message_views(before).skip(1));
                    assert(message_views(before) =~= seq![m@] + message_views(
                        self.pending_messages@,
                    ));
                }
                return ReadAction::Handle(m);
            },
            None => {},
        }
        match self.failure.take() {
            Some(e) => {
                self.state = StreamState::Closed;
                ReadAction::Fail(e)
            },
            None => ReadAction::Read,
        }
    }

    /// Reports that a flush is complete. Tells whether it sent a ping, and what
    /// follows.
    pub fn on_flushed(&mut self) -> (r: (bool, Flushed))
        requires
            old(self).wf(),
            old(self)@.pending.len() == 0,
        ensures
            final(self).wf(),
            final(self).keeps_setup(old(self)),
            r.0 == old(self)@.ping_flush,
            ({
                let c = old(self)@;
                let after = ConnectionView {
                    flush_due: false,
                    ping_flush: false,
                    close_after_flush: false,
                    state: if c.close_after_flush {
                        StreamState::Closed
                    } else {
                        c.state
                    },
                    ..c
                };
                match c.terminal {
                    Some(e) => r.1 == Flushed::Fail(e) && final(self)@ == (ConnectionView {
                        terminal: None,
                        ..after
                    }),
                    None => match c.control {
                        Some(m) => r.1 matches Flushed::Deliver(d) && d@ == m && final(self)@ == (
                        ConnectionView { control: None, ..after }),
                        None => r.1 is Continue && final(self)@ == after,
                    },
                }
            }),
            is_read_step(
                old(self)@,
                ReadStep::Released(
                    match r.1 {
                        Flushed::Deliver(m) => Some(m@),
                        _ => None,
                    },
                ),
                final(self)@,
            ),
            is_write_step(old(self)@, WriteStep::Other, final(self)@),
            is_life_step(old(self)@, LifeStep::Flushed, final(self)@),
            is_release(old(self)@, r),
            is_failure_step(old(self)@.failure, FailureStep::Other, final(self)@.failure),
    {
        self.flush_on_read = false;
        let pinged = self.ping_flush_pending;
        self.ping_flush_pending = false;
        if self.close_after_flush {
            self.close_after_flush = false;
            self.state = StreamState::Closed;
        }
        match self.pending_terminal_error.take() {
            Some(e) => {
                return (pinged, Flushed::Fail(e));
            },
            None => {},
        }
        match self.pending_control_message.take() {
            Some(m) => (pinged, Flushed::Deliver(m)),
            None => (pinged, Flushed::Continue),
        }
    }

    /// Reports that the connection is over: the peer ended it, it was shut down,
    /// or reading, flushing or encoding failed.
    pub fn on_closed(&mut self)
        requires
            old(self).wf(),
        ensures
            final(self).wf(),
            final(self).keeps_setup(old(self)),
            final(self)@ == (ConnectionView { state: StreamState::Closed, ..old(self)@ }),
            is_life_step(old(self)@, LifeStep::Ended, final(self)@),
            is_read_step(old(self)@, ReadStep::Other, final(self)@),
            is_write_step(old(self)@, WriteStep::Other, final(self)@),
            is_failure_step(old(self)@.failure, FailureStep::Other, final(self)@.failure),
    {
        self.state = StreamState::Closed;
    }

    /// Reports that a due ping was encoded; it goes out with the next flush.
    pub fn on_ping_queued(&mut self)
        requires
            old(self).wf(),
        ensures
            final(self).wf(),
            final(self).keeps_setup(old(self)),
            final(self)@ == (ConnectionView { ping_flush: true, flush_due: true, ..old(self)@ }),
            is_life_step(old(self)@, LifeStep::Pinged, final(self)@),
            is_read_step(old(self)@, ReadStep::Other, final(self)@),
            is_write_step(old(self)@, WriteStep::Other, final(self)@),
            is_failure_step(old(self)@.failure, FailureStep::Other, final(self)@.failure),
    {
        self.ping_flush_pending = true;
        self.flush_on_read = true;
    }

    /// Reports that the close for a passed deadline was encoded. It goes out with
    /// the next flush, after which the connection is closed and the cause is
    /// reported.
    pub fn on_timeout_close_queued(&mut self, timeout: Timeout)
        requires
            old(self).wf(),
            !old(self)@.flush_due,
        ensures
            final(self).wf(),
            final(self).keeps_setup(old(self)),
            final(self)@ == (ConnectionView {
                state: if old(self)@.state == StreamState::Closed {
                    StreamState::Closed
                } else {
                    StreamState::CloseSent
                },
                terminal: Some(timeout_error(timeout)),
                flush_due: true,
                close_after_flush: true,
                ..old(self)@
            }),
            is_life_step(old(self)@, LifeStep::TimedOut(timeout), final(self)@),
            is_read_step(old(self)@, ReadStep::Other, final(self)@),
            is_write_step(old(self)@, WriteStep::Other, final(self)@),
            is_failure_step(old(self)@.failure, FailureStep::Other, final(self)@.failure),
    {
        if self.state != StreamState::Closed {
            self.state = StreamState::CloseSent;
        }
        self.pending_terminal_error = Some(error_for_timeout(timeout));
        self.flush_on_read = true;
        self.close_after_flush = true;
    }

    /// Decides what to do about a message that was received.
    pub fn on_message(&mut self, message: Message) -> (r: MessageAction)
        requires
            old(self).wf(),
            !old(self)@.flush_due,
        ensures
            final(self).wf(),
            final(self).keeps_setup(old(self)),
            match message@ {
                MessageView::Ping(data) => {
                    &&& r matches MessageAction::Pong(b) && contents(b) == data
                    &&& final(self)@ == (ConnectionView {
                        control: Some(message@),
                        flush_due: true,
                        ..old(self)@
                    })
                },
                MessageView::Close(_) => {
                    &&& if old(self)@.state == StreamState::Open {
                        r is CloseResponse
                    } else {
                        r is FlushClose
                    }
                    &&& final(self)@ == (ConnectionView {
                        control: Some(message@),
                        flush_due: true,
                        close_after_flush: true,
                        ..old(self)@
                    })
                },
                _ => r matches MessageAction::Deliver(m) && m@ == message@ && final(self)@ == old(
                    self,
                )@,
            },
            is_read_step(
                old(self)@,
                match r {
                    MessageAction::Deliver(_) => ReadStep::Other,
                    _ => ReadStep::Held(message@),
                },
                final(self)@,
            ),
            is_write_step(old(self)@, WriteStep::Other, final(self)@),
            is_life_step(
                old(self)@,
                if message@ is Close {
                    LifeStep::PeerClosed
                } else {
                    LifeStep::Other
                },
                final(self)@,
            ),
            is_answer_to(old(self)@.state, message@, r),
            final(self)@.flush_due <==> !(r is Deliver),
            is_failure_step(old(self)@.failure, FailureStep::Other, final(self)@.failure),
    {
        match &message {
            Message::Ping(data) => {
                let copy = buffers::bytes_clone(data);
                self.pending_control_message = Some(message);
                self.flush_on_read = true;
                MessageAction::Pong(copy)
            },
            Message::Close(_) => {
                let answer = self.state == StreamState::Open;
                self.pending_control_message = Some(message);
                self.flush_on_read = true;
                self.close_after_flush = true;
                if answer {
                    MessageAction::CloseResponse
                } else {
                    MessageAction::FlushClose
                }
            },
            _ => MessageAction::Deliver(message),
        }
    }

    /// Whether a message may be sent.
    pub fn poll_ready(&self) -> (r: Result<(), Error>)
        ensures
            r == (if self@.state == StreamState::Open {
                Ok(())
            } else {
                Err(Error::ConnectionClosed)
            }),
            r == send_result(self@.state),
    {
        if self.state == StreamState::Open {
            Ok(())
        } else {
            Err(Error::ConnectionClosed)
        }
    }

    /// Starts to send a message: a close is the last one.
    pub fn start_send(&mut self, message: &Message) -> (r: Result<(), Error>)
        requires
            old(self).wf(),
        ensures
            final(self).wf(),
            final(self).keeps_setup(old(self)),
            r == (if old(self)@.state == StreamState::Open {
                Ok(())
            } else {
                Err(Error::ConnectionClosed)
            }),
            final(self)@ == (ConnectionView {
                state: if old(self)@.state == StreamState::Open && message@ is Close {
                    StreamState::CloseSent
                } else {
                    old(self)@.state
                },
                ..old(self)@
            }),
            r == send_result(old(self)@.state),
            is_life_step(
                old(self)@,
                LifeStep::Sending { close: message@ is Close },
                final(self)@,
            ),
            is_read_step(old(self)@, ReadStep::Other, final(self)@),
            is_write_step(old(self)@, WriteStep::Other, final(self)@),
            is_failure_step(old(self)@.failure, FailureStep::Other, final(self)@.failure),
    {
        if self.state != StreamState::Open {
            return Err(Error::ConnectionClosed);
        }
        if message.is_close() {
            self.state = StreamState::CloseSent;
        }
        Ok(())
    }

    /// Reports that the socket took `n` bytes. None at all means that it is
    /// closed.
    pub fn on_written(&mut self, n: usize) -> (r: Result<(), Error>)
        requires
            old(self).wf(),
        ensures
            final(self).wf(),
            final(self).keeps_setup(old(self)),
            if n == 0 {
                &&& r == Err::<(), Error>(Error::ConnectionClosed)
                &&& final(self)@ == (ConnectionView { state: StreamState::Closed, ..old(self)@ })
            } else {
                &&& r == Ok::<(), Error>(())
                &&& final(self)@ == (ConnectionView {
                    pending: old(self)@.pending.skip(
                        if n < old(self)@.pending.len() {
                            n as int
                        } else {
                            old(self)@.pending.len() as int
                        },
                    ),
                    ..old(self)@
                })
            },
            n <= old(self)@.pending.len() ==> is_write_step(
                old(self)@,
                WriteStep::Took(old(self)@.pending.take(n as int)),
                final(self)@,
            ),
            is_read_step(old(self)@, ReadStep::Other, final(self)@),
            is_life_step(
                old(self)@,
                if r is Err {
                    LifeStep::Ended
                } else {
                    LifeStep::Other
                },
                final(self)@,
            ),
            is_failure_step(old(self)@.failure, FailureStep::Other, final(self)@.failure),
            final(self)@ == flush_next(old(self)@, FlushEvent::Written(n)).0,
            r is Err <==> flush_next(old(self)@, FlushEvent::Written(n)).1 == FlushAction::Fail,
    {
        proof {
            if n <= self@.pending.len() {
                let p = self@.pending;
                assert(p =~= p.take(n as int) + p.skip(n as int));
                if n == 0 {
                    assert(p.take(0) + p =~= p);
                }
            }
            if n >= self@.pending.len() {
                let p = self@.pending;
                assert(p.skip(p.len() as int) =~= Seq::empty());
            }
        }
        if n == 0 {
            self.state = StreamState::Closed;
            return Err(Error::ConnectionClosed);
        }
        self.write_buf.consume(n);
        Ok(())
    }

    /// Takes a flush one step further. It is complete only once nothing is
    /// pending.
    pub fn flush_step(&mut self, event: FlushEvent) -> (r: FlushAction)
        requires
            old(self).wf(),
        ensures
            final(self).wf(),
            final(self).keeps_setup(old(self)),
            (final(self)@, r) == flush_next(old(self)@, event),
            r is Done ==> final(self)@.pending.len() == 0,
            is_life_step(
                old(self)@,
                if r is Fail {
                    LifeStep::Ended
                } else {
                    LifeStep::Other
                },
                final(self)@,
            ),
            is_read_step(old(self)@, ReadStep::Other, final(self)@),
            is_failure_step(old(self)@.failure, FailureStep::Other, final(self)@.failure),
    {
        match event {
            FlushEvent::Written(n) => {
                if self.on_written(n).is_err() {
                    return FlushAction::Fail;
                }
                let pending: bool = self.write_buf.has_data();
                proof {
                    if !pending {
                        assert(self@.pending =~= Seq::empty());
                    }
                }
                if pending {
                    FlushAction::Write
                } else {
                    FlushAction::FlushSocket
                }
            },
            FlushEvent::Failed => {
                self.state = StreamState::Closed;
                FlushAction::Fail
            },
            FlushEvent::Begin => {
                if self.write_buf.has_data() {
                    FlushAction::Write
                } else {
                    FlushAction::FlushSocket
                }
            },
            FlushEvent::Flushed => {
                if self.write_buf.has_data() {
                    FlushAction::Write
                } else {
                    FlushAction::Done
                }
            },
        }
    }

    /// Queues bytes that a frame was encoded to. A connection with more pending
    /// than the configuration allows is closed.
    pub fn queue_bytes(&mut self, data: &[u8]) -> (r: Result<(), Error>)
        requires
            old(self).wf(),
            old(self)@.pending.len() + data@.len() <= isize::MAX,
        ensures
            final(self).wf(),
            final(self).keeps_setup(old(self)),
            final(self)@ == (ConnectionView {
                pending: old(self)@.pending + data@,
                state: state_with(
                    old(self)@.state,
                    old(self)@.pending + data@,
                    old(self).settings(),
                ),
                ..old(self)@
            }),
            r == queue_result(old(self)@.pending + data@, old(self).settings()),
            is_write_step(old(self)@, WriteStep::Queued(data@), final(self)@),
            is_read_step(old(self)@, ReadStep::Other, final(self)@),
            is_life_step(
                old(self)@,
                if r is Err {
                    LifeStep::Ended
                } else {
                    LifeStep::Other
                },
                final(self)@,
            ),
            is_failure_step(old(self)@.failure, FailureStep::Other, final(self)@.failure),
    {
        self.write_buf.write(data);
        if self.write_buf.pending_bytes() > self.config.max_backpressure {
            self.state = StreamState::Closed;
            return Err(Error::ConnectionClosed);
        }
        Ok(())
    }

    /// Lends what is pending, piece by piece.
    pub fn write_slices(&self) -> (r: Vec<&[u8]>)
        requires
            self.wf(),
        ensures
            crate::cork::flatten(crate::cork::slice_views(r@)) == self@.pending,
    {
        proof {
            crate::cork::law_pieces_are_pending(&self.write_buf);
        }
        self.write_buf.get_write_slices()
    }

    /// Lends the buffer that is read into.
    pub fn read_buf_mut(&mut self) -> (r: &mut BytesMut)
        requires
            old(self).wf(),
        ensures
            buffered(*r) == old(self).unparsed(),
            final(self).unparsed() == buffered(*final(r)),
            final(self).transport() == old(self).transport(),
            final(self).side() == old(self).side(),
            final(self).settings() == old(self).settings(),
            final(self).wf(),
            final(self)@ == old(self)@,
    {
        &mut self.read_buf
    }

    /// Reports what the bytes read so far were parsed to: messages, and possibly
    /// an error behind them.
    pub fn on_parsed(&mut self, messages: VecDeque<Message>, failure: Option<Error>)
        requires
            old(self).wf(),
            old(self)@.failure is None,
        ensures
            final(self).wf(),
            final(self).keeps_setup(old(self)),
            final(self)@ == (ConnectionView {
                queue: old(self)@.queue + message_views(messages@),
                failure,
                ..old(self)@
            }),
            is_read_step(
                old(self)@,
                ReadStep::Received(message_views(messages@)),
                final(self)@,
            ),
            is_write_step(old(self)@, WriteStep::Other, final(self)@),
            is_life_step(old(self)@, LifeStep::Other, final(self)@),
            is_failure_step(old(self)@.failure, FailureStep::Parsed(failure), final(self)@.failure),
    {
        let mut messages = messages;
        let ghost before = self.pending_messages@;
        let ghost more = messages@;
        self.pending_messages.append(&mut messages);
        self.failure = failure;
        assert(message_views(self.pending_messages@) =~= message_views(before) + message_views(more));
    }
}

/// A connection with more pending than the configuration allows is closed.
pub proof fn law_too_much_pending_closes<S>(ws: &WebSocketStream<S>)
    requires
        ws.wf(),
        ws@.pending.len() > ws.settings().max_backpressure,
    ensures
        ws@.state == StreamState::Closed,
{
}

/// A completed flush leaves nothing pending, so that the write buffer is low and
/// there is no backpressure, whatever the water marks.
pub proof fn law_completed_flush_leaves_nothing(c: ConnectionView, event: FlushEvent)
    requires
        flush_next(c, event).1 is Done,
    ensures
        flush_next(c, event).0.pending.len() == 0,
        flush_next(c, event).0.pending.len() <= flush_next(c, event).0.low,
        !(flush_next(c, event).0.pending.len() > flush_next(c, event).0.high),
{
}

/// A new connection has nothing pending, so that its write buffer is low and there
/// is no backpressure, whatever the water marks.
pub proof fn law_new_connection_has_nothing_pending(high: usize, low: usize)
    ensures
        new_connection(high, low).pending.len() == 0,
        new_connection(high, low).pending.len() <= low,
        !(new_connection(high, low).pending.len() > high),
{
}

/// The error for a passed deadline.
pub open spec fn timeout_error(timeout: Timeout) -> Error {
    match timeout {
        Timeout::Pong => Error::HeartbeatTimeout,
        Timeout::Idle => Error::IdleTimeout,
    }
}

/// The error for a passed deadline.
pub fn error_for_timeout(timeout: Timeout) -> (r: Error)
    ensures
        r == timeout_error(timeout),
{
    match timeout {
        Timeout::Pong => Error::HeartbeatTimeout,
        Timeout::Idle => Error::IdleTimeout,
    }
}

/// The UTF-8 length that a close reason may have.
pub const MAX_CLOSE_REASON: usize = 123;

/// Whether a text fits a close frame as its reason.
pub open spec fn fits_close(s: Seq<char>) -> bool {
    vstd::utf8::encode_utf8(s).len() <= MAX_CLOSE_REASON
}

/// The longest beginning of a text that fits a close frame.
pub fn bounded_close_reason(reason: &str) -> (r: String)
    ensures
        r@.is_prefix_of(reason@),
        fits_close(r@),
        forall|k: int| r@.len() < k <= reason@.len() ==> !fits_close(#[trigger] reason@.take(k)),
        is_bounded_reason(reason@, r@),
{
    let n: usize = reason.unicode_len();
    let mut k: usize = n;
    while k > 0 && reason.substring_char(0, k).as_bytes().len() > MAX_CLOSE_REASON
        invariant
            n == reason@.len(),
            k <= n,
            forall|j: int| k < j <= n ==> !fits_close(#[trigger] reason@.take(j)),
        decreases k,
    {
        assert(reason@.subrange(0, k as int) =~= reason@.take(k as int));
        k = k - 1;
    }
    let part = reason.substring_char(0, k);
    assert(reason@.subrange(0, k as int) =~= reason@.take(k as int));
    part.to_owned()
}

/// The close reason for a passed deadline: the configured one where a pong is
/// missing, cut to what fits a close frame, and "going away" for an idle
/// connection.
pub fn timeout_close_reason(timeout: Timeout, pong_code: u16, pong_reason: &str) -> (r: CloseReason)
    ensures
        match timeout {
            Timeout::Pong => r.code == pong_code && r.reason@.is_prefix_of(pong_reason@)
                && fits_close(r.reason@) && forall|k: int|
                r.reason@.len() < k <= pong_reason@.len() ==> !fits_close(
                    #[trigger] pong_reason@.take(k),
                ),
            Timeout::Idle => r.code == CloseReason::GOING_AWAY && r.reason@
                == "Connection idle timeout"@,
        },
        timeout == Timeout::Pong ==> is_bounded_reason(pong_reason@, r.reason@),
{
    match timeout {
        Timeout::Pong => CloseReason { code: pong_code, reason: bounded_close_reason(pong_reason) },
        Timeout::Idle => CloseReason::new(CloseReason::GOING_AWAY, "Connection idle timeout"),
    }
}

impl<S> WebSocketStream<S> {
    /// Takes the connection apart for its two halves: the transport, what was
    /// read, and the messages and the error that were received. What is pending
    /// for the socket is dropped. The flag tells whether messages may still be
    /// sent.
    pub fn into_parts(self) -> (r: (S, BytesMut, VecDeque<Message>, Option<Error>, bool))
        ensures
            r.0 == self.transport(),
            buffered(r.1) == self.unparsed(),
            message_views(r.2@) == self@.queue,
            r.3 == self@.failure,
            r.4 == (self@.state == StreamState::Open),
            r.4 <==> send_result(self@.state) is Ok,
    {
        (
            self.inner,
            self.read_buf,
            self.pending_messages,
            self.failure,
            self.state == StreamState::Open,
        )
    }

    /// The close to send, unless one was sent or the connection is closed.
    pub fn close_message(&self, code: u16, reason: &str) -> (r: Option<Message>)
        ensures
            if self@.state == StreamState::Open {
                r matches Some(m) && m@ == MessageView::Close(
                    Some(crate::protocol::CloseView { code, reason: reason@ }),
                )
            } else {
                r is None
            },
            is_close_message(self@.state, code, reason@, opt_message(r)),
    {
        if self.state != StreamState::Open {
            return None;
        }
        Some(Message::Close(Some(CloseReason::new(code, reason))))
    }
}

/// A connection that compresses its messages.
pub struct CompressedWebSocketStream<S> {
    stream: WebSocketStream<S>,
    context: DeflateContext,
    codec_closed: bool,
}

impl<S> CompressedWebSocketStream<S> {
    /// The connection.
    pub closed spec fn connection(&self) -> WebSocketStream<S> {
        self.stream
    }

    /// The compression of both directions.
    pub closed spec fn compression(&self) -> DeflateContext {
        self.context
    }

    /// Whether the frame codec has seen the connection close.
    pub closed spec fn codec_is_closed(&self) -> bool {
        self.codec_closed
    }

    /// Starts the server side of a connection.
    pub fn server(inner: S, config: Config, deflate_config: DeflateConfig) -> (r: Self)
        requires
            config.write_buffer_size <= isize::MAX,
            9 <= deflate_config.server_max_window_bits <= 15,
            8 <= deflate_config.client_max_window_bits <= 15,
            deflate_config.compression_level <= 9,
        ensures
            r.connection().wf(),
            r.connection()@ == new_connection(DEFAULT_HIGH_WATER_MARK, DEFAULT_LOW_WATER_MARK),
            r.connection().transport() == inner,
            r.connection().side() == Role::Server,
            r.connection().settings() == config,
            r.connection().unparsed() == Seq::<u8>::empty(),
            is_server_context(r.compression(), deflate_config),
            !r.codec_is_closed(),
    {
        CompressedWebSocketStream {
            stream: WebSocketStream::server(inner, config),
            context: DeflateContext::server(deflate_config),
            codec_closed: false,
        }
    }

    /// Starts the client side of a connection.
    pub fn client(inner: S, config: Config, deflate_config: DeflateConfig) -> (r: Self)
        requires
            config.write_buffer_size <= isize::MAX,
            8 <= deflate_config.server_max_window_bits <= 15,
            9 <= deflate_config.client_max_window_bits <= 15,
            deflate_config.compression_level <= 9,
        ensures
            r.connection().wf(),
            r.connection()@ == new_connection(DEFAULT_HIGH_WATER_MARK, DEFAULT_LOW_WATER_MARK),
            r.connection().transport() == inner,
            r.connection().side() == Role::Client,
            r.connection().settings() == config,
            r.connection().unparsed() == Seq::<u8>::empty(),
            is_client_context(r.compression(), deflate_config),
            !r.codec_is_closed(),
    {
        CompressedWebSocketStream {
            stream: WebSocketStream::client(inner, config),
            context: DeflateContext::client(deflate_config),
            codec_closed: false,
        }
    }

    /// Takes notice that the frame codec has seen the connection close.
    pub fn on_codec_closed(&mut self)
        ensures
            final(self).codec_is_closed(),
            final(self).connection() == old(self).connection(),
            final(self).compression() == old(self).compression(),
    {
        self.codec_closed = true;
    }

    /// Whether the connection is closed, for itself or for the frame codec.
    pub fn is_closed(&self) -> (r: bool)
        ensures
            r == (self.connection()@.state == StreamState::Closed || self.codec_is_closed()),
    {
        self.stream.is_closed() || self.codec_closed
    }

    /// Whether more is pending than the high water mark.
    pub fn is_backpressured(&self) -> (r: bool)
        requires
            self.connection().wf(),
        ensures
            r == (self.connection()@.pending.len() > self.connection()@.high),
            r == is_above(self.connection()@.pending.len(), self.connection()@.high),
    {
        self.stream.is_backpressured()
    }

    /// The number of bytes that are pending for the socket.
    pub fn write_buffer_len(&self) -> (r: usize)
        requires
            self.connection().wf(),
        ensures
            r == self.connection()@.pending.len(),
    {
        self.stream.write_buffer_len()
    }

    /// Lends the connection for use.
    pub fn connection_mut(&mut self) -> (r: &mut WebSocketStream<S>)
        ensures
            *r == old(self).connection(),
            final(self).connection() == *final(r),
            final(self).compression() == old(self).compression(),
            final(self).codec_is_closed() == old(self).codec_is_closed(),
    {
        &mut self.stream
    }

    /// Lends the compression of both directions for use.
    pub fn context_mut(&mut self) -> (r: &mut DeflateContext)
        ensures
            *r == old(self).compression(),
            final(self).compression() == *final(r),
            final(self).connection() == old(self).connection(),
            final(self).codec_is_closed() == old(self).codec_is_closed(),
    {
        &mut self.context
    }

    /// Takes the connection apart into its two layers.
    pub fn into_layers(self) -> (r: (WebSocketStream<S>, DeflateContext))
        ensures
            r == (self.connection(), self.compression()),
    {
        (self.stream, self.context)
    }
}

/// Builder for connections.
pub struct WebSocketStreamBuilder {
    config: Config,
    role: Role,
    high_water_mark: usize,
    low_water_mark: usize,
}

/// What a builder has been told.
pub struct BuilderView {
    pub config: Config,
    pub role: Role,
    pub high: usize,
    pub low: usize,
}

impl View for WebSocketStreamBuilder {
    type V = BuilderView;

    closed spec fn view(&self) -> BuilderView {
        BuilderView {
            config: self.config,
            role: self.role,
            high: self.high_water_mark,
            low: self.low_water_mark,
        }
    }
}

/// What a new builder starts from.
pub open spec fn default_builder() -> BuilderView {
    BuilderView {
        config: default_config(),
        role: Role::Server,
        high: DEFAULT_HIGH_WATER_MARK,
        low: DEFAULT_LOW_WATER_MARK,
    }
}

impl WebSocketStreamBuilder {
    /// Starts with the default configuration, as a server.
    pub fn new() -> (r: Self)
        ensures
            r@ == default_builder(),
    {
        WebSocketStreamBuilder {
            config: Config::default(),
            role: Role::Server,
            high_water_mark: DEFAULT_HIGH_WATER_MARK,
            low_water_mark: DEFAULT_LOW_WATER_MARK,
        }
    }

    /// Sets the role.
    pub fn role(self, role: Role) -> (r: Self)
        ensures
            r@ == (BuilderView { role, ..self@ }),
    {
        WebSocketStreamBuilder { role, ..self }
    }

    /// Sets the maximum message size.
    pub fn max_message_size(self, size: usize) -> (r: Self)
        ensures
            r@ == (BuilderView {
                config: Config { max_message_size: size, ..self@.config },
                ..self@
            }),
            r@ == (BuilderView {
                config: crate::with_setting(self@.config, crate::Setting::MaxMessage(size)),
                ..self@
            }),
    {
        WebSocketStreamBuilder { config: Config { max_message_size: size, ..self.config }, ..self }
    }

    /// Sets the maximum frame size.
    pub fn max_frame_size(self, size: usize) -> (r: Self)
        ensures
            r@ == (BuilderView {
                config: Config { max_frame_size: size, ..self@.config },
                ..self@
            }),
            r@ == (BuilderView {
                config: crate::with_setting(self@.config, crate::Setting::MaxFrame(size)),
                ..self@
            }),
    {
        WebSocketStreamBuilder { config: Config { max_frame_size: size, ..self.config }, ..self }
    }

    /// Sets the write buffer size.
    pub fn write_buffer_size(self, size: usize) -> (r: Self)
        ensures
            r@ == (BuilderView {
                config: Config { write_buffer_size: size, ..self@.config },
                ..self@
            }),
            r@ == (BuilderView {
                config: crate::with_setting(self@.config, crate::Setting::WriteBuffer(size)),
                ..self@
            }),
    {
        WebSocketStreamBuilder { config: Config { write_buffer_size: size, ..self.config }, ..self }
    }

    /// Sets the high water mark.
    pub fn high_water_mark(self, size: usize) -> (r: Self)
        ensures
            r@ == (BuilderView { high: size, ..self@ }),
    {
        WebSocketStreamBuilder { high_water_mark: size, ..self }
    }

    /// Sets the low water mark.
    pub fn low_water_mark(self, size: usize) -> (r: Self)
        ensures
            r@ == (BuilderView { low: size, ..self@ }),
    {
        WebSocketStreamBuilder { low_water_mark: size, ..self }
    }

    /// Starts a connection over an upgraded transport.
    pub fn build<S>(self, stream: S) -> (r: WebSocketStream<S>)
        requires
            self@.config.write_buffer_size <= isize::MAX,
        ensures
            r.wf(),
            r@ == new_connection(self@.high, self@.low),
            r.transport() == stream,
            r.side() == self@.role,
            r.settings() == self@.config,
            r.unparsed() == Seq::<u8>::empty(),
    {
        let mut ws = WebSocketStream::from_raw(stream, self.role, self.config);
        ws.high_water_mark = self.high_water_mark;
        ws.low_water_mark = self.low_water_mark;
        ws
    }
}

impl Default for WebSocketStreamBuilder {
    fn default() -> (r: Self)
        ensures
            r@ == default_builder(),
    {
        WebSocketStreamBuilder::new()
    }
}

/// A closed connection with nothing left to flush ends, and does so for good.
pub proof fn law_closed_is_final(c: ConnectionView, deadline_due: bool)
    requires
        c.state == StreamState::Closed,
        !c.flush_due,
    ensures
        next_read(c, deadline_due) == ReadTurn::End,
{
}

/// A failure is reported only after every message before it was handled.
pub proof fn law_messages_precede_failure(c: ConnectionView, deadline_due: bool)
    ensures
        next_read(c, deadline_due) == ReadTurn::Fail ==> c.queue.len() == 0 && c.failure is Some,
        next_read(c, deadline_due) == ReadTurn::Read ==> c.queue.len() == 0 && c.failure is None,
{
}

/// After a close was received and its answer flushed, the connection ends,
/// whatever else was received.
pub proof fn law_close_discards_what_follows(c: ConnectionView, deadline_due: bool)
    requires
        c.flush_due,
        c.close_after_flush,
    ensures
        next_read(
            ConnectionView {
                flush_due: false,
                ping_flush: false,
                close_after_flush: false,
                state: StreamState::Closed,
                control: None,
                terminal: None,
                ..c
            },
            deadline_due,
        ) == ReadTurn::End,
{
}

/// While an answer waits to be flushed, nothing else is done.
pub proof fn law_flush_comes_first(c: ConnectionView, deadline_due: bool)
    requires
        c.flush_due,
    ensures
        next_read(c, deadline_due) == ReadTurn::Flush,
{
}

} // verus!
