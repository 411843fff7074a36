//! The state machine of a WebSocket connection over completion-based input and
//! output.
//!
//! As in [`crate::stream`], the program around it owns the socket and the frame
//! codec. Here every answer is written and flushed at once, and there are no
//! heartbeat deadlines.

use crate::buffers;
use crate::buffers::{buffered, contents};
use crate::cork::{is_cork_step, CorkStep};
use crate::deflate::{is_client_context, is_server_context, DeflateConfig, DeflateContext};
use crate::error::{CloseReason, Error};
use crate::handshake;
use crate::handshake::{
    accept_key_of, parsed_request, parsed_response, request_parts_error, request_text,
    response_parts_error, response_text, HandshakeRequest, HandshakeResponse, HandshakeResult,
    ResponseView,
};
use crate::http_text::{opt_string_view, opt_view};
use crate::opening::{allowed, is_client_result, is_leftover};
use crate::protocol::{CloseView, Message, MessageView, Role};
use crate::stream::{
    default_builder, exceeds, is_failure_step, message_views, queue_result, state_with, BuilderView, FailureStep, StreamState,
    DEFAULT_HIGH_WATER_MARK, DEFAULT_LOW_WATER_MARK,
};
use crate::{Config, RECV_BUFFER_SIZE};
use bytes::{Bytes, BytesMut};
use std::collections::VecDeque;
use vstd::prelude::*;

verus! {

/// What a reader does next.
#[derive(Debug)]
pub enum CompioAction {
    /// Report the end of the stream.
    End,
    /// Answer the message as `on_message` says, and deliver it.
    Handle(Message),
    /// Report the error.
    Fail(Error),
    /// Parse what was read, and report with `on_parsed`.
    Parse,
    /// Read more, and report with `on_read`.
    Read,
}

/// What it is a reader's turn to do.
pub enum CompioTurn {
    End,
    Handle,
    Fail,
    Parse,
    Read,
}

/// How a message is answered before it is delivered.
#[derive(Debug)]
pub enum CompioAnswer {
    /// Not at all.
    Nothing,
    /// With a pong.
    Pong(Bytes),
    /// With a close.
    CloseResponse,
}

/// A connection, as mathematical values.
pub struct CompioView {
    /// Where the connection stands.
    pub state: StreamState,
    /// The messages that were received and not yet handled, oldest first.
    pub queue: Seq<MessageView>,
    /// The error that follows those messages.
    pub failure: Option<Error>,
    /// What was read and not yet parsed.
    pub unparsed: Seq<u8>,
    /// Whether bytes were read since the last parse.
    pub fresh: bool,
    /// What is pending for the socket.
    pub pending: Seq<u8>,
    /// The high water mark.
    pub high: usize,
    /// The low water mark.
    pub low: usize,
}

/// A new connection with the given water marks, after a handshake that read some
/// bytes of what follows it.
pub open spec fn fresh_connection(leftover: Seq<u8>, high: usize, low: usize) -> CompioView {
    CompioView {
        state: StreamState::Open,
        queue: Seq::empty(),
        failure: None,
        unparsed: leftover,
        fresh: leftover.len() > 0,
        pending: Seq::empty(),
        high,
        low,
    }
}

/// What a reader does next, in this order: end, handle a message, report a
/// failure, parse, read.
pub open spec fn compio_turn(c: CompioView) -> CompioTurn {
    if c.state == StreamState::Closed {
        CompioTurn::End
    } else if c.queue.len() > 0 {
        CompioTurn::Handle
    } else if c.failure is Some {
        CompioTurn::Fail
    } else if c.fresh {
        CompioTurn::Parse
    } else {
        CompioTurn::Read
    }
}

/// What a step does to the messages that wait.
pub enum QueueStep {
    /// Messages were received.
    Received(Seq<MessageView>),
    /// The oldest one was taken out.
    Taken(MessageView),
    /// Nothing.
    Other,
}

/// Whether a step takes the messages that wait from `before` to `after`.
pub open spec fn is_queue_step(
    before: Seq<MessageView>,
    step: QueueStep,
    after: Seq<MessageView>,
) -> bool {
    match step {
        QueueStep::Received(messages) => after == before + messages,
        QueueStep::Taken(message) => before == seq![message] + after,
        QueueStep::Other => after == before,
    }
}

/// What a step does to the life of a connection.
pub enum CompioStep {
    /// A message is to be sent; `close` tells whether it is a close message.
    Sending { close: bool },
    /// The connection has ended.
    Ended,
    /// Nothing.
    Other,
}

/// Whether a step takes a connection from `before` to `after`.
pub open spec fn is_compio_step(before: StreamState, step: CompioStep, after: StreamState) -> bool {
    match step {
        CompioStep::Sending { close } => after == (if close && before != StreamState::Closed {
            StreamState::CloseSent
        } else {
            before
        }),
        CompioStep::Ended => after == StreamState::Closed,
        CompioStep::Other => after == before,
    }
}

/// Whether `r` is how a message is answered.
pub open spec fn is_compio_answer(
    state: StreamState,
    message: MessageView,
    r: CompioAnswer,
) -> bool {
    match r {
        CompioAnswer::Pong(data) => message == MessageView::Ping(contents(data)),
        CompioAnswer::CloseResponse => message is Close && state == StreamState::Open,
        CompioAnswer::Nothing => !(message is Ping) && (message is Close ==> state
            != StreamState::Open),
    }
}

/// Whether messages may be sent.
pub open spec fn compio_sending(closed: bool) -> Result<(), Error> {
    if closed {
        Err(Error::ConnectionClosed)
    } else {
        Ok(())
    }
}

/// What a step does to whether bytes wait to be parsed.
pub enum FreshStep {
    /// Bytes were read.
    Read,
    /// They were parsed.
    Parsed,
    /// Nothing.
    Other,
}

/// Whether a step takes it from `before` to `after`.
pub open spec fn is_fresh_step(before: bool, step: FreshStep, after: bool) -> bool {
    after == (match step {
        FreshStep::Read => true,
        FreshStep::Parsed => false,
        FreshStep::Other => before,
    })
}

/// Whether only the water marks were changed, to these.
pub open spec fn are_compio_marks_set(
    before: CompioView,
    high: usize,
    low: usize,
    after: CompioView,
) -> bool {
    after == (CompioView { high, low, ..before })
}

/// Whether a writing half is closed after it has sent something, where `close` tells whether
/// that was a close.
pub open spec fn closed_by(closed: bool, close: bool) -> bool {
    closed || close
}

/// Whether a connection was split into its halves.
pub open spec fn is_compio_split(
    c: CompioView,
    config: Config,
    reader: CompioReaderView,
    writer: CompioWriterView,
) -> bool {
    &&& reader.queue == c.queue
    &&& reader.failure == c.failure
    &&& reader.unparsed == c.unparsed
    &&& reader.fresh == c.fresh
    &&& reader.closed == (c.state == StreamState::Closed)
    &&& writer.closed == reader.closed
    &&& writer.pending.len() == 0
    &&& writer.config == config
}

/// Whether a reading half that was `v` asks for the answers `requests`, does `r`, and is
/// `after` then.
pub open spec fn is_reader_turn(
    v: CompioReaderView,
    requests: Seq<RequestView>,
    r: CompioAction,
    after: CompioReaderView,
) -> bool {
    let queue = behind_heartbeats(v.queue);
    let answers = heartbeat_answers(v.queue);
    match r {
        CompioAction::End => v.closed && requests.len() == 0 && after == v,
        CompioAction::Handle(m) => {
            &&& !v.closed
            &&& queue == seq![m@] + after.queue
            &&& requests == (if m@ is Close {
                answers.push(RequestView::CloseResponse)
            } else {
                answers
            })
            &&& after.closed == (m@ is Close)
            &&& after.failure == v.failure
            &&& after.unparsed == v.unparsed
            &&& after.fresh == v.fresh
        },
        CompioAction::Fail(e) => {
            &&& !v.closed
            &&& queue.len() == 0
            &&& after.queue.len() == 0
            &&& requests == answers
            &&& v.failure == Some(e)
            &&& after.closed
            &&& after.failure is None
        },
        CompioAction::Parse | CompioAction::Read => {
            &&& !v.closed
            &&& queue.len() == 0
            &&& after.queue.len() == 0
            &&& requests == answers
            &&& v.failure is None
            &&& after.failure is None
            &&& !after.closed
            &&& v.fresh <==> r is Parse
            &&& after.unparsed == v.unparsed
            &&& after.fresh == v.fresh
        },
    }
}

/// The bytes that a handshake left behind.
pub open spec fn leftover_bytes(leftover: Option<Bytes>) -> Seq<u8> {
    match leftover {
        Some(b) => contents(b),
        None => Seq::empty(),
    }
}

/// A WebSocket connection over a completion-based transport `S`.
pub struct CompioWebSocketStream<S> {
    inner: S,
    role: Role,
    config: Config,
    read_buf: BytesMut,
    fresh: bool,
    write_buf: BytesMut,
    state: StreamState,
    pending_messages: VecDeque<Message>,
    failure: Option<Error>,
    high_water_mark: usize,
    low_water_mark: usize,
}

impl<S> View for CompioWebSocketStream<S> {
    type V = CompioView;

    closed spec fn view(&self) -> CompioView {
        CompioView {
            state: self.state,
            queue: message_views(self.pending_messages@),
            failure: self.failure,
            unparsed: buffered(self.read_buf),
            fresh: self.fresh,
            pending: buffered(self.write_buf),
            high: self.high_water_mark,
            low: self.low_water_mark,
        }
    }
}

impl<S> CompioWebSocketStream<S> {
    /// The transport.
    pub closed spec fn transport(&self) -> S {
        self.inner
    }

    /// The role of this side.
    pub closed spec fn side(&self) -> Role {
        self.role
    }

    /// The configuration.
    pub closed spec fn settings(&self) -> Config {
        self.config
    }

    /// The transport, the role and the configuration are as before.
    pub open spec fn keeps_setup(&self, before: &Self) -> bool {
        &&& self.transport() == before.transport()
        &&& self.side() == before.side()
        &&& self.settings() == before.settings()
    }

    /// Starts a connection over an upgraded transport.
    pub fn from_raw(inner: S, role: Role, config: Config) -> (r: Self)
        requires
            config.write_buffer_size <= isize::MAX,
        ensures
            r@ == fresh_connection(Seq::empty(), DEFAULT_HIGH_WATER_MARK, DEFAULT_LOW_WATER_MARK),
            r.transport() == inner,
            r.side() == role,
            r.settings() == config,
    {
        CompioWebSocketStream::from_raw_with_leftover(inner, role, config, None)
    }

    /// Starts a connection with bytes that were read behind the handshake.
    pub fn from_raw_with_leftover(
        inner: S,
        role: Role,
        config: Config,
        leftover: Option<Bytes>,
    ) -> (r: Self)
        requires
            config.write_buffer_size <= isize::MAX,
            leftover_bytes(leftover).len() <= isize::MAX,
        ensures
            r@ == fresh_connection(
                leftover_bytes(leftover),
                DEFAULT_HIGH_WATER_MARK,
                DEFAULT_LOW_WATER_MARK,
            ),
            r.transport() == inner,
            r.side() == role,
            r.settings() == config,
    {
        let mut read_buf = BytesMut::with_capacity(RECV_BUFFER_SIZE);
        match &leftover {
            Some(b) => {
                read_buf.extend_from_slice(buffers::bytes_as_slice(b));
            },
            None => {},
        }
        assert(buffered(read_buf) =~= leftover_bytes(leftover));
        let fresh = !read_buf.is_empty();
        let r = CompioWebSocketStream {
            inner,
            role,
            config,
            read_buf,
            fresh,
            write_buf: BytesMut::with_capacity(config.write_buffer_size),
            state: StreamState::Open,
            pending_messages: VecDeque::new(),
            failure: None,
            high_water_mark: DEFAULT_HIGH_WATER_MARK,
            low_water_mark: DEFAULT_LOW_WATER_MARK,
        };
        assert(message_views(r.pending_messages@) =~= Seq::empty());
        r
    }

    /// Starts the server side of a connection.
    pub fn server(inner: S, config: Config) -> (r: Self)
        requires
            config.write_buffer_size <= isize::MAX,
        ensures
            r@ == fresh_connection(Seq::empty(), DEFAULT_HIGH_WATER_MARK, DEFAULT_LOW_WATER_MARK),
            r.transport() == inner,
            r.side() == Role::Server,
            r.settings() == config,
    {
        CompioWebSocketStream::from_raw(inner, Role::Server, config)
    }

    /// Starts the server side of a connection with bytes that were read behind
    /// the handshake.
    pub fn server_with_leftover(inner: S, config: Config, leftover: Option<Bytes>) -> (r: Self)
        requires
            config.write_buffer_size <= isize::MAX,
            leftover_bytes(leftover).len() <= isize::MAX,
        ensures
            r@ == fresh_connection(
                leftover_bytes(leftover),
                DEFAULT_HIGH_WATER_MARK,
                DEFAULT_LOW_WATER_MARK,
            ),
            r.transport() == inner,
            r.side() == Role::Server,
            r.settings() == config,
    {
        CompioWebSocketStream::from_raw_with_leftover(inner, Role::Server, config, leftover)
    }

    /// Starts the client side of a connection.
    pub fn client(inner: S, config: Config) -> (r: Self)
        requires
            config.write_buffer_size <= isize::MAX,
        ensures
            r@ == fresh_connection(Seq::empty(), DEFAULT_HIGH_WATER_MARK, DEFAULT_LOW_WATER_MARK),
            r.transport() == inner,
            r.side() == Role::Client,
            r.settings() == config,
    {
        CompioWebSocketStream::from_raw(inner, Role::Client, config)
    }

    /// Starts the client side of a connection with bytes that were read behind
    /// the handshake.
    pub fn client_with_leftover(inner: S, config: Config, leftover: Option<Bytes>) -> (r: Self)
        requires
            config.write_buffer_size <= isize::MAX,
            leftover_bytes(leftover).len() <= isize::MAX,
        ensures
            r@ == fresh_connection(
                leftover_bytes(leftover),
                DEFAULT_HIGH_WATER_MARK,
                DEFAULT_LOW_WATER_MARK,
            ),
            r.transport() == inner,
            r.side() == Role::Client,
            r.settings() == config,
    {
        CompioWebSocketStream::from_raw_with_leftover(inner, Role::Client, config, leftover)
    }

    /// Lends the transport.
    pub fn get_ref(&self) -> (r: &S)
        ensures
            *r == self.transport(),
    {
        &self.inner
    }

    /// Lends the transport for use.
    pub fn get_mut(&mut self) -> (r: &mut S)
        ensures
            *r == old(self).transport(),
            final(self).transport() == *final(r),
            final(self).side() == old(self).side(),
            final(self).settings() == old(self).settings(),
            final(self)@ == old(self)@,
    {
        &mut self.inner
    }

    /// Gives the transport back.
    pub fn into_inner(self) -> (r: S)
        ensures
            r == self.transport(),
    {
        self.inner
    }

    /// The role of this side.
    pub fn role(&self) -> (r: Role)
        ensures
            r == self.side(),
    {
        self.role
    }

    /// The configuration.
    pub fn config(&self) -> (r: Config)
        ensures
            r == self.settings(),
    {
        self.config
    }

    /// Whether the connection is closed.
    pub fn is_closed(&self) -> (r: bool)
        ensures
            r == (self@.state == StreamState::Closed),
    {
        self.state == StreamState::Closed
    }

    /// Whether more is pending than the high water mark.
    pub fn is_backpressured(&self) -> (r: bool)
        ensures
            r == (self@.pending.len() > self@.high),
            r == crate::stream::is_above(self@.pending.len(), self@.high),
    {
        self.write_buf.len() > self.high_water_mark
    }

    /// Whether no more is pending than the low water mark.
    pub fn is_write_buffer_low(&self) -> (r: bool)
        ensures
            r == (self@.pending.len() <= self@.low),
            r == crate::stream::is_low(self@.pending.len(), self@.low),
    {
        self.write_buf.len() <= self.low_water_mark
    }

    /// The number of bytes that are pending for the socket.
    pub fn write_buffer_len(&self) -> (r: usize)
        ensures
            r == self@.pending.len(),
    {
        self.write_buf.len()
    }

    /// The number of bytes that were read and not yet parsed.
    pub fn read_buffer_len(&self) -> (r: usize)
        ensures
            r == self@.unparsed.len(),
    {
        self.read_buf.len()
    }

    /// Sets the high water mark.
    pub fn set_high_water_mark(&mut self, size: usize)
        ensures
            final(self).keeps_setup(old(self)),
            final(self)@ == (CompioView { high: size, ..old(self)@ }),
            are_compio_marks_set(old(self)@, size, old(self)@.low, final(self)@),
    {
        self.high_water_mark = size;
    }

    /// Sets the low water mark.
    pub fn set_low_water_mark(&mut self, size: usize)
        ensures
            final(self).keeps_setup(old(self)),
            final(self)@ == (CompioView { low: size, ..old(self)@ }),
            are_compio_marks_set(old(self)@, old(self)@.high, size, final(self)@),
    {
        self.low_water_mark = size;
    }

    /// The high water mark.
    pub fn high_water_mark(&self) -> (r: usize)
        ensures
            r == self@.high,
    {
        self.high_water_mark
    }

    /// The low water mark.
    pub fn low_water_mark(&self) -> (r: usize)
        ensures
            r == self@.low,
    {
        self.low_water_mark
    }

    /// Decides what a reader does next. A failure closes the connection.
    pub fn next_action(&mut self) -> (r: CompioAction)
        ensures
            final(self).keeps_setup(old(self)),
            match compio_turn(old(self)@) {
                CompioTurn::End => r is End && final(self)@ == old(self)@,
                CompioTurn::Handle => r matches CompioAction::Handle(m) && m@ == old(self)@.queue[0]
                    && final(self)@ == (CompioView {
                    queue: old(self)@.queue.skip(1),
                    ..old(self)@
                }),
                CompioTurn::Fail => r == CompioAction::Fail(old(self)@.failure->0) && final(self)@
                    == (CompioView { failure: None, state: StreamState::Closed, ..old(self)@ }),
                CompioTurn::Parse => r is Parse && final(self)@ == old(self)@,
                CompioTurn::Read => r is Read && final(self)@ == old(self)@,
            },
            is_queue_step(
                old(self)@.queue,
                match r {
                    CompioAction::Handle(m) => QueueStep::Taken(m@),
                    _ => QueueStep::Other,
                },
                final(self)@.queue,
            ),
            is_compio_step(
                old(self)@.state,
                if r is Fail {
                    CompioStep::Ended
                } else {
                    CompioStep::Other
                },
                final(self)@.state,
            ),
            is_failure_step(
                old(self)@.failure,
                match r {
                    CompioAction::Fail(e) => FailureStep::Reported(e),
                    _ => FailureStep::Other,
                },
                final(self)@.failure,
            ),
            is_fresh_step(old(self)@.fresh, FreshStep::Other, final(self)@.fresh),
    {
        if self.state == StreamState::Closed {
            return CompioAction::End;
        }
        let ghost before = self.pending_messages@;
        match self.pending_messages.pop_front() {
            Some(m) => {
                proof {
                    assert(message_views(before)[0] == before[0]@);
                    assert(message_views(self.pending_messages@) =~= message_views(before).skip(1));
                    assert(message_views(before) =~= seq![m@] + message_views(
                        self.pending_messages@,
                    ));
                }
                return CompioAction::Handle(m);
            },
            None => {},
        }
        match self.failure.take() {
            Some(e) => {
                self.state = StreamState::Closed;
                CompioAction::Fail(e)
            },
            None => {
                if self.fresh {
                    CompioAction::Parse
                } else {
                    CompioAction::Read
                }
            },
        }
    }

    /// Decides how a message is answered. A close ends the connection.
    pub fn on_message(&mut self, message: &Message) -> (r: CompioAnswer)
        ensures
            final(self).keeps_setup(old(self)),
            match message@ {
                MessageView::Ping(data) => r matches CompioAnswer::Pong(b) && contents(b) == data
                    && final(self)@ == old(self)@,
                MessageView::Close(_) => {
                    &&& if old(self)@.state == StreamState::Open {
                        r is CloseResponse
                    } else {
                        r is Nothing
                    }
                    &&& final(self)@ == (CompioView { state: StreamState::Closed, ..old(self)@ })
                },
                _ => r is Nothing && final(self)@ == old(self)@,
            },
            is_compio_answer(old(self)@.state, message@, r),
            is_compio_step(
                old(self)@.state,
                if message@ is Close {
                    CompioStep::Ended
                } else {
                    CompioStep::Other
                },
                final(self)@.state,
            ),
    {
        match message {
            Message::Ping(data) => CompioAnswer::Pong(buffers::bytes_clone(data)),
            Message::Close(_) => {
                let answer = self.state == StreamState::Open;
                self.state = StreamState::Closed;
                if answer {
                    CompioAnswer::CloseResponse
                } else {
                    CompioAnswer::Nothing
                }
            },
            _ => CompioAnswer::Nothing,
        }
    }

    /// Reports that the connection is over: the peer ended it, or an answer could
    /// not be written.
    pub fn on_closed(&mut self)
        ensures
            final(self).keeps_setup(old(self)),
            final(self)@ == (CompioView { state: StreamState::Closed, ..old(self)@ }),
            is_compio_step(old(self)@.state, CompioStep::Ended, final(self)@.state),
    {
        self.state = StreamState::Closed;
    }

    /// Lends the buffer that is read into and parsed from.
    pub fn read_buf_mut(&mut self) -> (r: &mut BytesMut)
        ensures
            buffered(*r) == old(self)@.unparsed,
            final(self)@ == (CompioView { unparsed: buffered(*final(r)), ..old(self)@ }),
            final(self).keeps_setup(old(self)),
    {
        &mut self.read_buf
    }

    /// Reports that bytes were read.
    pub fn on_read(&mut self)
        ensures
            final(self).keeps_setup(old(self)),
            final(self)@ == (CompioView { fresh: true, ..old(self)@ }),
            is_fresh_step(old(self)@.fresh, FreshStep::Read, final(self)@.fresh),
    {
        self.fresh = true;
    }

    /// Reports what the bytes read so far were parsed to: messages, and possibly
    /// an error behind them.
    pub fn on_parsed(&mut self, messages: VecDeque<Message>, failure: Option<Error>)
        requires
            old(self)@.failure is None,
        ensures
            final(self).keeps_setup(old(self)),
            final(self)@ == (CompioView {
                queue: old(self)@.queue + message_views(messages@),
                failure,
                fresh: false,
                ..old(self)@
            }),
            is_queue_step(
                old(self)@.queue,
                QueueStep::Received(message_views(messages@)),
                final(self)@.queue,
            ),
            is_failure_step(old(self)@.failure, FailureStep::Parsed(failure), final(self)@.failure),
            is_fresh_step(old(self)@.fresh, FreshStep::Parsed, final(self)@.fresh),
    {
        let mut messages = messages;
        let ghost before = self.pending_messages@;
        let ghost more = messages@;
        self.pending_messages.append(&mut messages);
        self.failure = failure;
        self.fresh = false;
        assert(message_views(self.pending_messages@) =~= message_views(before) + message_views(more));
    }

    /// Starts to send a message. A closed connection refuses it.
    pub fn start_send(&mut self, message: &Message) -> (r: Result<(), Error>)
        ensures
            final(self).keeps_setup(old(self)),
            r == (if old(self)@.state == StreamState::Closed {
                Err(Error::ConnectionClosed)
            } else {
                Ok(())
            }),
            final(self)@ == (CompioView {
                state: if old(self)@.state != StreamState::Closed && message@ is Close {
                    StreamState::CloseSent
                } else {
                    old(self)@.state
                },
                ..old(self)@
            }),
            r == compio_sending(old(self)@.state == StreamState::Closed),
            is_compio_step(
                old(self)@.state,
                CompioStep::Sending { close: message@ is Close },
                final(self)@.state,
            ),
    {
        if self.state == StreamState::Closed {
            return Err(Error::ConnectionClosed);
        }
        if message.is_close() {
            self.state = StreamState::CloseSent;
        }
        Ok(())
    }

    /// The close to send, unless one was sent or the connection is closed.
    pub fn close_message(&self, code: u16, reason: &str) -> (r: Option<Message>)
        ensures
            if self@.state == StreamState::Open {
                r matches Some(m) && m@ == MessageView::Close(
                    Some(CloseView { code, reason: reason@ }),
                )
            } else {
                r is None
            },
            crate::stream::is_close_message(
                self@.state,
                code,
                reason@,
                crate::stream::opt_message(r),
            ),
    {
        if self.state != StreamState::Open {
            return None;
        }
        Some(Message::Close(Some(CloseReason::new(code, reason))))
    }

    /// Queues bytes that a frame was encoded to. A connection with more pending
    /// than the configuration allows is closed.
    pub fn queue_bytes(&mut self, data: &[u8]) -> (r: Result<(), Error>)
        requires
            old(self)@.pending.len() + data@.len() <= isize::MAX,
        ensures
            final(self).keeps_setup(old(self)),
            final(self)@ == (CompioView {
                pending: old(self)@.pending + data@,
                state: state_with(
                    old(self)@.state,
                    old(self)@.pending + data@,
                    old(self).settings(),
                ),
                ..old(self)@
            }),
            r == queue_result(old(self)@.pending + data@, old(self).settings()),
            is_compio_step(
                old(self)@.state,
                if r is Err {
                    CompioStep::Ended
                } else {
                    CompioStep::Other
                },
                final(self)@.state,
            ),
            is_cork_step(old(self)@.pending, CorkStep::Wrote(data@), final(self)@.pending),
    {
        self.write_buf.extend_from_slice(data);
        if self.write_buf.len() > self.config.max_backpressure {
            self.state = StreamState::Closed;
            return Err(Error::ConnectionClosed);
        }
        Ok(())
    }

    /// Lends what is pending for the socket.
    pub fn pending_bytes(&self) -> (r: &[u8])
        ensures
            r@ == self@.pending,
    {
        buffers::buffer_as_slice(&self.write_buf)
    }

    /// Reports that everything pending was written.
    pub fn on_flushed(&mut self)
        ensures
            final(self).keeps_setup(old(self)),
            final(self)@ == (CompioView { pending: Seq::empty(), ..old(self)@ }),
            is_cork_step(
                old(self)@.pending,
                CorkStep::Consumed(old(self)@.pending),
                final(self)@.pending,
            ),
            is_compio_step(old(self)@.state, CompioStep::Other, final(self)@.state),
    {
        self.write_buf.clear();
    }

    /// Splits the connection: its transport, and its two halves. What is pending
    /// for the socket is dropped.
    pub fn split(self) -> (r: (S, CompioSplitReader, CompioSplitWriter))
        requires
            self.settings().write_buffer_size <= isize::MAX,
        ensures
            r.0 == self.transport(),
            r.1@ == (CompioReaderView {
                closed: self@.state == StreamState::Closed,
                queue: self@.queue,
                failure: self@.failure,
                unparsed: self@.unparsed,
                fresh: self@.fresh,
            }),
            r.2@ == (CompioWriterView {
                closed: self@.state == StreamState::Closed,
                pending: Seq::empty(),
                config: self.settings(),
            }),
            is_compio_split(self@, self.settings(), r.1@, r.2@),
    {
        let closed = self.state == StreamState::Closed;
        let reader = CompioSplitReader {
            read_buf: self.read_buf,
            fresh: self.fresh,
            pending_messages: self.pending_messages,
            failure: self.failure,
            closed,
        };
        let writer = CompioSplitWriter {
            write_buf: BytesMut::with_capacity(self.config.write_buffer_size),
            closed,
            config: self.config,
        };
        (self.inner, reader, writer)
    }
}

/// Builder for connections over completion-based transports.
pub struct CompioWebSocketStreamBuilder {
    config: Config,
    role: Role,
    high_water_mark: usize,
    low_water_mark: usize,
}

impl View for CompioWebSocketStreamBuilder {
    type V = BuilderView;

    closed spec fn view(&self) -> BuilderView {
        BuilderView {
            config: self.config,
            role: self.role,
            high: self.high_water_mark,
            low: self.low_water_mark,
        }
    }
}

impl CompioWebSocketStreamBuilder {
    /// Starts with the default configuration, as a server.
    pub fn new() -> (r: Self)
        ensures
            r@ == default_builder(),
    {
        CompioWebSocketStreamBuilder {
            config: Config::default(),
            role: Role::Server,
            high_water_mark: DEFAULT_HIGH_WATER_MARK,
            low_water_mark: DEFAULT_LOW_WATER_MARK,
        }
    }

    /// Sets the role.
    pub fn role(self, role: Role) -> (r: Self)
        ensures
            r@ == (BuilderView { role, ..self@ }),
    {
        CompioWebSocketStreamBuilder { role, ..self }
    }

    /// Sets the maximum message size.
    pub fn max_message_size(self, size: usize) -> (r: Self)
        ensures
            r@ == (BuilderView {
                config: Config { max_message_size: size, ..self@.config },
                ..self@
            }),
            r@ == (BuilderView {
                config: crate::with_setting(self@.config, crate::Setting::MaxMessage(size)),
                ..self@
            }),
    {
        let config = Config { max_message_size: size, ..self.config };
        CompioWebSocketStreamBuilder { config, ..self }
    }

    /// Sets the maximum frame size.
    pub fn max_frame_size(self, size: usize) -> (r: Self)
        ensures
            r@ == (BuilderView {
                config: Config { max_frame_size: size, ..self@.config },
                ..self@
            }),
            r@ == (BuilderView {
                config: crate::with_setting(self@.config, crate::Setting::MaxFrame(size)),
                ..self@
            }),
    {
        let config = Config { max_frame_size: size, ..self.config };
        CompioWebSocketStreamBuilder { config, ..self }
    }

    /// Sets the write buffer size.
    pub fn write_buffer_size(self, size: usize) -> (r: Self)
        ensures
            r@ == (BuilderView {
                config: Config { write_buffer_size: size, ..self@.config },
                ..self@
            }),
            r@ == (BuilderView {
                config: crate::with_setting(self@.config, crate::Setting::WriteBuffer(size)),
                ..self@
            }),
    {
        let config = Config { write_buffer_size: size, ..self.config };
        CompioWebSocketStreamBuilder { config, ..self }
    }

    /// Sets the high water mark.
    pub fn high_water_mark(self, size: usize) -> (r: Self)
        ensures
            r@ == (BuilderView { high: size, ..self@ }),
    {
        CompioWebSocketStreamBuilder { high_water_mark: size, ..self }
    }

    /// Sets the low water mark.
    pub fn low_water_mark(self, size: usize) -> (r: Self)
        ensures
            r@ == (BuilderView { low: size, ..self@ }),
    {
        CompioWebSocketStreamBuilder { low_water_mark: size, ..self }
    }

    /// Starts a connection over an upgraded transport.
    pub fn build<S>(self, stream: S) -> (r: CompioWebSocketStream<S>)
        requires
            self@.config.write_buffer_size <= isize::MAX,
        ensures
            r@ == fresh_connection(Seq::empty(), self@.high, self@.low),
            r.transport() == stream,
            r.side() == self@.role,
            r.settings() == self@.config,
    {
        let mut ws = CompioWebSocketStream::from_raw(stream, self.role, self.config);
        ws.high_water_mark = self.high_water_mark;
        ws.low_water_mark = self.low_water_mark;
        ws
    }
}

impl Default for CompioWebSocketStreamBuilder {
    fn default() -> (r: Self)
        ensures
            r@ == default_builder(),
    {
        CompioWebSocketStreamBuilder::new()
    }
}

/// What the reading half asks of the writing half.
#[derive(Debug)]
pub enum CompioRequest {
    /// To answer a ping.
    Pong(Bytes),
    /// To answer a close.
    CloseResponse,
}

/// A request, as mathematical values.
pub enum RequestView {
    Pong(Seq<u8>),
    CloseResponse,
}

impl View for CompioRequest {
    type V = RequestView;

    open spec fn view(&self) -> RequestView {
        match self {
            CompioRequest::Pong(b) => RequestView::Pong(contents(*b)),
            CompioRequest::CloseResponse => RequestView::CloseResponse,
        }
    }
}

/// The views of a list of requests.
pub open spec fn request_views(q: Seq<CompioRequest>) -> Seq<RequestView> {
    q.map_values(|m: CompioRequest| m@)
}

/// The reading half of a split connection.
pub struct CompioSplitReader {
    read_buf: BytesMut,
    fresh: bool,
    pending_messages: VecDeque<Message>,
    failure: Option<Error>,
    closed: bool,
}

/// The reading half, as mathematical values.
pub struct CompioReaderView {
    /// Whether the connection is closed for reading.
    pub closed: bool,
    /// The messages that were received and not yet handled, oldest first.
    pub queue: Seq<MessageView>,
    /// The error that follows those messages.
    pub failure: Option<Error>,
    /// What was read and not yet parsed.
    pub unparsed: Seq<u8>,
    /// Whether bytes were read since the last parse.
    pub fresh: bool,
}

impl View for CompioSplitReader {
    type V = CompioReaderView;

    closed spec fn view(&self) -> CompioReaderView {
        CompioReaderView {
            closed: self.closed,
            queue: message_views(self.pending_messages@),
            failure: self.failure,
            unparsed: buffered(self.read_buf),
            fresh: self.fresh,
        }
    }
}

/// Whether a message is a ping or a pong.
pub open spec fn is_heartbeat(m: MessageView) -> bool {
    m is Ping || m is Pong
}

/// The messages behind the leading pings and pongs.
pub open spec fn behind_heartbeats(queue: Seq<MessageView>) -> Seq<MessageView>
    decreases queue.len(),
{
    if queue.len() > 0 && is_heartbeat(queue[0]) {
        behind_heartbeats(queue.skip(1))
    } else {
        queue
    }
}

/// The answers to the leading pings.
pub open spec fn heartbeat_answers(queue: Seq<MessageView>) -> Seq<RequestView>
    decreases queue.len(),
{
    if queue.len() > 0 && is_heartbeat(queue[0]) {
        let rest = heartbeat_answers(queue.skip(1));
        match queue[0] {
            MessageView::Ping(data) => seq![RequestView::Pong(data)] + rest,
            _ => rest,
        }
    } else {
        Seq::empty()
    }
}

impl CompioSplitReader {
    /// Whether the connection is closed for reading.
    pub fn is_closed(&self) -> (r: bool)
        ensures
            r == self@.closed,
    {
        self.closed
    }

    /// Decides what the reader does next, and what it first asks of the writing
    /// half. Pings and pongs are not delivered; a close is answered, delivered,
    /// and ends the reading.
    pub fn next_action(&mut self) -> (r: (Vec<CompioRequest>, CompioAction))
        ensures
            ({
                let v = old(self)@;
                let queue = behind_heartbeats(v.queue);
                let answers = heartbeat_answers(v.queue);
                if v.closed {
                    &&& r.0@.len() == 0
                    &&& r.1 is End
                    &&& final(self)@ == v
                } else if queue.len() > 0 {
                    &&& r.1 matches CompioAction::Handle(m) && m@ == queue[0]
                    &&& if queue[0] is Close {
                        &&& request_views(r.0@) == answers.push(RequestView::CloseResponse)
                        &&& final(self)@ == (CompioReaderView {
                            closed: true,
                            queue: queue.skip(1),
                            ..v
                        })
                    } else {
                        &&& request_views(r.0@) == answers
                        &&& final(self)@ == (CompioReaderView { queue: queue.skip(1), ..v })
                    }
                } else {
                    &&& request_views(r.0@) == answers
                    &&& match v.failure {
                        Some(e) => r.1 == CompioAction::Fail(e) && final(self)@ == (
                        CompioReaderView { closed: true, queue, failure: None, ..v }),
                        None => final(self)@ == (CompioReaderView { queue, ..v }) && if v.fresh {
                            r.1 is Parse
                        } else {
                            r.1 is Read
                        },
                    }
                }
            }),
            is_reader_turn(old(self)@, request_views(r.0@), r.1, final(self)@),
            is_failure_step(
                old(self)@.failure,
                match r.1 {
                    CompioAction::Fail(e) => FailureStep::Reported(e),
                    _ => FailureStep::Other,
                },
                final(self)@.failure,
            ),
            is_fresh_step(old(self)@.fresh, FreshStep::Other, final(self)@.fresh),
    {
        let mut requests: Vec<CompioRequest> = Vec::new();
        if self.closed {
            return (requests, CompioAction::End);
        }
        let ghost v = self@;
        assert(request_views(requests@) =~= Seq::empty());
        assert(Seq::<RequestView>::empty() + heartbeat_answers(v.queue) =~= heartbeat_answers(
            v.queue,
        ));
        loop
            invariant
                v == old(self)@,
                !v.closed,
                self@ == (CompioReaderView { queue: self@.queue, ..v }),
                behind_heartbeats(self@.queue) == behind_heartbeats(v.queue),
                request_views(requests@) + heartbeat_answers(self@.queue) == heartbeat_answers(
                    v.queue,
                ),
            decreases self@.queue.len(),
        {
            let ghost before = self.pending_messages@;
            let ghost asked = requests@;
            match self.pending_messages.pop_front() {
                Some(m) => {
                    proof {
                        assert(message_views(before)[0] == before[0]@);
                        assert(message_views(self.pending_messages@) =~= message_views(before).skip(
                            1,
                        ));
                        assert(message_views(before) =~= seq![m@] + message_views(
                            self.pending_messages@,
                        ));
                    }
                    match &m {
                        Message::Ping(data) => {
                            requests.push(CompioRequest::Pong(buffers::bytes_clone(data)));
                            proof {
                                assert(request_views(requests@) =~= request_views(asked).push(
                                    RequestView::Pong(contents(*data)),
                                ));
                                assert(request_views(requests@) + heartbeat_answers(self@.queue)
                                    =~= request_views(asked) + heartbeat_answers(
                                    message_views(before),
                                ));
                            }
                        },
                        Message::Pong(_) => {},
                        Message::Close(_) => {
                            self.closed = true;
                            requests.push(CompioRequest::CloseResponse);
                            proof {
                                assert(request_views(asked) =~= heartbeat_answers(v.queue));
                                assert(request_views(requests@) =~= request_views(asked).push(
                                    RequestView::CloseResponse,
                                ));
                            }
                            return (requests, CompioAction::Handle(m));
                        },
                        _ => {
                            assert(request_views(asked) =~= heartbeat_answers(v.queue));
                            return (requests, CompioAction::Handle(m));
                        },
                    }
                },
                None => {
                    assert(message_views(before) =~= Seq::empty());
                    assert(request_views(asked) =~= heartbeat_answers(v.queue));
                    return match self.failure.take() {
                        Some(e) => {
                            self.closed = true;
                            (requests, CompioAction::Fail(e))
                        },
                        None => if self.fresh {
                            (requests, CompioAction::Parse)
                        } else {
                            (requests, CompioAction::Read)
                        },
                    };
                },
            }
        }
    }

    /// Lends the buffer that is read into and parsed from.
    pub fn read_buf_mut(&mut self) -> (r: &mut BytesMut)
        ensures
            buffered(*r) == old(self)@.unparsed,
            final(self)@ == (CompioReaderView { unparsed: buffered(*final(r)), ..old(self)@ }),
    {
        &mut self.read_buf
    }

    /// Reports that bytes were read.
    pub fn on_read(&mut self)
        ensures
            final(self)@ == (CompioReaderView { fresh: true, ..old(self)@ }),
            is_fresh_step(old(self)@.fresh, FreshStep::Read, final(self)@.fresh),
    {
        self.fresh = true;
    }

    /// Reports that the peer ended the stream.
    pub fn on_closed(&mut self)
        ensures
            final(self)@ == (CompioReaderView { closed: true, ..old(self)@ }),
    {
        self.closed = true;
    }

    /// Reports what the bytes read so far were parsed to.
    pub fn on_parsed(&mut self, messages: VecDeque<Message>, failure: Option<Error>)
        requires
            old(self)@.failure is None,
        ensures
            final(self)@ == (CompioReaderView {
                queue: old(self)@.queue + message_views(messages@),
                failure,
                fresh: false,
                ..old(self)@
            }),
            is_queue_step(
                old(self)@.queue,
                QueueStep::Received(message_views(messages@)),
                final(self)@.queue,
            ),
            is_failure_step(old(self)@.failure, FailureStep::Parsed(failure), final(self)@.failure),
            is_fresh_step(old(self)@.fresh, FreshStep::Parsed, final(self)@.fresh),
    {
        let mut messages = messages;
        let ghost before = self.pending_messages@;
        let ghost more = messages@;
        self.pending_messages.append(&mut messages);
        self.failure = failure;
        self.fresh = false;
        assert(message_views(self.pending_messages@) =~= message_views(before) + message_views(more));
    }
}

/// The writing half of a split connection.
pub struct CompioSplitWriter {
    write_buf: BytesMut,
    closed: bool,
    config: Config,
}

/// The writing half, as mathematical values.
pub struct CompioWriterView {
    /// Whether the connection is closed for writing.
    pub closed: bool,
    /// What is pending for the socket.
    pub pending: Seq<u8>,
    /// The configuration.
    pub config: Config,
}

impl View for CompioSplitWriter {
    type V = CompioWriterView;

    closed spec fn view(&self) -> CompioWriterView {
        CompioWriterView {
            closed: self.closed,
            pending: buffered(self.write_buf),
            config: self.config,
        }
    }
}

impl CompioSplitWriter {
    /// Whether the connection is closed for writing.
    pub fn is_closed(&self) -> (r: bool)
        ensures
            r == self@.closed,
    {
        self.closed
    }

    /// Whether a message may be sent.
    pub fn check_send(&self) -> (r: Result<(), Error>)
        ensures
            r == (if self@.closed {
                Err(Error::ConnectionClosed)
            } else {
                Ok(())
            }),
            r == compio_sending(self@.closed),
    {
        if self.closed {
            Err(Error::ConnectionClosed)
        } else {
            Ok(())
        }
    }

    /// Takes note of a request of the reading half, whose answer is about to be
    /// queued: the answer to a close ends the writing.
    pub fn on_request(&mut self, request: &CompioRequest)
        ensures
            final(self)@ == (CompioWriterView {
                closed: old(self)@.closed || request@ is CloseResponse,
                ..old(self)@
            }),
            final(self)@.closed == closed_by(old(self)@.closed, request@ is CloseResponse),
    {
        match request {
            CompioRequest::Pong(_) => {},
            CompioRequest::CloseResponse => {
                self.closed = true;
            },
        }
    }

    /// Takes note of a message that is about to be queued: a close ends the
    /// writing.
    pub fn on_send(&mut self, message: &Message)
        ensures
            final(self)@ == (CompioWriterView {
                closed: old(self)@.closed || message@ is Close,
                ..old(self)@
            }),
            final(self)@.closed == closed_by(old(self)@.closed, message@ is Close),
    {
        if message.is_close() {
            self.closed = true;
        }
    }

    /// Queues bytes that a frame was encoded to. A connection with more pending
    /// than the configuration allows is closed.
    pub fn queue_bytes(&mut self, data: &[u8]) -> (r: Result<(), Error>)
        requires
            old(self)@.pending.len() + data@.len() <= isize::MAX,
        ensures
            final(self)@ == (CompioWriterView {
                pending: old(self)@.pending + data@,
                closed: old(self)@.closed || exceeds(
                    old(self)@.pending + data@,
                    old(self)@.config,
                ),
                ..old(self)@
            }),
            r == queue_result(old(self)@.pending + data@, old(self)@.config),
            is_cork_step(old(self)@.pending, CorkStep::Wrote(data@), final(self)@.pending),
            final(self)@.closed <==> old(self)@.closed || r is Err,
    {
        self.write_buf.extend_from_slice(data);
        if self.write_buf.len() > self.config.max_backpressure {
            self.closed = true;
            return Err(Error::ConnectionClosed);
        }
        Ok(())
    }

    /// Lends what is pending for the socket.
    pub fn pending_bytes(&self) -> (r: &[u8])
        ensures
            r@ == self@.pending,
    {
        buffers::buffer_as_slice(&self.write_buf)
    }

    /// Reports that everything pending was written.
    pub fn on_flushed(&mut self)
        ensures
            final(self)@ == (CompioWriterView { pending: Seq::empty(), ..old(self)@ }),
            is_cork_step(
                old(self)@.pending,
                CorkStep::Consumed(old(self)@.pending),
                final(self)@.pending,
            ),
    {
        self.write_buf.clear();
    }
}

/// A connection that compresses its messages.
pub struct CompioCompressedWebSocketStream<S> {
    stream: CompioWebSocketStream<S>,
    context: DeflateContext,
    codec_closed: bool,
}

impl<S> CompioCompressedWebSocketStream<S> {
    /// The connection.
    pub closed spec fn connection(&self) -> CompioWebSocketStream<S> {
        self.stream
    }

    /// The compression of both directions.
    pub closed spec fn compression(&self) -> DeflateContext {
        self.context
    }

    /// Whether the frame codec has seen the connection close.
    pub closed spec fn codec_is_closed(&self) -> bool {
        self.codec_closed
    }

    /// Starts the server side of a connection.
    pub fn server(inner: S, config: Config, deflate_config: DeflateConfig) -> (r: Self)
        requires
            config.write_buffer_size <= isize::MAX,
            9 <= deflate_config.server_max_window_bits <= 15,
            8 <= deflate_config.client_max_window_bits <= 15,
            deflate_config.compression_level <= 9,
        ensures
            r.connection()@ == fresh_connection(
                Seq::empty(),
                DEFAULT_HIGH_WATER_MARK,
                DEFAULT_LOW_WATER_MARK,
            ),
            r.connection().transport() == inner,
            r.connection().side() == Role::Server,
            r.connection().settings() == config,
            is_server_context(r.compression(), deflate_config),
            !r.codec_is_closed(),
    {
        CompioCompressedWebSocketStream::server_with_leftover(inner, config, deflate_config, None)
    }

    /// Starts the server side of a connection with bytes that were read behind
    /// the handshake.
    pub fn server_with_leftover(
        inner: S,
        config: Config,
        deflate_config: DeflateConfig,
        leftover: Option<Bytes>,
    ) -> (r: Self)
        requires
            config.write_buffer_size <= isize::MAX,
            leftover_bytes(leftover).len() <= isize::MAX,
            9 <= deflate_config.server_max_window_bits <= 15,
            8 <= deflate_config.client_max_window_bits <= 15,
            deflate_config.compression_level <= 9,
        ensures
            r.connection()@ == fresh_connection(
                leftover_bytes(leftover),
                DEFAULT_HIGH_WATER_MARK,
                DEFAULT_LOW_WATER_MARK,
            ),
            r.connection().transport() == inner,
            r.connection().side() == Role::Server,
            r.connection().settings() == config,
            is_server_context(r.compression(), deflate_config),
            !r.codec_is_closed(),
    {
        CompioCompressedWebSocketStream {
            stream: CompioWebSocketStream::server_with_leftover(inner, config, leftover),
            context: DeflateContext::server(deflate_config),
            codec_closed: false,
        }
    }

    /// Starts the client side of a connection.
    pub fn client(inner: S, config: Config, deflate_config: DeflateConfig) -> (r: Self)
        requires
            config.write_buffer_size <= isize::MAX,
            8 <= deflate_config.server_max_window_bits <= 15,
            9 <= deflate_config.client_max_window_bits <= 15,
            deflate_config.compression_level <= 9,
        ensures
            r.connection()@ == fresh_connection(
                Seq::empty(),
                DEFAULT_HIGH_WATER_MARK,
                DEFAULT_LOW_WATER_MARK,
            ),
            r.connection().transport() == inner,
            r.connection().side() == Role::Client,
            r.connection().settings() == config,
            is_client_context(r.compression(), deflate_config),
            !r.codec_is_closed(),
    {
        CompioCompressedWebSocketStream::client_with_leftover(inner, config, deflate_config, None)
    }

    /// Starts the client side of a connection with bytes that were read behind
    /// the handshake.
    pub fn client_with_leftover(
        inner: S,
        config: Config,
        deflate_config: DeflateConfig,
        leftover: Option<Bytes>,
    ) -> (r: Self)
        requires
            config.write_buffer_size <= isize::MAX,
            leftover_bytes(leftover).len() <= isize::MAX,
            8 <= deflate_config.server_max_window_bits <= 15,
            9 <= deflate_config.client_max_window_bits <= 15,
            deflate_config.compression_level <= 9,
        ensures
            r.connection()@ == fresh_connection(
                leftover_bytes(leftover),
                DEFAULT_HIGH_WATER_MARK,
                DEFAULT_LOW_WATER_MARK,
            ),
            r.connection().transport() == inner,
            r.connection().side() == Role::Client,
            r.connection().settings() == config,
            is_client_context(r.compression(), deflate_config),
            !r.codec_is_closed(),
    {
        CompioCompressedWebSocketStream {
            stream: CompioWebSocketStream::client_with_leftover(inner, config, leftover),
            context: DeflateContext::client(deflate_config),
            codec_closed: false,
        }
    }

    /// Takes notice that the frame codec has seen the connection close.
    pub fn on_codec_closed(&mut self)
        ensures
            final(self).codec_is_closed(),
            final(self).connection() == old(self).connection(),
            final(self).compression() == old(self).compression(),
    {
        self.codec_closed = true;
    }

    /// Whether the connection is closed, for itself or for the frame codec.
    pub fn is_closed(&self) -> (r: bool)
        ensures
            r == (self.connection()@.state == StreamState::Closed || self.codec_is_closed()),
    {
        self.stream.is_closed() || self.codec_closed
    }

    /// Whether more is pending than the high water mark.
    pub fn is_backpressured(&self) -> (r: bool)
        ensures
            r == (self.connection()@.pending.len() > self.connection()@.high),
            r == crate::stream::is_above(
                self.connection()@.pending.len(),
                self.connection()@.high,
            ),
    {
        self.stream.is_backpressured()
    }

    /// The number of bytes that are pending for the socket.
    pub fn write_buffer_len(&self) -> (r: usize)
        ensures
            r == self.connection()@.pending.len(),
    {
        self.stream.write_buffer_len()
    }

    /// Sets the high water mark.
    pub fn set_high_water_mark(&mut self, size: usize)
        ensures
            final(self).connection().keeps_setup(&old(self).connection()),
            final(self).connection()@ == (CompioView { high: size, ..old(self).connection()@ }),
            final(self).compression() == old(self).compression(),
            final(self).codec_is_closed() == old(self).codec_is_closed(),
    {
        self.stream.set_high_water_mark(size);
    }

    /// Sets the low water mark.
    pub fn set_low_water_mark(&mut self, size: usize)
        ensures
            final(self).connection().keeps_setup(&old(self).connection()),
            final(self).connection()@ == (CompioView { low: size, ..old(self).connection()@ }),
            final(self).compression() == old(self).compression(),
            final(self).codec_is_closed() == old(self).codec_is_closed(),
    {
        self.stream.set_low_water_mark(size);
    }

    /// Lends the connection for use.
    pub fn connection_mut(&mut self) -> (r: &mut CompioWebSocketStream<S>)
        ensures
            *r == old(self).connection(),
            final(self).connection() == *final(r),
            final(self).compression() == old(self).compression(),
            final(self).codec_is_closed() == old(self).codec_is_closed(),
    {
        &mut self.stream
    }

    /// Lends the compression of both directions for use.
    pub fn context_mut(&mut self) -> (r: &mut DeflateContext)
        ensures
            *r == old(self).compression(),
            final(self).compression() == *final(r),
            final(self).connection() == old(self).connection(),
            final(self).codec_is_closed() == old(self).codec_is_closed(),
    {
        &mut self.context
    }

    /// Takes the connection apart into its two layers.
    pub fn into_layers(self) -> (r: (CompioWebSocketStream<S>, DeflateContext))
        ensures
            r == (self.connection(), self.compression()),
    {
        (self.stream, self.context)
    }
}

/// Whether `r` accepts a request: with the response that echoes the subprotocol and
/// carries the given extensions, and with what the request asked for; or with the
/// error for a part that cannot be sent.
pub open spec fn accepts(
    request: handshake::RequestView,
    extensions: Option<Seq<char>>,
    r: Result<(Bytes, HandshakeResult), Error>,
) -> bool {
    let accept_key = accept_key_of(request.key);
    match (r, response_parts_error(accept_key, request.protocol, extensions)) {
        (Ok((reply, result)), None) => {
            &&& contents(reply) == vstd::utf8::encode_utf8(
                response_text(accept_key, request.protocol, extensions),
            )
            &&& result.path@ == request.path
            &&& opt_string_view(result.protocol) == request.protocol
            &&& opt_string_view(result.extensions) == request.extensions
        },
        (Err(x), Some(e)) => x == e,
        _ => false,
    }
}

/// Whether a server that had `received` some bytes and read `data` reports `r`, and has
/// `after` then.
pub open spec fn is_compio_server_read(
    extensions: Option<Seq<char>>,
    received: Seq<u8>,
    data: Seq<u8>,
    r: Result<Option<(Bytes, HandshakeResult)>, Error>,
    after: Seq<u8>,
) -> bool {
    let buf = received + data;
    if data.len() == 0 {
        r == Err::<Option<(Bytes, HandshakeResult)>, Error>(Error::ConnectionClosed)
    } else {
        match (parsed_request(buf), r) {
            (Err(e), Err(x)) => x == e,
            (Ok(None), Ok(None)) => after == buf,
            (Ok(Some((request, n))), Ok(Some((reply, done)))) => {
                &&& accepts(request, extensions, Ok((reply, done)))
                &&& is_leftover(done.leftover, buf, n as int)
            },
            (Ok(Some((request, _))), Err(x)) => accepts(request, extensions, Err(x)),
            _ => false,
        }
    }
}

/// Whether a client that had `received` some bytes and read `data` reports `r`, and has
/// `after` then.
pub open spec fn is_compio_client_read(
    key: Seq<char>,
    path: Seq<char>,
    received: Seq<u8>,
    data: Seq<u8>,
    r: Result<Option<HandshakeResult>, Error>,
    after: Seq<u8>,
) -> bool {
    let buf = received + data;
    if data.len() == 0 {
        r == Err::<Option<HandshakeResult>, Error>(Error::ConnectionClosed)
    } else {
        match (parsed_response(buf), r) {
            (Err(e), Err(x)) => x == e,
            (Ok(None), Ok(None)) => after == buf,
            (Ok(Some((response, n))), Ok(Some(done))) => {
                &&& accept_result(key, response) is Ok
                &&& is_client_result(done, path, response)
                &&& is_leftover(done.leftover, buf, n as int)
            },
            (Ok(Some((response, _))), Err(x)) => accept_result(key, response) == Err::<(), Error>(
                x,
            ),
            _ => false,
        }
    }
}

/// Accepts a request: the response echoes the subprotocol that was asked for and
/// carries the given extensions. What the request asked for is reported.
pub fn accept_handshake(request: &HandshakeRequest<'_>, extensions: Option<&str>) -> (r: Result<
    (Bytes, HandshakeResult),
    Error,
>)
    ensures
        accepts(request@, opt_view(extensions), r),
        r matches Ok((_, result)) ==> result.leftover is None,
{
    let accept_key = handshake::generate_accept_key(request.key);
    let protocol = handshake::opt_cow_as_str(&request.protocol);
    match handshake::build_response(accept_key.as_str(), protocol, extensions) {
        Ok(reply) => Ok(
            (
                reply,
                HandshakeResult {
                    path: handshake::cow_as_str(&request.path).to_owned(),
                    protocol: handshake::opt_to_string(protocol),
                    extensions: handshake::opt_to_string(
                        handshake::opt_cow_as_str(&request.extensions),
                    ),
                    leftover: None,
                },
            ),
        ),
        Err(e) => Err(e),
    }
}

/// The verdict on a response to a request with the given key.
pub open spec fn accept_result(key: Seq<char>, response: ResponseView) -> Result<(), Error> {
    match response.accept {
        None => Err(Error::HandshakeFailed("missing Sec-WebSocket-Accept")),
        Some(accept) => if accept == accept_key_of(key) {
            Ok(())
        } else {
            Err(Error::HandshakeFailed("invalid Sec-WebSocket-Accept"))
        },
    }
}

/// Checks that a response carries the accept key for the key that was sent.
pub fn check_accept(key: &str, response: &HandshakeResponse<'_>) -> (r: Result<(), Error>)
    ensures
        r == accept_result(key@, response@),
{
    match response.accept {
        None => Err(Error::HandshakeFailed("missing Sec-WebSocket-Accept")),
        Some(accept) => {
            if handshake::validate_accept_key(key, accept) {
                Ok(())
            } else {
                Err(Error::HandshakeFailed("invalid Sec-WebSocket-Accept"))
            }
        },
    }
}

/// The server's side of a handshake over a completion-based transport.
pub struct CompioServerHandshake {
    buf: BytesMut,
}

impl CompioServerHandshake {
    /// What has been received.
    pub closed spec fn received(&self) -> Seq<u8> {
        buffered(self.buf)
    }

    /// Starts a handshake.
    pub fn new() -> (r: Self)
        ensures
            r.received() == Seq::<u8>::empty(),
    {
        CompioServerHandshake { buf: BytesMut::with_capacity(4096) }
    }

    /// How many more bytes may be read.
    pub fn allowance(&self) -> (r: Result<usize, Error>)
        ensures
            r == allowed(self.received().len(), "request too large"),
    {
        handshake::read_allowance(self.buf.len(), "request too large")
    }

    /// Hands in what was read; nothing means that the client closed the
    /// connection. Once the request is complete, it is accepted with the given
    /// extensions: gives the response, which is to be sent, and the result.
    pub fn on_read(&mut self, data: &[u8], extensions: Option<&str>) -> (r: Result<
        Option<(Bytes, HandshakeResult)>,
        Error,
    >)
        requires
            old(self).received().len() + data@.len() <= isize::MAX,
        ensures
            ({
                let buf = old(self).received() + data@;
                if data@.len() == 0 {
                    r == Err::<Option<(Bytes, HandshakeResult)>, Error>(Error::ConnectionClosed)
                } else {
                    match (parsed_request(buf), r) {
                        (Err(e), _) => r == Err::<Option<(Bytes, HandshakeResult)>, Error>(e),
                        (Ok(None), _) => r == Ok::<Option<(Bytes, HandshakeResult)>, Error>(None)
                            && final(self).received() == buf,
                        (Ok(Some((request, n))), Ok(Some((reply, done)))) => accepts(
                            request,
                            opt_view(extensions),
                            Ok((reply, done)),
                        ) && is_leftover(done.leftover, buf, n as int),
                        (Ok(Some((request, _))), Err(e)) => accepts(
                            request,
                            opt_view(extensions),
                            Err(e),
                        ),
                        (Ok(Some(_)), Ok(None)) => false,
                    }
                }
            }),
            is_compio_server_read(
                opt_view(extensions),
                old(self).received(),
                data@,
                r,
                final(self).received(),
            ),
    {
        if data.len() == 0 {
            return Err(Error::ConnectionClosed);
        }
        self.buf.extend_from_slice(data);
        let (reply, done, consumed) = match handshake::parse_request(
            buffers::buffer_as_slice(&self.buf),
        ) {
            Err(e) => {
                return Err(e);
            },
            Ok(None) => {
                return Ok(None);
            },
            Ok(Some((request, consumed))) => match accept_handshake(&request, extensions) {
                Ok((reply, done)) => (reply, done, consumed),
                Err(e) => {
                    return Err(e);
                },
            },
        };
        let leftover = handshake::take_leftover(&mut self.buf, consumed);
        Ok(
            Some(
                (
                    reply,
                    HandshakeResult {
                        path: done.path,
                        protocol: done.protocol,
                        extensions: done.extensions,
                        leftover,
                    },
                ),
            ),
        )
    }
}

/// The client's side of a handshake over a completion-based transport.
pub struct CompioClientHandshake {
    key: String,
    path: String,
    buf: BytesMut,
}

impl CompioClientHandshake {
    /// What has been received.
    pub closed spec fn received(&self) -> Seq<u8> {
        buffered(self.buf)
    }

    /// The key that was sent.
    pub closed spec fn sent_key(&self) -> Seq<char> {
        self.key@
    }

    /// The path that was asked for.
    pub closed spec fn asked_path(&self) -> Seq<char> {
        self.path@
    }

    /// Starts a handshake; the request is to be sent.
    pub fn start(host: &str, path: &str, key: String, protocol: Option<&str>) -> (r: Result<
        (Self, Bytes),
        Error,
    >)
        ensures
            match (
                r,
                request_parts_error(host@, path@, key@, opt_view(protocol), None, seq![]),
            ) {
                (Ok((client, request)), None) => {
                    &&& contents(request) == vstd::utf8::encode_utf8(
                        request_text(host@, path@, key@, opt_view(protocol), None, seq![]),
                    )
                    &&& client.received() == Seq::<u8>::empty()
                    &&& client.sent_key() == key@
                    &&& client.asked_path() == path@
                },
                (Err(x), Some(e)) => x == e,
                _ => false,
            },
    {
        match handshake::build_request(host, path, key.as_str(), protocol, None) {
            Ok(request) => {
                let client = CompioClientHandshake {
                    key,
                    path: path.to_owned(),
                    buf: BytesMut::with_capacity(4096),
                };
                Ok((client, request))
            },
            Err(e) => Err(e),
        }
    }

    /// How many more bytes may be read.
    pub fn allowance(&self) -> (r: Result<usize, Error>)
        ensures
            r == allowed(self.received().len(), "response too large"),
    {
        handshake::read_allowance(self.buf.len(), "response too large")
    }

    /// Hands in what was read; nothing means that the server closed the
    /// connection. Gives the result once the server's response is complete.
    pub fn on_read(&mut self, data: &[u8]) -> (r: Result<Option<HandshakeResult>, Error>)
        requires
            old(self).received().len() + data@.len() <= isize::MAX,
        ensures
            final(self).sent_key() == old(self).sent_key(),
            final(self).asked_path() == old(self).asked_path(),
            ({
                let buf = old(self).received() + data@;
                if data@.len() == 0 {
                    r == Err::<Option<HandshakeResult>, Error>(Error::ConnectionClosed)
                } else {
                    match parsed_response(buf) {
                        Err(e) => r == Err::<Option<HandshakeResult>, Error>(e),
                        Ok(None) => {
                            &&& r == Ok::<Option<HandshakeResult>, Error>(None)
                            &&& final(self).received() == buf
                        },
                        Ok(Some((response, n))) => match accept_result(
                            old(self).sent_key(),
                            response,
                        ) {
                            Err(e) => r == Err::<Option<HandshakeResult>, Error>(e),
                            Ok(_) => r matches Ok(Some(done)) && is_client_result(
                                done,
                                old(self).asked_path(),
                                response,
                            ) && is_leftover(done.leftover, buf, n as int),
                        },
                    }
                }
            }),
            is_compio_client_read(
                old(self).sent_key(),
                old(self).asked_path(),
                old(self).received(),
                data@,
                r,
                final(self).received(),
            ),
    {
        if data.len() == 0 {
            return Err(Error::ConnectionClosed);
        }
        self.buf.extend_from_slice(data);
        let (done, consumed) = match handshake::parse_response(
            buffers::buffer_as_slice(&self.buf),
        ) {
            Err(e) => {
                return Err(e);
            },
            Ok(None) => {
                return Ok(None);
            },
            Ok(Some((response, consumed))) => match check_accept(self.key.as_str(), &response) {
                Ok(()) => (
                    handshake::client_result(self.path.as_str(), &response, None),
                    consumed,
                ),
                Err(e) => {
                    return Err(e);
                },
            },
        };
        let leftover = handshake::take_leftover(&mut self.buf, consumed);
        Ok(
            Some(
                HandshakeResult {
                    path: done.path,
                    protocol: done.protocol,
                    extensions: done.extensions,
                    leftover,
                },
            ),
        )
    }
}

/// A closed connection ends, whatever else was received.
pub proof fn law_closed_is_final(c: CompioView)
    requires
        c.state == StreamState::Closed,
    ensures
        compio_turn(c) == CompioTurn::End,
{
}

/// A failure is reported only after every message before it was handled, and
/// nothing is parsed or read before either.
pub proof fn law_messages_precede_failure(c: CompioView)
    requires
        c.state != StreamState::Closed,
    ensures
        compio_turn(c) == CompioTurn::Fail <==> c.queue.len() == 0 && c.failure is Some,
        compio_turn(c) == CompioTurn::Parse || compio_turn(c) == CompioTurn::Read ==> c.queue.len()
            == 0 && c.failure is None,
{
}

/// Bytes that a handshake left behind are parsed before anything is read.
pub proof fn law_leftover_is_parsed_first(leftover: Seq<u8>, high: usize, low: usize)
    requires
        leftover.len() > 0,
    ensures
        compio_turn(fresh_connection(leftover, high, low)) == CompioTurn::Parse,
{
}

/// The reading half delivers neither pings nor pongs.
pub proof fn law_heartbeats_are_not_delivered(queue: Seq<MessageView>)
    ensures
        behind_heartbeats(queue).len() > 0 ==> !is_heartbeat(behind_heartbeats(queue)[0]),
        behind_heartbeats(queue).len() <= queue.len(),
    decreases queue.len(),
{
    if queue.len() > 0 && is_heartbeat(queue[0]) {
        law_heartbeats_are_not_delivered(queue.skip(1));
    }
}

} // verus!
