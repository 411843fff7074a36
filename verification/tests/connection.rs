use std::collections::VecDeque;

use bytes::Bytes;
use sockudo_ws::clock::{remaining, HeartbeatTimer};
use sockudo_ws::compio::{
    accept_handshake, check_accept, CompioAction, CompioAnswer, CompioClientHandshake,
    CompioCompressedWebSocketStream, CompioRequest, CompioServerHandshake, CompioWebSocketStream,
    CompioWebSocketStreamBuilder,
};
use sockudo_ws::deflate::DeflateConfig;
use sockudo_ws::error::{CloseReason, Error};
use sockudo_ws::handshake::{build_request, key_from_bytes, parse_request, parse_response};
use sockudo_ws::io_uring::{UringStream, UringStreamAdapter};
use sockudo_ws::protocol::{Message, Role};
use sockudo_ws::receive::ReceiveBuffer;
use sockudo_ws::split::{
    driver_turn, split, ControlRequest, DriverAction, DriverEvent, DriverState, DriverTurn,
    Ready, SplitAction, SplitReader, SplitShared, SplitState, TerminalCause, WriteProgress,
};
use sockudo_ws::stream::{
    bounded_close_reason, error_for_timeout, timeout_close_reason, CompressedWebSocketStream,
    FlushAction, FlushEvent, Flushed, MessageAction, ReadAction, Timeout, WebSocketStream, WebSocketStreamBuilder,
    DEFAULT_HIGH_WATER_MARK, DEFAULT_LOW_WATER_MARK,
};
use sockudo_ws::Config;

fn binary(b: u8) -> Message {
    Message::binary(vec![b; 128])
}

fn ping(data: &'static [u8]) -> Message {
    Message::Ping(Bytes::from_static(data))
}

fn pong(data: &'static [u8]) -> Message {
    Message::Pong(Bytes::from_static(data))
}

fn queue(messages: Vec<Message>) -> VecDeque<Message> {
    messages.into()
}

fn bad_opcode() -> Option<Error> {
    Some(Error::InvalidFrame("opcode"))
}

fn is_binary(m: &Message, b: u8) -> bool {
    matches!(m, Message::Binary(data) if data[..] == [b; 128])
}

/// Takes the next action, which must be to handle a message, and handles it.
fn handle<S>(ws: &mut WebSocketStream<S>) -> MessageAction {
    match ws.next_action(false) {
        ReadAction::Handle(m) => ws.on_message(m),
        other => panic!("{:?}", other),
    }
}

#[test]
fn test_builder() {
    let builder = WebSocketStreamBuilder::new()
        .role(Role::Server)
        .max_message_size(1024 * 1024)
        .max_frame_size(64 * 1024);
    let ws = builder.build("transport");
    assert_eq!(ws.role(), Role::Server);
    assert_eq!(ws.config().max_message_size, 1024 * 1024);
    assert_eq!(ws.config().max_frame_size, 64 * 1024);
}

#[test]
fn builders_set_everything() {
    let ws = WebSocketStreamBuilder::default()
        .role(Role::Client)
        .write_buffer_size(10)
        .high_water_mark(20)
        .low_water_mark(5)
        .build(1u8);
    assert_eq!(ws.role(), Role::Client);
    assert_eq!(ws.config().write_buffer_size, 10);
    assert_eq!((ws.high_water_mark(), ws.low_water_mark()), (20, 5));
    assert_eq!(*ws.get_ref(), 1);

    let ws = CompioWebSocketStreamBuilder::default()
        .role(Role::Client)
        .max_message_size(1)
        .max_frame_size(2)
        .write_buffer_size(10)
        .high_water_mark(20)
        .low_water_mark(5)
        .build(2u8);
    assert_eq!(ws.role(), Role::Client);
    assert_eq!((ws.config().max_message_size, ws.config().max_frame_size), (1, 2));
    assert_eq!((ws.high_water_mark(), ws.low_water_mark()), (20, 5));
    assert_eq!(ws.into_inner(), 2);
}

#[test]
fn water_marks_tell_backpressure() {
    let mut ws = WebSocketStream::server((), Config::default());
    assert_eq!(ws.high_water_mark(), DEFAULT_HIGH_WATER_MARK);
    assert_eq!(ws.low_water_mark(), DEFAULT_LOW_WATER_MARK);
    ws.set_high_water_mark(10);
    ws.set_low_water_mark(4);
    ws.queue_bytes(&[1; 4]);
    assert!(ws.is_write_buffer_low());
    ws.queue_bytes(&[2; 6]);
    assert!(!ws.is_write_buffer_low());
    assert!(!ws.is_backpressured());
    ws.queue_bytes(&[3]).unwrap();
    assert!(ws.is_backpressured());
    assert_eq!(ws.write_buffer_len(), 11);
    assert_eq!(ws.write_slices().concat(), [1, 1, 1, 1, 2, 2, 2, 2, 2, 2, 3]);
    ws.on_written(9).unwrap();
    assert_eq!(ws.write_slices().concat(), [2, 3]);
    assert!(matches!(ws.on_written(0), Err(Error::ConnectionClosed)));
    assert!(ws.is_closed());
}

#[test]
fn a_flush_is_complete_once_nothing_is_pending() {
    let mut ws = WebSocketStream::server((), Config::default());
    ws.set_high_water_mark(0);
    ws.set_low_water_mark(0);
    assert_eq!(ws.flush_step(FlushEvent::Begin), FlushAction::FlushSocket);
    ws.queue_bytes(b"abcdef").unwrap();
    assert_eq!(ws.flush_step(FlushEvent::Begin), FlushAction::Write);
    assert_eq!(ws.flush_step(FlushEvent::Written(4)), FlushAction::Write);
    assert_eq!(ws.write_slices().concat(), b"ef");
    assert!(ws.is_backpressured());
    assert_eq!(ws.flush_step(FlushEvent::Written(9)), FlushAction::FlushSocket);
    assert_eq!(ws.flush_step(FlushEvent::Flushed), FlushAction::Done);
    assert_eq!(ws.write_buffer_len(), 0);
    assert!(ws.is_write_buffer_low() && !ws.is_backpressured());

    ws.queue_bytes(b"gh").unwrap();
    assert_eq!(ws.flush_step(FlushEvent::Flushed), FlushAction::Write);
    assert_eq!(ws.flush_step(FlushEvent::Written(0)), FlushAction::Fail);
    assert!(ws.is_closed());
    let mut ws = WebSocketStream::server((), Config::default());
    assert_eq!(ws.flush_step(FlushEvent::Failed), FlushAction::Fail);
    assert!(ws.is_closed());
}

#[test]
fn too_much_pending_closes_the_connection() {
    let config = Config::builder().max_backpressure(3).build();
    let mut ws = WebSocketStream::server((), config);
    assert!(ws.queue_bytes(b"abc").is_ok());
    assert!(!ws.is_closed());
    assert!(matches!(ws.queue_bytes(b"d"), Err(Error::ConnectionClosed)));
    assert!(ws.is_closed());
    assert!(matches!(ws.poll_ready(), Err(Error::ConnectionClosed)));
    ws.on_timeout_close_queued(Timeout::Idle);
    assert!(ws.is_closed());

    let mut ws = CompioWebSocketStream::client((), config);
    assert!(ws.queue_bytes(b"abc").is_ok());
    assert!(matches!(ws.queue_bytes(b"d"), Err(Error::ConnectionClosed)));
    assert!(ws.is_closed());
    assert!(matches!(ws.next_action(), CompioAction::End));

    let (_, _, mut writer) = CompioWebSocketStream::client((), config).split();
    assert!(writer.queue_bytes(b"abc").is_ok());
    assert!(writer.check_send().is_ok());
    assert!(writer.queue_bytes(b"d").is_err());
    assert!(matches!(writer.check_send(), Err(Error::ConnectionClosed)));
}

#[test]
fn read_only_stream_flushes_automatic_pong() {
    let mut ws = WebSocketStream::server((), Config::default());
    assert!(matches!(ws.next_action(false), ReadAction::Read));
    ws.on_parsed(queue(vec![ping(b"hi")]), None);
    assert!(matches!(handle(&mut ws), MessageAction::Pong(data) if &data[..] == b"hi"));
    assert!(matches!(ws.next_action(false), ReadAction::Flush));
    let (pinged, after) = ws.on_flushed();
    assert!(!pinged);
    assert!(matches!(after, Flushed::Deliver(Message::Ping(data)) if &data[..] == b"hi"));
    assert!(matches!(ws.next_action(false), ReadAction::Read));
}

#[test]
fn read_only_stream_flushes_close_response() {
    let mut ws = WebSocketStream::server((), Config::default());
    ws.on_parsed(queue(vec![Message::Close(None), binary(b'x')]), None);
    assert!(matches!(handle(&mut ws), MessageAction::CloseResponse));
    assert!(matches!(ws.next_action(false), ReadAction::Flush));
    let (_, after) = ws.on_flushed();
    assert!(matches!(after, Flushed::Deliver(Message::Close(None))));
    assert!(ws.is_closed());
    assert!(matches!(ws.next_action(false), ReadAction::End));
    assert!(matches!(ws.next_action(true), ReadAction::End));
}

#[test]
fn a_close_that_was_sent_is_not_answered() {
    let mut ws = WebSocketStream::client((), Config::default());
    let close = ws.close_message(1000, "bye").unwrap();
    assert!(ws.start_send(&close).is_ok());
    assert!(ws.close_message(1000, "").is_none());
    assert!(matches!(ws.poll_ready(), Err(Error::ConnectionClosed)));
    assert!(matches!(ws.start_send(&binary(0)), Err(Error::ConnectionClosed)));
    ws.on_parsed(queue(vec![Message::Close(None)]), None);
    assert!(matches!(handle(&mut ws), MessageAction::FlushClose));
}

#[test]
fn auto_ping_uses_configured_interval_on_read_path() {
    let mut ws = WebSocketStream::server((), Config::default());
    assert!(matches!(ws.next_action(true), ReadAction::Deadline));
    ws.on_ping_queued();
    assert!(matches!(ws.next_action(false), ReadAction::Flush));
    let (pinged, after) = ws.on_flushed();
    assert!(pinged);
    assert!(matches!(after, Flushed::Continue));
}

#[test]
fn a_timeout_closes_and_is_reported() {
    let mut ws = WebSocketStream::server((), Config::default());
    ws.on_timeout_close_queued(Timeout::Idle);
    assert!(matches!(ws.next_action(false), ReadAction::Flush));
    assert!(matches!(ws.on_flushed().1, Flushed::Fail(Error::IdleTimeout)));
    assert!(matches!(ws.next_action(false), ReadAction::End));
    assert!(matches!(error_for_timeout(Timeout::Pong), Error::HeartbeatTimeout));
}

#[test]
fn receive_tests_unified_delivers_valid_message_before_parse_failure() {
    let mut ws = WebSocketStream::client((), Config::default());
    ws.on_parsed(queue(vec![binary(b'x')]), bad_opcode());
    assert!(matches!(handle(&mut ws), MessageAction::Deliver(m) if is_binary(&m, b'x')));
    assert!(matches!(ws.next_action(false), ReadAction::Fail(Error::InvalidFrame(_))));
    assert!(matches!(ws.next_action(false), ReadAction::End));

    let mut ws = CompioWebSocketStream::client((), Config::default());
    ws.on_parsed(queue(vec![binary(b'x')]), bad_opcode());
    assert!(matches!(ws.next_action(), CompioAction::Handle(m) if is_binary(&m, b'x')));
    assert!(matches!(ws.next_action(), CompioAction::Fail(Error::InvalidFrame(_))));
    assert!(matches!(ws.next_action(), CompioAction::End));
}

#[test]
fn receive_tests_unified_close_discards_a_later_parse_failure() {
    let mut ws = WebSocketStream::client((), Config::default());
    ws.on_parsed(queue(vec![Message::Close(None)]), bad_opcode());
    assert!(matches!(handle(&mut ws), MessageAction::CloseResponse));
    assert!(matches!(ws.on_flushed().1, Flushed::Deliver(Message::Close(_))));
    assert!(matches!(ws.next_action(false), ReadAction::End));

    let mut ws = CompioWebSocketStream::client((), Config::default());
    ws.on_parsed(queue(vec![Message::Close(None)]), bad_opcode());
    let CompioAction::Handle(m) = ws.next_action() else { panic!("no message") };
    assert!(matches!(ws.on_message(&m), CompioAnswer::CloseResponse));
    assert!(matches!(ws.next_action(), CompioAction::End));
}

#[test]
fn unified_ping_flush_preserves_messages_before_parse_failure() {
    let mut ws = WebSocketStream::client((), Config::default());
    ws.on_parsed(queue(vec![binary(b'a'), binary(b'b')]), bad_opcode());
    assert!(matches!(handle(&mut ws), MessageAction::Deliver(m) if is_binary(&m, b'a')));
    assert!(matches!(ws.next_action(true), ReadAction::Deadline));
    ws.on_ping_queued();
    assert!(matches!(ws.next_action(false), ReadAction::Flush));
    assert!(matches!(ws.on_flushed(), (true, Flushed::Continue)));
    assert!(matches!(handle(&mut ws), MessageAction::Deliver(m) if is_binary(&m, b'b')));
    assert!(matches!(ws.next_action(false), ReadAction::Fail(_)));
    assert!(matches!(ws.next_action(false), ReadAction::End));
}

#[test]
fn unified_write_failure_discards_pending_messages() {
    let mut ws = CompioWebSocketStream::client((), Config::default());
    ws.on_parsed(queue(vec![ping(b"ping"), binary(b'x')]), None);
    let CompioAction::Handle(m) = ws.next_action() else { panic!("no message") };
    assert!(matches!(ws.on_message(&m), CompioAnswer::Pong(data) if &data[..] == b"ping"));
    // The pong could not be written.
    ws.on_closed();
    assert!(matches!(ws.next_action(), CompioAction::End));
}

fn split_reader(messages: Vec<Message>, failure: Option<Error>) -> (SplitReader, SplitShared) {
    let mut ws = WebSocketStream::client((), Config::default());
    ws.on_parsed(queue(messages), failure);
    let (_, reader, shared) = split(ws);
    (reader, shared)
}

#[test]
fn receive_tests_split_batches_preserve_pending_messages_and_controls() {
    let mut ws = WebSocketStream::client((), Config::default());
    ws.on_parsed(queue(vec![binary(b'a'), binary(b'b'), ping(b"p"), pong(b"q")]), None);
    assert!(matches!(handle(&mut ws), MessageAction::Deliver(m) if is_binary(&m, b'a')));
    ws.read_buf_mut().extend_from_slice(b"part");
    assert_eq!(ws.read_buffer_len(), 4);
    let (_, mut reader, mut shared) = split(ws);
    assert_eq!(&reader.read_buf_mut()[..], b"part");
    assert!(matches!(
        reader.next_action(&mut shared),
        SplitAction::Deliver(m, ControlRequest::Activity) if is_binary(&m, b'b')
    ));
    assert!(matches!(
        reader.next_action(&mut shared),
        SplitAction::Deliver(Message::Ping(_), ControlRequest::Ping(data)) if &data[..] == b"p"
    ));
    assert!(matches!(
        reader.next_action(&mut shared),
        SplitAction::Deliver(Message::Pong(_), ControlRequest::Pong(data)) if &data[..] == b"q"
    ));
    assert!(matches!(reader.next_action(&mut shared), SplitAction::Read));
}

#[test]
fn receive_tests_split_delivers_valid_message_before_parse_failure() {
    let (mut reader, mut shared) = split_reader(vec![], None);
    reader.on_parsed(queue(vec![binary(b'x')]), bad_opcode());
    assert!(matches!(
        reader.next_action(&mut shared),
        SplitAction::Deliver(m, _) if is_binary(&m, b'x')
    ));
    assert!(matches!(reader.next_action(&mut shared), SplitAction::Fail(Error::InvalidFrame(_))));
    assert!(matches!(reader.next_action(&mut shared), SplitAction::End));
    assert_eq!(shared.cause, Some(TerminalCause::ConnectionClosed));
}

#[test]
fn receive_tests_split_close_discards_a_later_parse_failure() {
    let (mut reader, mut shared) = split_reader(vec![Message::Close(None)], bad_opcode());
    assert!(matches!(
        reader.next_action(&mut shared),
        SplitAction::Deliver(Message::Close(_), ControlRequest::PeerClose)
    ));
    assert!(shared.is_closed());
    let mut driver = DriverState::new();
    assert_eq!(driver.step(&mut shared, DriverEvent::PeerClose), DriverAction::RespondAndShutdown);
    assert_eq!(driver.step(&mut shared, DriverEvent::Ended), DriverAction::Stop);
    assert!(matches!(reader.next_action(&mut shared), SplitAction::End));
}

#[test]
fn split_preserves_parsed_prefix_and_error_after_terminal_publication() {
    let (mut reader, mut shared) = split_reader(vec![binary(b'a'), binary(b'b')], bad_opcode());
    assert!(matches!(
        reader.next_action(&mut shared),
        SplitAction::Deliver(m, _) if is_binary(&m, b'a')
    ));
    // An already discovered parse failure drains its successful prefix before
    // reporting that failure, even if the writer publishes a timeout meanwhile.
    shared.terminate(TerminalCause::IdleTimeout);
    assert!(matches!(
        reader.next_action(&mut shared),
        SplitAction::Deliver(m, _) if is_binary(&m, b'b')
    ));
    assert!(matches!(reader.next_action(&mut shared), SplitAction::Fail(Error::InvalidFrame(_))));
    assert!(matches!(reader.next_action(&mut shared), SplitAction::End));
}

#[test]
fn terminal_registration_after_close_is_ready() {
    let mut shared = SplitShared::new(false);
    shared.terminate(TerminalCause::IdleTimeout);
    assert_eq!(shared.status, SplitState::Closed);
    assert!(matches!(shared.cause, Some(TerminalCause::IdleTimeout)));
    shared.terminate(TerminalCause::ConnectionClosed);
    assert!(matches!(shared.cause, Some(TerminalCause::IdleTimeout)));
}

#[test]
fn split_hard_idle_timeout_is_typed_and_closes_once() {
    let (mut reader, mut shared) = split_reader(vec![binary(b'a')], None);
    let mut driver = DriverState::new();
    assert_eq!(
        driver.step(&mut shared, DriverEvent::Expired(Timeout::Idle)),
        DriverAction::TimeoutClose(Timeout::Idle)
    );
    assert_eq!(driver.step(&mut shared, DriverEvent::Ended), DriverAction::Stop);
    assert!(matches!(reader.next_action(&mut shared), SplitAction::Fail(Error::IdleTimeout)));
    assert!(matches!(reader.next_action(&mut shared), SplitAction::End));
    assert!(matches!(shared.check_send(), Err(Error::IdleTimeout)));
    let close = timeout_close_reason(Timeout::Idle, 4000, "unused");
    assert_eq!((close.code, close.reason.as_str()), (1001, "Connection idle timeout"));
}

#[test]
fn split_driver_times_out_with_configured_close_and_typed_cause() {
    let mut shared = SplitShared::new(false);
    let mut driver = DriverState::new();
    assert_eq!(
        driver.step(&mut shared, DriverEvent::Expired(Timeout::Pong)),
        DriverAction::TimeoutClose(Timeout::Pong)
    );
    assert!(shared.is_open());
    driver.step(&mut shared, DriverEvent::Ended);
    assert!(matches!(shared.current_error(), Error::HeartbeatTimeout));
    assert!(matches!(TerminalCause::IdleTimeout.error(), Error::IdleTimeout));
    let close = timeout_close_reason(Timeout::Pong, 4000, "no pong");
    assert_eq!((close.code, close.reason.as_str()), (4000, "no pong"));
}

#[test]
fn split_driver_replies_to_peer_ping_without_writer_activity() {
    let mut shared = SplitShared::new(false);
    let mut driver = DriverState::new();
    assert_eq!(driver.step(&mut shared, DriverEvent::Ping), DriverAction::WritePong);
    assert_eq!(driver.step(&mut shared, DriverEvent::Done(false)), DriverAction::Continue);
    assert_eq!(driver.step(&mut shared, DriverEvent::Activity), DriverAction::Note);
    assert_eq!(driver.step(&mut shared, DriverEvent::Pong), DriverAction::Note);
    assert_eq!(driver.step(&mut shared, DriverEvent::PingDue), DriverAction::WritePing);
    assert!(shared.is_open());
}

#[test]
fn split_driver_replies_to_peer_close_without_writer_activity() {
    let mut shared = SplitShared::new(false);
    let mut driver = DriverState::new();
    assert!(shared.begin_closing());
    assert_eq!(driver.step(&mut shared, DriverEvent::PeerClose), DriverAction::RespondAndShutdown);
    assert_eq!(driver.step(&mut shared, DriverEvent::Ended), DriverAction::Stop);
    assert!(matches!(shared.check_send(), Err(Error::ConnectionClosed)));
}

#[test]
fn a_close_is_sent_once() {
    let mut shared = SplitShared::new(false);
    let mut driver = DriverState::new();
    assert_eq!(driver.step(&mut shared, DriverEvent::Send(false)), DriverAction::Write);
    assert_eq!(driver.step(&mut shared, DriverEvent::Flush), DriverAction::Flush);
    assert_eq!(driver.step(&mut shared, DriverEvent::Send(true)), DriverAction::Write);
    assert_eq!(shared.status, SplitState::Closing);
    assert_eq!(driver.step(&mut shared, DriverEvent::Done(true)), DriverAction::Continue);
    assert!(driver.awaiting_close);
    assert_eq!(driver.step(&mut shared, DriverEvent::Send(true)), DriverAction::Refuse);
    assert_eq!(driver.step(&mut shared, DriverEvent::PingDue), DriverAction::Continue);
    assert_eq!(
        driver.step(&mut shared, DriverEvent::Expired(Timeout::Idle)),
        DriverAction::Continue
    );
    assert_eq!(driver.step(&mut shared, DriverEvent::PeerClose), DriverAction::Shutdown);

    let mut driver = DriverState::new();
    assert_eq!(driver.step(&mut shared, DriverEvent::CloseTimeout), DriverAction::Shutdown);
    assert_eq!(driver.step(&mut shared, DriverEvent::Failed), DriverAction::Stop);
    assert_eq!(shared.status, SplitState::Closed);
}

#[test]
fn dropping_either_split_half_cancels_the_connection() {
    for event in [
        DriverEvent::Cancelled,
        DriverEvent::ReaderGone,
        DriverEvent::WriterGone,
        DriverEvent::Eof,
    ] {
        let mut shared = SplitShared::new(false);
        let mut driver = DriverState::new();
        assert_eq!(driver.step(&mut shared, event), DriverAction::Stop);
        assert_eq!(shared.cause, Some(TerminalCause::ConnectionClosed));
    }
    assert_eq!(SplitShared::new(true).status, SplitState::Closed);
}

#[test]
fn the_driver_attends_to_the_most_urgent() {
    let all = Ready {
        cancelled: true,
        control: true,
        application: true,
        close_deadline: true,
        heartbeat: true,
    };
    assert_eq!(driver_turn(all, true), DriverTurn::Cancel);
    let ready = Ready { cancelled: false, ..all };
    assert_eq!(driver_turn(ready, true), DriverTurn::Control);
    let ready = Ready { control: false, ..ready };
    assert_eq!(driver_turn(ready, true), DriverTurn::Application);
    assert_eq!(driver_turn(ready, false), DriverTurn::CloseDeadline);
    let ready = Ready { application: false, close_deadline: false, ..ready };
    assert_eq!(driver_turn(ready, true), DriverTurn::Heartbeat);
    assert_eq!(driver_turn(ready, false), DriverTurn::Wait);
}

#[test]
fn frames_are_written_to_their_end() {
    let frame = b"abcdef";
    let mut progress = WriteProgress::new();
    assert_eq!(progress.remaining(frame), Some(&b"abcdef"[..]));
    assert!(progress.on_written(6, 4));
    assert_eq!(progress.remaining(frame), Some(&b"ef"[..]));
    assert!(!progress.on_written(6, 0));
    assert!(progress.on_written(6, 2));
    assert_eq!(progress.remaining(frame), None);
}

#[test]
fn early_runtime_wakeup_rearms_and_registers_again() {
    let mut timer = HeartbeatTimer::new(1000);
    assert!(!timer.before_wait(1000));
    // The runtime woke the reader, but the heartbeat clock still has time left.
    assert!(!timer.after_wakeup(1500, 1001));
    assert_eq!(timer.registered, 1500);
    assert!(timer.after_wakeup(1500, 1500));
    assert_eq!(remaining(1500, 1001), 499);
    assert_eq!(remaining(1500, 1501), 0);
}

#[test]
fn earlier_heartbeat_deadline_wakes_before_the_old_registration() {
    let mut timer = HeartbeatTimer::new(2000);
    assert!(timer.before_wait(1000));
    assert_eq!(timer.registered, 1000);
    assert!(timer.after_wakeup(1000, 1001));
    assert!(!timer.before_wait(3000));
    assert_eq!(timer.registered, 1000);
}

#[test]
fn close_reasons_are_cut_between_characters() {
    assert_eq!(bounded_close_reason("bye"), "bye");
    assert_eq!(bounded_close_reason(""), "");
    assert_eq!(bounded_close_reason(&"a".repeat(200)), "a".repeat(123));
    // Three bytes each: 41 of them fill the frame exactly.
    assert_eq!(bounded_close_reason(&"語".repeat(50)), "語".repeat(41));
    assert_eq!(bounded_close_reason(&format!("ab{}", "語".repeat(50))), format!("ab{}", "語".repeat(40)));
}

#[test]
fn compio_parses_leftover_bytes_first() {
    let leftover = Some(Bytes::from_static(b"\x82\x01x"));
    let mut ws = CompioWebSocketStream::server_with_leftover((), Config::default(), leftover);
    assert_eq!(ws.read_buffer_len(), 3);
    assert!(matches!(ws.next_action(), CompioAction::Parse));
    ws.read_buf_mut().clear();
    ws.on_parsed(queue(vec![Message::binary(vec![b'x'])]), None);
    assert!(matches!(ws.next_action(), CompioAction::Handle(_)));
    assert!(matches!(ws.next_action(), CompioAction::Read));
    ws.on_read();
    assert!(matches!(ws.next_action(), CompioAction::Parse));
}

#[test]
fn compio_sends_until_it_is_closed() {
    let mut ws = CompioWebSocketStream::client(5u8, Config::default());
    *ws.get_mut() = 6;
    assert_eq!(*ws.get_ref(), 6);
    let close = ws.close_message(1000, "bye").unwrap();
    assert!(matches!(&close, Message::Close(Some(CloseReason { code: 1000, .. }))));
    assert!(ws.start_send(&close).is_ok());
    assert!(ws.close_message(1000, "").is_none());
    assert!(ws.start_send(&binary(0)).is_ok());
    ws.queue_bytes(b"frame").unwrap();
    assert_eq!(ws.pending_bytes(), b"frame");
    assert_eq!(ws.write_buffer_len(), 5);
    ws.set_high_water_mark(4);
    ws.set_low_water_mark(4);
    assert!(ws.is_backpressured());
    assert!(!ws.is_write_buffer_low());
    ws.on_flushed();
    assert!(ws.pending_bytes().is_empty());
    assert!(matches!(ws.on_message(&Message::Close(None)), CompioAnswer::Nothing));
    assert!(ws.is_closed());
    assert!(matches!(ws.start_send(&binary(0)), Err(Error::ConnectionClosed)));
}

#[test]
fn compio_halves_answer_heartbeats_silently() {
    let mut ws = CompioWebSocketStream::client((), Config::default());
    ws.on_parsed(
        queue(vec![ping(b"1"), pong(b"2"), ping(b"3"), binary(b'x'), Message::Close(None), binary(b'y')]),
        None,
    );
    let (_, mut reader, mut writer) = ws.split();
    let (requests, action) = reader.next_action();
    assert!(matches!(action, CompioAction::Handle(m) if is_binary(&m, b'x')));
    assert_eq!(requests.len(), 2);
    assert!(matches!(&requests[0], CompioRequest::Pong(data) if &data[..] == b"1"));
    assert!(matches!(&requests[1], CompioRequest::Pong(data) if &data[..] == b"3"));
    for request in &requests {
        writer.on_request(request);
    }
    assert!(writer.check_send().is_ok());

    let (requests, action) = reader.next_action();
    assert!(matches!(action, CompioAction::Handle(Message::Close(_))));
    assert!(matches!(&requests[..], [CompioRequest::CloseResponse]));
    writer.on_request(&requests[0]);
    assert!(writer.is_closed());
    assert!(matches!(writer.check_send(), Err(Error::ConnectionClosed)));
    assert!(reader.is_closed());
    assert!(matches!(reader.next_action().1, CompioAction::End));
}

#[test]
fn compio_halves_read_and_write() {
    let ws = CompioWebSocketStream::server((), Config::default());
    let (_, mut reader, mut writer) = ws.split();
    assert!(matches!(reader.next_action().1, CompioAction::Read));
    reader.read_buf_mut().extend_from_slice(b"x");
    reader.on_read();
    assert!(matches!(reader.next_action().1, CompioAction::Parse));
    reader.on_parsed(queue(vec![ping(b"1")]), bad_opcode());
    let (requests, action) = reader.next_action();
    assert_eq!(requests.len(), 1);
    assert!(matches!(action, CompioAction::Fail(Error::InvalidFrame(_))));
    assert!(matches!(reader.next_action().1, CompioAction::End));

    writer.queue_bytes(b"frame").unwrap();
    assert_eq!(writer.pending_bytes(), b"frame");
    writer.on_flushed();
    assert!(writer.pending_bytes().is_empty());
    writer.on_send(&binary(0));
    assert!(!writer.is_closed());
    writer.on_send(&Message::Close(None));
    assert!(writer.is_closed());

    let (_, mut reader, _) = CompioWebSocketStream::server((), Config::default()).split();
    reader.on_closed();
    assert!(matches!(reader.next_action().1, CompioAction::End));
}

#[test]
fn compressed_connections_compress() {
    let deflate = DeflateConfig { compression_threshold: 0, ..Default::default() };
    let mut server = CompressedWebSocketStream::server((), Config::default(), deflate);
    let mut client = CompressedWebSocketStream::client((), Config::default(), deflate);
    let text = b"hello hello hello hello hello hello";
    let packed = server.context_mut().compress(text).unwrap().unwrap();
    assert_eq!(&client.context_mut().decompress(&packed, 100).unwrap()[..], text);
    server.connection_mut().queue_bytes(&packed).unwrap();
    assert_eq!(server.write_buffer_len(), packed.len());
    assert!(!server.is_backpressured());
    assert!(!server.is_closed());
    server.on_codec_closed();
    assert!(server.is_closed());
    client.connection_mut().on_closed();
    assert!(client.is_closed());
    let (connection, _) = client.into_layers();
    assert_eq!(connection.role(), Role::Client);

    let leftover = Some(Bytes::from_static(b"z"));
    let mut server =
        CompioCompressedWebSocketStream::server_with_leftover((), Config::default(), deflate, leftover);
    let mut client = CompioCompressedWebSocketStream::client((), Config::default(), deflate);
    let packed = client.context_mut().compress(text).unwrap().unwrap();
    assert_eq!(&server.context_mut().decompress(&packed, 100).unwrap()[..], text);
    assert_eq!(server.connection_mut().read_buffer_len(), 1);
    server.set_high_water_mark(0);
    server.set_low_water_mark(0);
    server.connection_mut().queue_bytes(b"a").unwrap();
    assert!(server.is_backpressured());
    assert_eq!(server.write_buffer_len(), 1);
    assert!(!server.is_closed());
    server.on_codec_closed();
    assert!(server.is_closed());
    assert_eq!(server.into_layers().0.role(), Role::Server);
}

#[test]
fn received_bytes_are_read_in_order() {
    let mut buffer = ReceiveBuffer::new();
    assert!(buffer.is_empty());
    buffer.accept(b"abc");
    buffer.accept(b"def");
    assert_eq!(&buffer.take(4)[..], b"abcd");
    assert_eq!(&buffer.take(4)[..], b"ef");
    assert_eq!(&buffer.take(4)[..], b"");
    assert!(!buffer.is_recv_finished());
    buffer.finish();
    assert!(buffer.is_recv_finished());
}

#[test]
fn uring_buffers_are_consumed() {
    let mut stream = UringStream::new("socket");
    assert_eq!(*stream.get_ref(), "socket");
    assert!(!stream.has_buffered_data());
    stream.on_read(b"abcdef__".to_vec(), 6);
    assert!(stream.has_buffered_data());
    assert_eq!(stream.take_buffered(4), b"abcd");
    assert_eq!(stream.take_buffered(4), b"ef");
    assert!(!stream.has_buffered_data());

    let mut adapter = UringStreamAdapter::new(stream);
    assert!(adapter.buffered_data().is_empty());
    adapter.on_read(b"abcdef__".to_vec(), 6);
    adapter.consume(2);
    assert_eq!(adapter.buffered_data(), b"cdef");
    adapter.consume(usize::MAX);
    assert!(adapter.buffered_data().is_empty());
}

#[test]
fn compio_handshakes_echo_what_was_asked() {
    let key = key_from_bytes(&[3; 16]);
    let sent = build_request("example.com", "/ws", &key, Some("chat"), None).unwrap();
    let (request, _) = parse_request(&sent).unwrap().unwrap();
    let (reply, result) = accept_handshake(&request, Some("permessage-deflate")).unwrap();
    assert_eq!(result.path, "/ws");
    assert_eq!(result.protocol.as_deref(), Some("chat"));
    assert!(result.extensions.is_none());
    let (response, _) = parse_response(&reply).unwrap().unwrap();
    assert_eq!(response.protocol, Some("chat"));
    assert_eq!(response.extensions, Some("permessage-deflate"));
    assert!(check_accept(&key, &response).is_ok());
    assert!(matches!(
        check_accept(&key_from_bytes(&[4; 16]), &response),
        Err(Error::HandshakeFailed("invalid Sec-WebSocket-Accept"))
    ));

    let sent = build_request("example.com", "/ws", &key, Some("a, b"), None).unwrap();
    let (request, _) = parse_request(&sent).unwrap().unwrap();
    assert!(matches!(accept_handshake(&request, None), Err(Error::InvalidHttp(_))));
}

#[test]
fn a_compio_handshake_completes_byte_by_byte() {
    let key = key_from_bytes(&[3; 16]);
    let (mut client, request) =
        CompioClientHandshake::start("example.com", "/ws", key, Some("chat")).unwrap();
    let mut sent = request.to_vec();
    sent.extend_from_slice(b"early");
    let mut server = CompioServerHandshake::new();
    assert!(server.allowance().is_ok());
    let last = request.len() - 1;
    for byte in &sent[..last] {
        assert!(server.on_read(&[*byte], None).unwrap().is_none());
    }
    let (reply, served) = server.on_read(&sent[last..], None).unwrap().unwrap();
    assert_eq!((&served.path[..], served.protocol.as_deref()), ("/ws", Some("chat")));
    assert_eq!(&served.leftover.unwrap()[..], b"early");

    let last = reply.len() - 1;
    for byte in &reply[..last] {
        assert!(client.on_read(&[*byte]).unwrap().is_none());
    }
    let done = client.on_read(&reply[last..]).unwrap().unwrap();
    assert_eq!((&done.path[..], done.protocol.as_deref()), ("/ws", Some("chat")));
    assert!(done.leftover.is_none());

    let other = key_from_bytes(&[4; 16]);
    let (mut client, _) = CompioClientHandshake::start("example.com", "/ws", other, None).unwrap();
    assert!(matches!(
        client.on_read(&reply),
        Err(Error::HandshakeFailed("invalid Sec-WebSocket-Accept"))
    ));
    assert!(matches!(client.on_read(b""), Err(Error::ConnectionClosed)));
    assert!(matches!(server.on_read(b"", None), Err(Error::ConnectionClosed)));
    let two = build_request("example.com", "/", &key_from_bytes(&[5; 16]), Some("a, b"), None);
    let mut server = CompioServerHandshake::new();
    assert!(matches!(server.on_read(&two.unwrap(), None), Err(Error::InvalidHttp(_))));
    let mut server = CompioServerHandshake::new();
    assert!(matches!(server.on_read(&[b'a'; 8193], None), Err(Error::InvalidHttp(_))));
    assert!(matches!(server.allowance(), Err(Error::InvalidHttp("request too large"))));
}
