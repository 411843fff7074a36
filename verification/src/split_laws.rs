//! What the halves of a split connection and their driver do, over any run of
//! events.

use crate::buffers::contents;
use crate::error::Error;
use crate::protocol::MessageView;
use crate::split::{
    cause_error, closing, driver_next, error_now, is_parse, is_progress, is_split, reader_next,
    requests, sending, shared_at_first, terminated, turn_of, unwritten, ControlRequest,
    DriverAction, DriverEvent, DriverState, DriverTurn, ReaderView, Ready, SplitAction, SplitShared,
    SplitState, TerminalCause, WriteProgress,
};
use crate::stream::{ConnectionView, StreamState, Timeout};
use vstd::prelude::*;

verus! {

/// A driver and what it shares with the halves.
pub struct Drive {
    /// The driver.
    pub driver: DriverState,
    /// What is shared.
    pub shared: SplitShared,
}

/// Whether `states` are those between events.
pub open spec fn is_drive(states: Seq<Drive>, events: Seq<DriverEvent>) -> bool {
    &&& states.len() == events.len() + 1
    &&& forall|i: int|
        0 <= i < events.len() ==> is_drive_step(states[i], #[trigger] events[i], states[i + 1])
}

/// Whether an event takes the driver from `before` to `after`.
pub open spec fn is_drive_step(before: Drive, event: DriverEvent, after: Drive) -> bool {
    let (driver, shared, _) = driver_next(before.driver, before.shared, event);
    after.driver == driver && after.shared == shared
}

/// Whether a driver has just been started.
pub open spec fn is_started(d: DriverState) -> bool {
    !d.local_close_sent && !d.awaiting_close && d.ending is None
}

/// Whether one of the first `n` events is a completed close.
pub open spec fn close_completed(events: Seq<DriverEvent>, n: int) -> bool {
    exists|i: int| 0 <= i < n && #[trigger] events[i] == DriverEvent::Done(true)
}

/// Whether one of the first `n` events asked for a close while the connection was
/// open.
pub open spec fn close_begun(states: Seq<Drive>, events: Seq<DriverEvent>, n: int) -> bool {
    exists|i: int|
        0 <= i < n && #[trigger] events[i] == DriverEvent::Send(true) && states[i].shared.status
            == SplitState::Open
}

/// The answer to a close is awaited exactly where this side has completed one, and
/// counts as sent exactly where one was asked for while the connection was open.
pub proof fn law_close_is_awaited_only_after_one(
    states: Seq<Drive>,
    events: Seq<DriverEvent>,
    n: int,
)
    requires
        is_drive(states, events),
        is_started(states[0].driver),
        0 <= n <= events.len(),
    ensures
        states[n].driver.awaiting_close <==> close_completed(events, n),
        states[n].driver.local_close_sent <==> close_begun(states, events, n),
    decreases n,
{
    if n > 0 {
        law_close_is_awaited_only_after_one(states, events, n - 1);
        let e = events[n - 1];
        assert(is_drive_step(states[n - 1], events[n - 1], states[n]));
        if close_completed(events, n) && !close_completed(events, n - 1) {
            let i = choose|i: int| 0 <= i < n && #[trigger] events[i] == DriverEvent::Done(true);
            assert(i == n - 1);
        }
        if close_completed(events, n - 1) {
            let i = choose|i: int|
                0 <= i < n - 1 && #[trigger] events[i] == DriverEvent::Done(true);
            assert(events[i] == DriverEvent::Done(true));
        }
        if e == DriverEvent::Done(true) {
            assert(close_completed(events, n));
        }
        if close_begun(states, events, n) && !close_begun(states, events, n - 1) {
            let i = choose|i: int|
                0 <= i < n && #[trigger] events[i] == DriverEvent::Send(true)
                    && states[i].shared.status == SplitState::Open;
            assert(i == n - 1);
        }
        if close_begun(states, events, n - 1) {
            let i = choose|i: int|
                0 <= i < n - 1 && #[trigger] events[i] == DriverEvent::Send(true)
                    && states[i].shared.status == SplitState::Open;
            assert(events[i] == DriverEvent::Send(true));
        }
        if e == DriverEvent::Send(true) && states[n - 1].shared.status == SplitState::Open {
            assert(close_begun(states, events, n));
        }
    }
}

/// Where a close is completed only after it was asked for, the answer is awaited only
/// by a driver that has sent one.
pub proof fn law_awaiting_implies_sent(states: Seq<Drive>, events: Seq<DriverEvent>, n: int)
    requires
        is_drive(states, events),
        is_started(states[0].driver),
        0 <= n <= events.len(),
        forall|i: int|
            0 <= i < events.len() && #[trigger] events[i] == DriverEvent::Done(true)
                ==> close_begun(states, events, i),
        states[n].driver.awaiting_close,
    ensures
        states[n].driver.local_close_sent,
{
    law_close_is_awaited_only_after_one(states, events, n);
    let i = choose|i: int| 0 <= i < n && #[trigger] events[i] == DriverEvent::Done(true);
    assert(close_begun(states, events, i));
    let j = choose|j: int|
        0 <= j < i && #[trigger] events[j] == DriverEvent::Send(true) && states[j].shared.status
            == SplitState::Open;
    assert(events[j] == DriverEvent::Send(true));
    assert(close_begun(states, events, n));
}

/// A message that was written, a ping, a pong, a flush, and anything that arrives
/// leave the driver and the connection as they were.
pub proof fn law_ordinary_events_change_nothing(d: DriverState, shared: SplitShared)
    ensures
        driver_next(d, shared, DriverEvent::Done(false)) == (d, shared, DriverAction::Continue),
        driver_next(d, shared, DriverEvent::Activity) == (d, shared, DriverAction::Note),
        driver_next(d, shared, DriverEvent::Pong) == (d, shared, DriverAction::Note),
        driver_next(d, shared, DriverEvent::Ping) == (d, shared, DriverAction::WritePong),
        driver_next(d, shared, DriverEvent::Flush) == (d, shared, DriverAction::Flush),
        driver_next(d, shared, DriverEvent::PingDue).0 == d,
        driver_next(d, shared, DriverEvent::PingDue).1 == shared,
        driver_next(d, shared, DriverEvent::Send(false)).0 == d,
        driver_next(d, shared, DriverEvent::Send(false)).1 == shared,
        driver_next(d, shared, DriverEvent::Done(true)).1 == shared,
        driver_next(d, shared, DriverEvent::Done(true)).0.local_close_sent == d.local_close_sent,
        driver_next(d, shared, DriverEvent::Done(true)).0.ending == d.ending,
{
}

/// When the driver does what: messages are written exactly while the connection is
/// open and refused otherwise, pings are answered, a peer's close is answered exactly
/// where none was sent, and the driver stops exactly when the connection is over.
pub proof fn law_driver_actions(d: DriverState, shared: SplitShared, event: DriverEvent)
    ensures
        ({
            let action = driver_next(d, shared, event).2;
            let open = shared.status == SplitState::Open;
            &&& action == DriverAction::Write <==> event is Send && open
            &&& action == DriverAction::Refuse <==> event is Send && !open
            &&& action == DriverAction::WritePong <==> event == DriverEvent::Ping
            &&& action == DriverAction::WritePing <==> event == DriverEvent::PingDue && open
            &&& action == DriverAction::Flush <==> event == DriverEvent::Flush
            &&& action == DriverAction::RespondAndShutdown <==> event == DriverEvent::PeerClose
                && !d.local_close_sent
            &&& action == DriverAction::Shutdown <==> event == DriverEvent::CloseTimeout || event
                == DriverEvent::PeerClose && d.local_close_sent
            &&& action is TimeoutClose <==> event is Expired && open
            &&& forall|t: Timeout|
                action == DriverAction::TimeoutClose(t) ==> event == DriverEvent::Expired(t)
            &&& action == DriverAction::Stop <==> event == DriverEvent::Cancelled || event
                == DriverEvent::ReaderGone || event == DriverEvent::WriterGone || event
                == DriverEvent::Eof || event == DriverEvent::Failed || event == DriverEvent::Ended
        }),
{
}

/// An open connection stays open unless a close is sent or the driver stops; a close
/// that is sent leaves it closing.
pub proof fn law_connection_stays_open(d: DriverState, shared: SplitShared, event: DriverEvent)
    requires
        shared.status == SplitState::Open,
    ensures
        ({
            let (_, after, action) = driver_next(d, shared, event);
            &&& after == shared <==> event != DriverEvent::Send(true) && action
                != DriverAction::Stop
            &&& event == DriverEvent::Send(true) ==> after.status == SplitState::Closing
                && after.cause == shared.cause
        }),
{
}

/// The cause that is reported is the one for which the driver began to end the
/// connection, and otherwise that it was closed.
pub proof fn law_reported_cause(d: DriverState, shared: SplitShared, timeout: Timeout)
    requires
        shared.status == SplitState::Open,
    ensures
        ({
            let (d1, s1, _) = driver_next(d, shared, DriverEvent::Expired(timeout));
            let (_, s2, _) = driver_next(d1, s1, DriverEvent::Ended);
            s2.cause == Some(
                match timeout {
                    Timeout::Pong => TerminalCause::HeartbeatTimeout,
                    Timeout::Idle => TerminalCause::IdleTimeout,
                },
            )
        }),
        ({
            let (d1, s1, _) = driver_next(d, shared, DriverEvent::PeerClose);
            let (_, s2, _) = driver_next(d1, s1, DriverEvent::Ended);
            s2.cause == Some(TerminalCause::ConnectionClosed)
        }),
        ({
            let (d1, s1, _) = driver_next(d, shared, DriverEvent::CloseTimeout);
            let (_, s2, _) = driver_next(d1, s1, DriverEvent::Ended);
            s2.cause == Some(TerminalCause::ConnectionClosed)
        }),
        d.ending is None ==> driver_next(d, shared, DriverEvent::Ended).1.cause == Some(
            TerminalCause::ConnectionClosed,
        ),
        driver_next(d, shared, DriverEvent::Eof).1.cause == Some(TerminalCause::ConnectionClosed),
        driver_next(d, shared, DriverEvent::Failed).1.cause == Some(
            TerminalCause::ConnectionClosed,
        ),
        cause_error(TerminalCause::HeartbeatTimeout) == Error::HeartbeatTimeout,
        cause_error(TerminalCause::IdleTimeout) == Error::IdleTimeout,
        cause_error(TerminalCause::ConnectionClosed) == Error::ConnectionClosed,
{
}

/// An end is final: the first cause stays, whatever comes later.
pub proof fn law_end_is_final(s: SplitShared, a: TerminalCause, b: TerminalCause)
    ensures
        terminated(terminated(s, a), b) == terminated(s, a),
        terminated(s, a).status == SplitState::Closed,
        s.status != SplitState::Closed ==> terminated(s, a).cause == Some(a),
        closing(terminated(s, a)) == terminated(s, a),
        closing(closing(s)) == closing(s),
        closing(s).status != SplitState::Open,
        s.status != SplitState::Open ==> closing(s) == s,
        closing(s).cause == s.cause,
{
}

/// What the driver attends to first: a cancellation before everything, then the
/// reader, then the writer, then the deadline of a close, then the heartbeat; the
/// writer and the heartbeat only while the connection is open.
pub proof fn law_driver_turns(ready: Ready, open: bool)
    ensures
        turn_of(ready, open) == DriverTurn::Cancel <==> ready.cancelled,
        turn_of(ready, open) == DriverTurn::Control <==> ready.control && !ready.cancelled,
        turn_of(ready, open) == DriverTurn::Application <==> ready.application && open
            && !ready.control && !ready.cancelled,
        turn_of(ready, open) == DriverTurn::CloseDeadline <==> ready.close_deadline && !(
        ready.application && open) && !ready.control && !ready.cancelled,
        turn_of(ready, open) == DriverTurn::Heartbeat <==> ready.heartbeat && open
            && !ready.close_deadline && !ready.application && !ready.control && !ready.cancelled,
        turn_of(ready, open) == DriverTurn::Wait ==> !ready.cancelled && !ready.control
            && !ready.close_deadline && (open ==> !ready.application && !ready.heartbeat),
{
}

/// What a reader reports of a message names its kind and carries its payload.
pub proof fn law_requests_name_the_message(m: MessageView, r: ControlRequest)
    requires
        requests(m, r),
    ensures
        r is Ping <==> m is Ping,
        r is Pong <==> m is Pong,
        r is PeerClose <==> m is Close,
        r is Activity <==> m is Text || m is Binary,
        !(r is Eof),
        r matches ControlRequest::Ping(b) ==> m == MessageView::Ping(contents(b)),
        r matches ControlRequest::Pong(b) ==> m == MessageView::Pong(contents(b)),
{
}

/// A step of the reading half.
pub enum SplitStep {
    /// Messages were parsed.
    Parsed(Seq<MessageView>),
    /// The next action was asked for.
    Next(SplitAction),
}

/// The reading half and what is shared.
pub struct Reading {
    /// The reading half.
    pub reader: ReaderView,
    /// What is shared.
    pub shared: SplitShared,
}

/// Whether `states` are those between steps.
pub open spec fn is_split_reading(states: Seq<Reading>, steps: Seq<SplitStep>) -> bool {
    &&& states.len() == steps.len() + 1
    &&& forall|i: int|
        0 <= i < steps.len() ==> is_split_step(states[i], #[trigger] steps[i], states[i + 1])
}

/// Whether a step takes the reading half from `before` to `after`. What is shared may
/// change in between.
pub open spec fn is_split_step(before: Reading, step: SplitStep, after: Reading) -> bool {
    match step {
        SplitStep::Parsed(messages) => is_parse(before.reader, messages, after.reader),
        SplitStep::Next(r) => exists|shared: SplitShared| #[trigger]
            reader_next(before.reader, before.shared, r, after.reader, shared),
    }
}

/// The messages that were parsed, in order.
pub open spec fn parsed(steps: Seq<SplitStep>) -> Seq<MessageView>
    decreases steps.len(),
{
    if steps.len() == 0 {
        Seq::empty()
    } else {
        match steps.last() {
            SplitStep::Parsed(messages) => parsed(steps.drop_last()) + messages,
            _ => parsed(steps.drop_last()),
        }
    }
}

/// The messages that were delivered, in order.
pub open spec fn delivered(steps: Seq<SplitStep>) -> Seq<MessageView>
    decreases steps.len(),
{
    if steps.len() == 0 {
        Seq::empty()
    } else {
        match steps.last() {
            SplitStep::Next(SplitAction::Deliver(m, _)) => delivered(steps.drop_last()).push(m@),
            _ => delivered(steps.drop_last()),
        }
    }
}

/// Up to a close, every message that is parsed is delivered once, in order: those
/// delivered, followed by those that wait, are those that waited at first, followed
/// by those that were parsed.
pub proof fn law_split_messages_are_delivered_in_order(states: Seq<Reading>, steps: Seq<SplitStep>)
    requires
        is_split_reading(states, steps),
        forall|i: int|
            0 <= i < steps.len() ==> (#[trigger] steps[i] matches SplitStep::Next(
                SplitAction::Deliver(m, _),
            ) ==> !(m@ is Close)),
    ensures
        delivered(steps) + states.last().reader.queue == states[0].reader.queue + parsed(steps),
    decreases steps.len(),
{
    if steps.len() == 0 {
        assert(delivered(steps) + states.last().reader.queue =~= states[0].reader.queue + parsed(
            steps,
        ));
    } else {
        let k = steps.len() - 1;
        let earlier_steps = steps.drop_last();
        let earlier = states.drop_last();
        assert forall|i: int| 0 <= i < earlier_steps.len() implies is_split_step(
            earlier[i],
            #[trigger] earlier_steps[i],
            earlier[i + 1],
        ) by {
            assert(earlier_steps[i] == steps[i]);
        }
        assert forall|i: int| 0 <= i < earlier_steps.len() implies (#[trigger] earlier_steps[i]
            matches SplitStep::Next(SplitAction::Deliver(m, _)) ==> !(m@ is Close)) by {
            assert(earlier_steps[i] == steps[i]);
        }
        law_split_messages_are_delivered_in_order(earlier, earlier_steps);
        let (before, after) = (states[k], states[k + 1]);
        assert(earlier.last() == before);
        assert(is_split_step(before, steps[k], after));
        let (d, p) = (delivered(earlier_steps), parsed(earlier_steps));
        match steps[k] {
            SplitStep::Parsed(messages) => {
                assert(d + (before.reader.queue + messages) =~= (d + before.reader.queue)
                    + messages);
                assert((states[0].reader.queue + p) + messages =~= states[0].reader.queue + (p
                    + messages));
            },
            SplitStep::Next(r) => {
                let shared = choose|shared: SplitShared| #[trigger]
                    reader_next(before.reader, before.shared, r, after.reader, shared);
                if let SplitAction::Deliver(m, _) = r {
                    assert(steps[k] matches SplitStep::Next(SplitAction::Deliver(m, _)) ==> !(m@
                        is Close));
                    assert(before.reader.queue =~= seq![m@] + after.reader.queue);
                    assert(d.push(m@) + after.reader.queue =~= d + before.reader.queue);
                } else {
                    assert(after.reader.queue == before.reader.queue);
                }
            },
        }
    }
}

/// When the reading half does what: it delivers messages as long as there are any,
/// unless the connection is over for another reason than a failure behind them; it
/// reports that failure next; it reports a timeout once, and then the end; and it
/// reads only from a connection that is not over.
pub proof fn law_split_reader_turns(
    v: ReaderView,
    shared: SplitShared,
    r: SplitAction,
    after: ReaderView,
    shared_after: SplitShared,
)
    requires
        reader_next(v, shared, r, after, shared_after),
    ensures
        r is Deliver <==> v.queue.len() > 0 && (v.failure is Some || shared.status
            != SplitState::Closed),
        r is Read <==> v.queue.len() == 0 && v.failure is None && shared.status
            != SplitState::Closed,
        r is Fail ==> after.reported,
        r is End ==> shared.status == SplitState::Closed && v.failure is None && after.reported,
        r is End || r is Read ==> shared_after == shared,
        r matches SplitAction::Deliver(m, request) ==> m@ == v.queue[0] && requests(m@, request),
        r matches SplitAction::Deliver(m, _) ==> (m@ is Close ==> shared_after.status
            != SplitState::Open),
        r is Fail && v.failure is Some ==> r == SplitAction::Fail(v.failure->0)
            && shared_after.status == SplitState::Closed,
{
}

/// Messages may be sent exactly while the connection is open. From the close on, or
/// from the end on, sending is refused: with the error of the first cause once the
/// connection is over.
pub proof fn law_sending_is_refused_after_the_end(s: SplitShared, cause: TerminalCause)
    requires
        crate::split::shared_wf(s),
    ensures
        sending(s) is Ok <==> s.status == SplitState::Open,
        sending(closing(s)) is Err,
        s.status == SplitState::Open ==> sending(closing(s)) == Err::<(), Error>(
            Error::ConnectionClosed,
        ),
        s.status != SplitState::Closed ==> sending(terminated(s, cause)) == Err::<(), Error>(
            cause_error(cause),
        ),
        s.status == SplitState::Closed ==> sending(terminated(s, cause)) == sending(s),
        sending(s) matches Err(e) ==> e == error_now(s),
        s.cause is None ==> error_now(s) == Error::ConnectionClosed,
{
}

/// A connection that is split while it is open stays open; any other is over.
pub proof fn law_splitting_keeps_what_was_received(
    c: ConnectionView,
    reader: ReaderView,
    shared: SplitShared,
)
    requires
        is_split(c, reader, shared),
    ensures
        reader.queue == c.queue,
        reader.failure == c.failure,
        !reader.reported,
        sending(shared) is Ok <==> c.state == StreamState::Open,
        c.state != StreamState::Open ==> sending(shared) == Err::<(), Error>(
            Error::ConnectionClosed,
        ) && shared.status == SplitState::Closed,
        crate::split::shared_wf(shared),
        sending(shared_at_first(false)) is Ok,
        sending(shared_at_first(true)) is Err,
{
}

/// The parts of a frame that are written follow one another: those written before,
/// the next one, and what is then left are the frame.
pub proof fn law_frame_is_written_in_order(
    bytes: Seq<u8>,
    before: WriteProgress,
    count: nat,
    after: WriteProgress,
)
    requires
        is_progress(before, count, after),
        after.written <= bytes.len(),
    ensures
        unwritten(before, bytes) == unwritten(before, bytes).take(count as int) + unwritten(
            after,
            bytes,
        ),
        before.written == 0 ==> unwritten(before, bytes) == bytes,
        unwritten(after, bytes).len() == 0 <==> after.written == bytes.len(),
        unwritten(before, bytes).len() == unwritten(after, bytes).len() + count,
{
    assert(unwritten(before, bytes) =~= unwritten(before, bytes).take(count as int) + unwritten(
        after,
        bytes,
    ));
    if before.written == 0 {
        assert(bytes.skip(0) =~= bytes);
    }
}

/// Behind a close nothing is delivered. The cause of an ended connection is reported
/// as an error where it is a timeout, and only once; else as the end of the stream.
pub proof fn law_split_reader_ends(
    v: ReaderView,
    shared: SplitShared,
    r: SplitAction,
    after: ReaderView,
    shared_after: SplitShared,
)
    requires
        reader_next(v, shared, r, after, shared_after),
    ensures
        r matches SplitAction::Deliver(m, _) ==> if m@ is Close {
            after.queue.len() == 0 && after.failure is None && sending(shared_after) is Err
        } else {
            v.queue == seq![m@] + after.queue && after.failure == v.failure && shared_after
                == shared
        },
        v.failure is None && shared.status == SplitState::Closed ==> match shared.cause {
            Some(TerminalCause::HeartbeatTimeout) => if v.reported {
                r is End
            } else {
                r == SplitAction::Fail(Error::HeartbeatTimeout)
            },
            Some(TerminalCause::IdleTimeout) => if v.reported {
                r is End
            } else {
                r == SplitAction::Fail(Error::IdleTimeout)
            },
            _ => r is End,
        },
        r is Fail ==> after.reported && after.failure is None,
        v.reported ==> after.reported,
        !(r is Fail) && !(r is End) ==> after.reported == v.reported,
{
    if let SplitAction::Deliver(m, _) = r {
        if !(m@ is Close) {
            assert(v.queue =~= seq![m@] + v.queue.skip(1));
        }
    }
}

/// Writing goes on exactly where less is left than before.
pub proof fn law_writing_makes_progress(
    bytes: Seq<u8>,
    before: WriteProgress,
    count: nat,
    after: WriteProgress,
)
    requires
        is_progress(before, count, after),
        after.written <= bytes.len(),
    ensures
        crate::split::goes_on(count) <==> unwritten(after, bytes).len() < unwritten(
            before,
            bytes,
        ).len(),
{
}

} // verus!
