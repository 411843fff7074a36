//! What a connection does with messages and bytes, over any run of its steps.

use crate::error::Error;
use crate::protocol::MessageView;
use crate::stream::{
    are_marks_set, default_builder, fits_close, flush_next, is_above, is_answer_to,
    is_bounded_reason, is_close_message, is_failure_step, is_life_step, is_low, is_read_step, is_release,
    is_write_step, new_connection, next_read, queue_result, send_result, state_with, timeout_error,
    ConnectionView, FailureStep, FlushAction, FlushEvent, Flushed, LifeStep, MessageAction, ReadStep, ReadTurn,
    StreamState, Timeout, WriteStep, DEFAULT_HIGH_WATER_MARK, DEFAULT_LOW_WATER_MARK,
};
use crate::Config;
use vstd::prelude::*;

verus! {

/// Whether `states` are those of a connection between reading steps.
pub open spec fn is_reading(states: Seq<ConnectionView>, steps: Seq<ReadStep>) -> bool {
    &&& states.len() == steps.len() + 1
    &&& forall|i: int|
        0 <= i < steps.len() ==> is_read_step(states[i], #[trigger] steps[i], states[i + 1])
}

/// The messages that were received, in order.
pub open spec fn received(steps: Seq<ReadStep>) -> Seq<MessageView>
    decreases steps.len(),
{
    if steps.len() == 0 {
        Seq::empty()
    } else {
        match steps.last() {
            ReadStep::Received(messages) => received(steps.drop_last()) + messages,
            _ => received(steps.drop_last()),
        }
    }
}

/// The messages that were taken out to be handled, in order.
pub open spec fn taken(steps: Seq<ReadStep>) -> Seq<MessageView>
    decreases steps.len(),
{
    if steps.len() == 0 {
        Seq::empty()
    } else {
        match steps.last() {
            ReadStep::Taken(message) => taken(steps.drop_last()).push(message),
            _ => taken(steps.drop_last()),
        }
    }
}

/// The messages that were held back, in order.
pub open spec fn held(steps: Seq<ReadStep>) -> Seq<MessageView>
    decreases steps.len(),
{
    if steps.len() == 0 {
        Seq::empty()
    } else {
        match steps.last() {
            ReadStep::Held(message) => held(steps.drop_last()).push(message),
            _ => held(steps.drop_last()),
        }
    }
}

/// The messages that were held back and then delivered, in order.
pub open spec fn released(steps: Seq<ReadStep>) -> Seq<MessageView>
    decreases steps.len(),
{
    if steps.len() == 0 {
        Seq::empty()
    } else {
        match steps.last() {
            ReadStep::Released(Some(message)) => released(steps.drop_last()).push(message),
            _ => released(steps.drop_last()),
        }
    }
}

/// One optional message.
pub open spec fn optional(m: Option<MessageView>) -> Seq<MessageView> {
    match m {
        Some(x) => seq![x],
        None => Seq::empty(),
    }
}

/// Every message that is received is handled once, in order: those taken out,
/// followed by those that wait, are those that waited at first, followed by those
/// that were received. And every message that is held back is delivered once, in
/// order.
pub proof fn law_messages_are_handled_in_order(states: Seq<ConnectionView>, steps: Seq<ReadStep>)
    requires
        is_reading(states, steps),
    ensures
        taken(steps) + states.last().queue == states[0].queue + received(steps),
        released(steps) + optional(states.last().control) == optional(states[0].control) + held(
            steps,
        ),
    decreases steps.len(),
{
    if steps.len() == 0 {
        assert(taken(steps) + states.last().queue =~= states[0].queue + received(steps));
        assert(released(steps) + optional(states.last().control) =~= optional(states[0].control)
            + held(steps));
    } else {
        let k = steps.len() - 1;
        let earlier_steps = steps.drop_last();
        let earlier = states.drop_last();
        assert forall|i: int| 0 <= i < earlier_steps.len() implies is_read_step(
            earlier[i],
            #[trigger] earlier_steps[i],
            earlier[i + 1],
        ) by {
            assert(earlier_steps[i] == steps[i]);
        }
        law_messages_are_handled_in_order(earlier, earlier_steps);
        assert(is_read_step(states[k], steps[k], states[k + 1]));
        let (before, after) = (states[k], states[k + 1]);
        assert(earlier.last() == before);
        let (t, r) = (taken(earlier_steps), received(earlier_steps));
        let (h, l) = (held(earlier_steps), released(earlier_steps));
        let first = optional(states[0].control);
        match steps[k] {
            ReadStep::Received(messages) => {
                assert(t + (before.queue + messages) =~= (t + before.queue) + messages);
                assert((states[0].queue + r) + messages =~= states[0].queue + (r + messages));
            },
            ReadStep::Taken(message) => {
                assert(t.push(message) + after.queue =~= t + (seq![message] + after.queue));
            },
            ReadStep::Held(message) => {
                assert(l + optional(after.control) =~= (l + optional(before.control)).push(message));
                assert(first + h.push(message) =~= (first + h).push(message));
            },
            ReadStep::Released(Some(message)) => {
                assert(l.push(message) + optional(after.control) =~= l + optional(before.control));
            },
            _ => {},
        }
    }
}

/// Whether `states` are those of a connection between writing steps.
pub open spec fn is_writing(states: Seq<ConnectionView>, steps: Seq<WriteStep>) -> bool {
    &&& states.len() == steps.len() + 1
    &&& forall|i: int|
        0 <= i < steps.len() ==> is_write_step(states[i], #[trigger] steps[i], states[i + 1])
}

/// The bytes that were queued, in order.
pub open spec fn queued(steps: Seq<WriteStep>) -> Seq<u8>
    decreases steps.len(),
{
    if steps.len() == 0 {
        Seq::empty()
    } else {
        match steps.last() {
            WriteStep::Queued(data) => queued(steps.drop_last()) + data,
            _ => queued(steps.drop_last()),
        }
    }
}

/// The bytes that the socket took, in order.
pub open spec fn sent(steps: Seq<WriteStep>) -> Seq<u8>
    decreases steps.len(),
{
    if steps.len() == 0 {
        Seq::empty()
    } else {
        match steps.last() {
            WriteStep::Took(data) => sent(steps.drop_last()) + data,
            _ => sent(steps.drop_last()),
        }
    }
}

/// Every byte that is queued is sent once, in order: what the socket took, followed
/// by what is pending, is what was pending at first, followed by what was queued.
pub proof fn law_bytes_are_sent_in_order(states: Seq<ConnectionView>, steps: Seq<WriteStep>)
    requires
        is_writing(states, steps),
    ensures
        sent(steps) + states.last().pending == states[0].pending + queued(steps),
    decreases steps.len(),
{
    if steps.len() == 0 {
        assert(sent(steps) + states.last().pending =~= states[0].pending + queued(steps));
    } else {
        let k = steps.len() - 1;
        let earlier_steps = steps.drop_last();
        let earlier = states.drop_last();
        assert forall|i: int| 0 <= i < earlier_steps.len() implies is_write_step(
            earlier[i],
            #[trigger] earlier_steps[i],
            earlier[i + 1],
        ) by {
            assert(earlier_steps[i] == steps[i]);
        }
        law_bytes_are_sent_in_order(earlier, earlier_steps);
        assert(is_write_step(states[k], steps[k], states[k + 1]));
        let (before, after) = (states[k], states[k + 1]);
        assert(earlier.last() == before);
        let (s, q) = (sent(earlier_steps), queued(earlier_steps));
        match steps[k] {
            WriteStep::Queued(data) => {
                assert(s + (before.pending + data) =~= (s + before.pending) + data);
                assert((states[0].pending + q) + data =~= states[0].pending + (q + data));
            },
            WriteStep::Took(data) => {
                assert((s + data) + after.pending =~= s + (data + after.pending));
            },
            WriteStep::Other => {},
        }
    }
}

/// Whether `states` are those of a connection on the way through a flush, in which
/// the socket takes no more than there is.
pub open spec fn is_flushing(states: Seq<ConnectionView>, events: Seq<FlushEvent>) -> bool {
    &&& states.len() == events.len() + 1
    &&& forall|i: int|
        0 <= i < events.len() ==> states[i + 1] == flush_next(states[i], #[trigger] events[i]).0
    &&& forall|i: int|
        0 <= i < events.len() ==> (#[trigger] events[i] matches FlushEvent::Written(n) ==> n
            <= states[i].pending.len())
}

/// How many bytes the socket was reported to take.
pub open spec fn reported(events: Seq<FlushEvent>) -> int
    decreases events.len(),
{
    if events.len() == 0 {
        0
    } else {
        reported(events.drop_last()) + (match events.last() {
            FlushEvent::Written(n) => n as int,
            _ => 0,
        })
    }
}

/// Over any flush, what the socket was reported to take, followed by what is pending
/// afterwards, is what was pending before; and a flush is done only where all of it
/// was taken.
pub proof fn law_flush_loses_nothing(states: Seq<ConnectionView>, events: Seq<FlushEvent>)
    requires
        is_flushing(states, events),
    ensures
        0 <= reported(events) <= states[0].pending.len(),
        states.last().pending == states[0].pending.skip(reported(events)),
        states.last().queue == states[0].queue,
        states.last().control == states[0].control,
        flush_next(states.last(), FlushEvent::Flushed).1 == FlushAction::Done <==> reported(events)
            == states[0].pending.len(),
    decreases events.len(),
{
    let first = states[0].pending;
    if events.len() == 0 {
        assert(first.skip(0) =~= first);
    } else {
        let k = events.len() - 1;
        let earlier_events = events.drop_last();
        let earlier = states.drop_last();
        assert forall|i: int| 0 <= i < earlier_events.len() implies earlier[i + 1] == flush_next(
            earlier[i],
            #[trigger] earlier_events[i],
        ).0 by {
            assert(earlier_events[i] == events[i]);
        }
        assert forall|i: int| 0 <= i < earlier_events.len() implies (#[trigger] earlier_events[i]
            matches FlushEvent::Written(n) ==> n <= earlier[i].pending.len()) by {
            assert(earlier_events[i] == events[i]);
        }
        law_flush_loses_nothing(earlier, earlier_events);
        let before = states[k];
        assert(earlier.last() == before);
        assert(states[k + 1] == flush_next(before, events[k]).0);
        let m = reported(earlier_events);
        if let FlushEvent::Written(n) = events[k] {
            assert(events[k] matches FlushEvent::Written(n) ==> n <= states[k].pending.len());
            law_written_part_is_gone(before, n);
            assert(first.skip(m).skip(n as int) =~= first.skip(m + n));
        }
    }
}

/// Where the socket takes a part, exactly the rest is left, and is written next;
/// where it takes all, the socket is flushed; where it takes nothing, the connection
/// is closed.
pub proof fn law_written_part_is_gone(c: ConnectionView, n: usize)
    ensures
        n <= c.pending.len() ==> c.pending.take(n as int) + flush_next(
            c,
            FlushEvent::Written(n),
        ).0.pending == c.pending,
        0 < n < c.pending.len() ==> flush_next(c, FlushEvent::Written(n)).1 == FlushAction::Write,
        0 < n && n >= c.pending.len() ==> flush_next(c, FlushEvent::Written(n)).1
            == FlushAction::FlushSocket && flush_next(c, FlushEvent::Written(n)).0.pending.len()
            == 0,
        n > 0 ==> flush_next(c, FlushEvent::Written(n)).0.state == c.state,
        n == 0 ==> flush_next(c, FlushEvent::Written(n)).1 == FlushAction::Fail && flush_next(
            c,
            FlushEvent::Written(n),
        ).0.state == StreamState::Closed,
        n <= c.pending.len() ==> flush_next(c, FlushEvent::Written(n)).0.pending == c.pending.skip(
            n as int,
        ),
{
    if n <= c.pending.len() {
        assert(c.pending.take(n as int) + c.pending.skip(n as int) =~= c.pending);
        if n == c.pending.len() {
            assert(c.pending.skip(n as int) =~= Seq::empty());
        }
        if n == 0 {
            assert(c.pending.take(0) + c.pending =~= c.pending);
            assert(c.pending.skip(0) =~= c.pending);
        }
    }
}

/// A flush begins with what is pending and ends once nothing is: as long as there is
/// any, it is written; a failure closes the connection.
pub proof fn law_flush_goes_on_while_anything_is_pending(c: ConnectionView)
    ensures
        flush_next(c, FlushEvent::Begin).0 == c,
        flush_next(c, FlushEvent::Flushed).0 == c,
        flush_next(c, FlushEvent::Begin).1 == FlushAction::Write <==> c.pending.len() > 0,
        flush_next(c, FlushEvent::Begin).1 == FlushAction::FlushSocket <==> c.pending.len() == 0,
        flush_next(c, FlushEvent::Flushed).1 == FlushAction::Write <==> c.pending.len() > 0,
        flush_next(c, FlushEvent::Flushed).1 == FlushAction::Done <==> c.pending.len() == 0,
        flush_next(c, FlushEvent::Failed).1 == FlushAction::Fail,
        flush_next(c, FlushEvent::Failed).0.state == StreamState::Closed,
        flush_next(c, FlushEvent::Failed).0.pending == c.pending,
{
}

/// When it is a reader's turn to do what: a due flush comes before everything, the
/// end of a closed connection next, then a passed deadline, then the messages, then
/// the failure behind them, and only then is anything read.
pub proof fn law_reader_turns(c: ConnectionView, deadline_due: bool)
    ensures
        next_read(c, deadline_due) == ReadTurn::Flush <==> c.flush_due,
        next_read(c, deadline_due) == ReadTurn::End <==> !c.flush_due && c.state
            == StreamState::Closed,
        next_read(c, deadline_due) == ReadTurn::Deadline <==> !c.flush_due && c.state
            != StreamState::Closed && deadline_due,
        next_read(c, deadline_due) == ReadTurn::Handle <==> !c.flush_due && c.state
            != StreamState::Closed && !deadline_due && c.queue.len() > 0,
        next_read(c, deadline_due) == ReadTurn::Fail <==> !c.flush_due && c.state
            != StreamState::Closed && !deadline_due && c.queue.len() == 0 && c.failure is Some,
{
}

/// A connection stays as it is as long as no more is pending than allowed, and is
/// closed, with an error for the sender, as soon as more is.
pub proof fn law_limit_is_exact(state: StreamState, pending: Seq<u8>, config: Config)
    ensures
        pending.len() <= config.max_backpressure ==> state_with(state, pending, config) == state
            && queue_result(pending, config) == Ok::<(), Error>(()),
        pending.len() > config.max_backpressure ==> state_with(state, pending, config)
            == StreamState::Closed && queue_result(pending, config) == Err::<(), Error>(
            Error::ConnectionClosed,
        ),
{
}

/// A new connection is open, has received nothing, and has nothing to send or to
/// report; its water marks are those it was given.
pub proof fn law_new_connection_is_idle(high: usize, low: usize, deadline_due: bool)
    ensures
        new_connection(high, low).state == StreamState::Open,
        new_connection(high, low).queue.len() == 0,
        new_connection(high, low).pending.len() == 0,
        new_connection(high, low).failure is None,
        new_connection(high, low).terminal is None,
        new_connection(high, low).control is None,
        new_connection(high, low).high == high,
        new_connection(high, low).low == low,
        !deadline_due ==> next_read(new_connection(high, low), deadline_due) == ReadTurn::Read,
        default_builder().high == 65536 && default_builder().low == 16384,
        DEFAULT_HIGH_WATER_MARK == 65536 && DEFAULT_LOW_WATER_MARK == 16384,
{
}

/// A missing pong and idleness are reported as what they are.
pub proof fn law_timeouts_are_told_apart()
    ensures
        timeout_error(Timeout::Pong) == Error::HeartbeatTimeout,
        timeout_error(Timeout::Idle) == Error::IdleTimeout,
{
}

/// A close frame has room for 123 bytes of reason.
pub proof fn law_room_for_a_close_reason(reason: Seq<char>)
    ensures
        crate::stream::fits_close(reason) <==> vstd::utf8::encode_utf8(reason).len() < 124,
{
}

/// The view of a queue holds the view of each message, in order.
pub proof fn law_queue_view(q: Seq<crate::protocol::Message>, i: int)
    requires
        0 <= i < q.len(),
    ensures
        crate::stream::message_views(q).len() == q.len(),
        crate::stream::message_views(q)[i] == q[i]@,
{
}

/// A connection whose setup is kept has the same transport, role, configuration and
/// unparsed bytes.
pub proof fn law_setup_is_all_of_it<S>(
    a: &crate::stream::WebSocketStream<S>,
    b: &crate::stream::WebSocketStream<S>,
)
    ensures
        a.keeps_setup(b) <==> a.transport() == b.transport() && a.side() == b.side() && a.settings()
            == b.settings() && a.unparsed() == b.unparsed(),
{
}

/// Whether `states` are those of a connection between steps of its life.
pub open spec fn is_life(states: Seq<ConnectionView>, steps: Seq<LifeStep>) -> bool {
    &&& states.len() == steps.len() + 1
    &&& forall|i: int|
        0 <= i < steps.len() ==> is_life_step(states[i], #[trigger] steps[i], states[i + 1])
}

/// A connection never goes back: what is closed stays closed, and what is closing is
/// not open again.
pub proof fn law_closing_is_for_good(
    states: Seq<ConnectionView>,
    steps: Seq<LifeStep>,
    i: int,
    j: int,
)
    requires
        is_life(states, steps),
        0 <= i <= j < states.len(),
    ensures
        states[i].state == StreamState::Closed ==> states[j].state == StreamState::Closed,
        states[i].state != StreamState::Open ==> states[j].state != StreamState::Open,
    decreases j - i,
{
    if i < j {
        law_closing_is_for_good(states, steps, i, j - 1);
        assert(is_life_step(states[j - 1], steps[j - 1], states[j - 1 + 1]));
    }
}

/// After a close message was sent nothing more is: sending is refused from then on.
pub proof fn law_nothing_is_sent_behind_a_close(
    states: Seq<ConnectionView>,
    steps: Seq<LifeStep>,
    i: int,
    j: int,
)
    requires
        is_life(states, steps),
        0 <= i < j < states.len(),
        steps[i] == (LifeStep::Sending { close: true }) || steps[i] is TimedOut || steps[i] is Ended,
    ensures
        send_result(states[j].state) == Err::<(), Error>(Error::ConnectionClosed),
        send_result(StreamState::Open) == Ok::<(), Error>(()),
{
    assert(is_life_step(states[i], steps[i], states[i + 1]));
    law_closing_is_for_good(states, steps, i + 1, j);
}

/// A connection stays open for sending as long as no close message was sent, no
/// deadline has passed, it has not ended, and no close message of the peer was flushed.
pub proof fn law_connection_stays_open(
    states: Seq<ConnectionView>,
    steps: Seq<LifeStep>,
    n: int,
)
    requires
        is_life(states, steps),
        states[0].state == StreamState::Open,
        !states[0].close_after_flush,
        0 <= n < states.len(),
        forall|i: int|
            0 <= i < n ==> !(#[trigger] steps[i] is TimedOut) && !(steps[i] is Ended) && !(
            steps[i] is PeerClosed) && steps[i] != (LifeStep::Sending { close: true }),
    ensures
        states[n].state == StreamState::Open,
        !states[n].close_after_flush,
        send_result(states[n].state) is Ok,
    decreases n,
{
    if n > 0 {
        law_connection_stays_open(states, steps, n - 1);
        assert(is_life_step(states[n - 1], steps[n - 1], states[n - 1 + 1]));
        if let LifeStep::Sending { close } = steps[n - 1] {
            assert(!close);
        }
    }
}

/// Once the answer to a close message, or the close message for a deadline, is
/// flushed, the connection is closed.
pub proof fn law_close_ends_with_the_flush(
    states: Seq<ConnectionView>,
    steps: Seq<LifeStep>,
    i: int,
    j: int,
)
    requires
        is_life(states, steps),
        0 <= i < j < steps.len(),
        steps[i] is PeerClosed || steps[i] is TimedOut,
        steps[j] is Flushed,
    ensures
        states[j + 1].state == StreamState::Closed,
{
    assert(is_life_step(states[i], steps[i], states[i + 1]));
    lemma_close_is_due(states, steps, i, j);
    assert(is_life_step(states[j], steps[j], states[j + 1]));
}

proof fn lemma_close_is_due(
    states: Seq<ConnectionView>,
    steps: Seq<LifeStep>,
    i: int,
    j: int,
)
    requires
        is_life(states, steps),
        0 <= i < j < states.len(),
        states[i + 1].close_after_flush,
    ensures
        states[j].close_after_flush || states[j].state == StreamState::Closed,
    decreases j - i,
{
    if i + 1 < j {
        lemma_close_is_due(states, steps, i, j - 1);
        assert(is_life_step(states[j - 1], steps[j - 1], states[j - 1 + 1]));
    }
}

/// The error of a deadline that has passed is reported by the flush of its close
/// message, ahead of any message.
pub proof fn law_timeout_is_reported(
    states: Seq<ConnectionView>,
    steps: Seq<LifeStep>,
    timeout: Timeout,
    i: int,
    j: int,
    r: (bool, Flushed),
)
    requires
        is_life(states, steps),
        0 <= i < j < steps.len(),
        steps[i] == LifeStep::TimedOut(timeout),
        forall|k: int| i < k < j ==> !(#[trigger] steps[k] is TimedOut) && !(steps[k] is Flushed),
        is_release(states[j], r),
    ensures
        r.1 == Flushed::Fail(
            match timeout {
                Timeout::Pong => Error::HeartbeatTimeout,
                Timeout::Idle => Error::IdleTimeout,
            },
        ),
{
    assert(is_life_step(states[i], steps[i], states[i + 1]));
    lemma_error_waits(states, steps, timeout, i, j);
}

proof fn lemma_error_waits(
    states: Seq<ConnectionView>,
    steps: Seq<LifeStep>,
    timeout: Timeout,
    i: int,
    j: int,
)
    requires
        is_life(states, steps),
        0 <= i < j < states.len(),
        steps[i] == LifeStep::TimedOut(timeout),
        forall|k: int| i < k < j ==> !(#[trigger] steps[k] is TimedOut) && !(steps[k] is Flushed),
    ensures
        states[j].terminal == Some(timeout_error(timeout)),
    decreases j - i,
{
    assert(is_life_step(states[j - 1], steps[j - 1], states[j - 1 + 1]));
    if i + 1 < j {
        lemma_error_waits(states, steps, timeout, i, j - 1);
    }
}

/// Whether a ping was queued by the `i`th step, and not flushed before the `n`th.
pub open spec fn is_unflushed_ping(steps: Seq<LifeStep>, i: int, n: int) -> bool {
    &&& 0 <= i < n
    &&& steps[i] is Pinged
    &&& forall|k: int| i < k < n ==> !(#[trigger] steps[k] is Flushed)
}

/// A flush tells that it sent a ping exactly where one was queued since the flush
/// before.
pub proof fn law_sent_pings_are_told(
    states: Seq<ConnectionView>,
    steps: Seq<LifeStep>,
    n: int,
    r: (bool, Flushed),
)
    requires
        is_life(states, steps),
        !states[0].ping_flush,
        0 <= n < states.len(),
        is_release(states[n], r),
    ensures
        r.0 <==> exists|i: int| #[trigger] is_unflushed_ping(steps, i, n),
{
    lemma_ping_flag(states, steps, n);
}

proof fn lemma_ping_flag(states: Seq<ConnectionView>, steps: Seq<LifeStep>, n: int)
    requires
        is_life(states, steps),
        !states[0].ping_flush,
        0 <= n < states.len(),
    ensures
        states[n].ping_flush <==> exists|i: int| #[trigger] is_unflushed_ping(steps, i, n),
    decreases n,
{
    if n > 0 {
        lemma_ping_flag(states, steps, n - 1);
        assert(is_life_step(states[n - 1], steps[n - 1], states[n - 1 + 1]));
        if steps[n - 1] is Pinged {
            assert(is_unflushed_ping(steps, n - 1, n));
        } else if steps[n - 1] is Flushed {
            assert forall|i: int| !(#[trigger] is_unflushed_ping(steps, i, n)) by {
                if is_unflushed_ping(steps, i, n) {
                    assert(i != n - 1);
                    assert(steps[n - 1] is Flushed);
                }
            }
        } else {
            assert forall|i: int| #[trigger]
                is_unflushed_ping(steps, i, n) <==> is_unflushed_ping(steps, i, n - 1) by {
                if is_unflushed_ping(steps, i, n) {
                    assert(i != n - 1);
                }
            }
            if states[n - 1].ping_flush {
                let i = choose|i: int| #[trigger] is_unflushed_ping(steps, i, n - 1);
                assert(is_unflushed_ping(steps, i, n));
            } else {
                assert forall|i: int| !(#[trigger] is_unflushed_ping(steps, i, n)) by {
                    assert(!is_unflushed_ping(steps, i, n - 1));
                }
            }
        }
    }
}

/// What waited for a flush is given out by it: an error first, else the message.
pub proof fn law_release_gives_what_waited(c: ConnectionView, r: (bool, Flushed))
    requires
        is_release(c, r),
    ensures
        r.1 is Fail <==> c.terminal is Some,
        r.1 is Deliver <==> c.terminal is None && c.control is Some,
        r.1 is Continue <==> c.terminal is None && c.control is None,
        r.1 matches Flushed::Fail(e) ==> Some(e) == c.terminal,
        r.1 matches Flushed::Deliver(m) ==> Some(m@) == c.control,
{
}

/// A ping is answered by a pong with its data; a close is answered unless this side
/// has sent one; everything else is delivered as it came.
pub proof fn law_messages_are_answered(state: StreamState, message: MessageView, r: MessageAction)
    requires
        is_answer_to(state, message, r),
    ensures
        r is Pong <==> message is Ping,
        r is CloseResponse <==> message is Close && state == StreamState::Open,
        r is FlushClose <==> message is Close && state != StreamState::Open,
        r is Deliver <==> message is Text || message is Binary || message is Pong,
        message matches MessageView::Ping(data) ==> (r matches MessageAction::Pong(answer)
            && crate::buffers::contents(answer) == data),
        r matches MessageAction::Deliver(m) ==> m@ == message,
{
}

/// A reason that fits is kept whole; a longer one loses no more than it must.
pub proof fn law_reason_is_kept_as_far_as_it_fits(reason: Seq<char>, r: Seq<char>, k: int)
    requires
        is_bounded_reason(reason, r),
        0 <= k <= reason.len(),
    ensures
        fits_close(reason) ==> r == reason,
        r == reason.take(r.len() as int),
        fits_close(reason.take(k)) ==> k <= r.len(),
        vstd::utf8::encode_utf8(r).len() < 124,
{
    assert(reason.take(reason.len() as int) =~= reason);
    assert(r =~= reason.take(r.len() as int));
}

/// A builder starts as a server with the default configuration.
pub proof fn law_default_builder()
    ensures
        default_builder().role == crate::protocol::Role::Server,
        default_builder().config == crate::default_config(),
        default_builder().high == 64 * 1024,
        default_builder().low == 16 * 1024,
{
}

/// With one mark for both, what is pending is either above it or low. The marks are set
/// one by one, and nothing else changes with them.
pub proof fn law_water_marks(
    pending: nat,
    mark: usize,
    before: ConnectionView,
    high: usize,
    low: usize,
    after: ConnectionView,
)
    requires
        are_marks_set(before, high, low, after),
    ensures
        is_above(pending, mark) <==> !is_low(pending, mark),
        is_above(mark as nat + 1, mark) && !is_above(mark as nat, mark),
        is_low(mark as nat, mark) && !is_low(mark as nat + 1, mark),
        is_above(pending, mark) ==> is_above(pending + 1, mark),
        after.high == high && after.low == low,
        after.state == before.state && after.queue == before.queue && after.failure
            == before.failure,
        after.control == before.control && after.terminal == before.terminal,
        after.flush_due == before.flush_due && after.close_after_flush == before.close_after_flush,
        after.ping_flush == before.ping_flush && after.pending == before.pending,
{
}

/// A close message is sent exactly while the connection is open, with the code and the
/// reason that were given.
pub proof fn law_close_message(
    state: StreamState,
    code: u16,
    reason: Seq<char>,
    r: Option<MessageView>,
)
    requires
        is_close_message(state, code, reason, r),
    ensures
        r is Some <==> send_result(state) is Ok,
        r matches Some(m) ==> (m matches MessageView::Close(Some(c)) && c.code == code && c.reason
            == reason),
{
}

/// Whether `states` are the errors that wait between steps.
pub open spec fn is_failing(states: Seq<Option<Error>>, steps: Seq<FailureStep>) -> bool {
    &&& states.len() == steps.len() + 1
    &&& forall|i: int|
        0 <= i < steps.len() ==> is_failure_step(states[i], #[trigger] steps[i], states[i + 1])
}

/// The errors that parsing ended with, in order.
pub open spec fn failures(steps: Seq<FailureStep>) -> Seq<Error>
    decreases steps.len(),
{
    if steps.len() == 0 {
        Seq::empty()
    } else {
        match steps.last() {
            FailureStep::Parsed(Some(e)) => failures(steps.drop_last()).push(e),
            _ => failures(steps.drop_last()),
        }
    }
}

/// The errors that were reported, in order.
pub open spec fn failures_reported(steps: Seq<FailureStep>) -> Seq<Error>
    decreases steps.len(),
{
    if steps.len() == 0 {
        Seq::empty()
    } else {
        match steps.last() {
            FailureStep::Reported(e) => failures_reported(steps.drop_last()).push(e),
            _ => failures_reported(steps.drop_last()),
        }
    }
}

/// The error that waits, as a list.
pub open spec fn waiting_error(e: Option<Error>) -> Seq<Error> {
    match e {
        Some(x) => seq![x],
        None => Seq::empty(),
    }
}

/// Every error that parsing ended with is reported once: those reported, followed by the
/// one that waits, are those that parsing ended with.
pub proof fn law_errors_are_reported_once(states: Seq<Option<Error>>, steps: Seq<FailureStep>)
    requires
        is_failing(states, steps),
        states[0] is None,
    ensures
        failures_reported(steps) + waiting_error(states.last()) == failures(steps),
    decreases steps.len(),
{
    if steps.len() == 0 {
        assert(failures_reported(steps) + waiting_error(states.last()) =~= failures(steps));
    } else {
        let k = steps.len() - 1;
        let earlier_steps = steps.drop_last();
        let earlier = states.drop_last();
        assert forall|i: int| 0 <= i < earlier_steps.len() implies is_failure_step(
            earlier[i],
            #[trigger] earlier_steps[i],
            earlier[i + 1],
        ) by {
            assert(earlier_steps[i] == steps[i]);
        }
        law_errors_are_reported_once(earlier, earlier_steps);
        assert(is_failure_step(states[k], steps[k], states[k + 1]));
        assert(earlier.last() == states[k]);
        assert(failures_reported(steps) + waiting_error(states.last()) =~= failures(steps));
    }
}

/// The view of an optional message is that of the message, where there is one.
pub proof fn law_optional_message(m: crate::protocol::Message)
    ensures
        crate::stream::opt_message(Some(m)) == Some(m@),
        crate::stream::opt_message(None) is None,
{
}

} // verus!
