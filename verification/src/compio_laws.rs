//! What a connection over completion-based input and output does with messages, over
//! any run of its steps.

use crate::buffers::contents;
use crate::compio::{
    accept_result, accepts, behind_heartbeats, compio_sending, compio_turn, fresh_connection,
    heartbeat_answers, is_compio_answer, is_compio_split, is_compio_step, is_heartbeat,
    is_queue_step, is_reader_turn, CompioAction, CompioAnswer, CompioReaderView, CompioStep,
    CompioTurn, CompioWriterView, CompioView, QueueStep, RequestView,
};
use crate::error::Error;
use crate::handshake::{accept_key_of, response_text, ResponseView};
use crate::http_text::opt_string_view;
use crate::protocol::MessageView;
use crate::stream::StreamState;
use crate::Config;
use vstd::prelude::*;

verus! {

/// Whether `queues` are the messages that wait between steps.
pub open spec fn is_waiting(queues: Seq<Seq<MessageView>>, steps: Seq<QueueStep>) -> bool {
    &&& queues.len() == steps.len() + 1
    &&& forall|i: int|
        0 <= i < steps.len() ==> is_queue_step(queues[i], #[trigger] steps[i], queues[i + 1])
}

/// The messages that were received, in order.
pub open spec fn received(steps: Seq<QueueStep>) -> Seq<MessageView>
    decreases steps.len(),
{
    if steps.len() == 0 {
        Seq::empty()
    } else {
        match steps.last() {
            QueueStep::Received(messages) => received(steps.drop_last()) + messages,
            _ => received(steps.drop_last()),
        }
    }
}

/// The messages that were taken out to be handled, in order.
pub open spec fn taken(steps: Seq<QueueStep>) -> Seq<MessageView>
    decreases steps.len(),
{
    if steps.len() == 0 {
        Seq::empty()
    } else {
        match steps.last() {
            QueueStep::Taken(message) => taken(steps.drop_last()).push(message),
            _ => taken(steps.drop_last()),
        }
    }
}

/// Every message that is received is handled once, in order: those taken out,
/// followed by those that wait, are those that waited at first, followed by those
/// that were received.
pub proof fn law_messages_are_handled_in_order(
    queues: Seq<Seq<MessageView>>,
    steps: Seq<QueueStep>,
)
    requires
        is_waiting(queues, steps),
    ensures
        taken(steps) + queues.last() == queues[0] + received(steps),
    decreases steps.len(),
{
    if steps.len() == 0 {
        assert(taken(steps) + queues.last() =~= queues[0] + received(steps));
    } else {
        let k = steps.len() - 1;
        let earlier_steps = steps.drop_last();
        let earlier = queues.drop_last();
        assert forall|i: int| 0 <= i < earlier_steps.len() implies is_queue_step(
            earlier[i],
            #[trigger] earlier_steps[i],
            earlier[i + 1],
        ) by {
            assert(earlier_steps[i] == steps[i]);
        }
        law_messages_are_handled_in_order(earlier, earlier_steps);
        assert(is_queue_step(queues[k], steps[k], queues[k + 1]));
        let (before, after) = (queues[k], queues[k + 1]);
        assert(earlier.last() == before);
        let (t, r) = (taken(earlier_steps), received(earlier_steps));
        match steps[k] {
            QueueStep::Received(messages) => {
                assert(t + (before + messages) =~= (t + before) + messages);
                assert((queues[0] + r) + messages =~= queues[0] + (r + messages));
            },
            QueueStep::Taken(message) => {
                assert(t.push(message) + after =~= t + (seq![message] + after));
            },
            QueueStep::Other => {},
        }
    }
}

/// The answers to the pings among some messages, in order: each carries the payload
/// of its ping.
pub open spec fn answers_to(messages: Seq<MessageView>) -> Seq<RequestView> {
    messages.filter(|m: MessageView| m is Ping).map_values(
        |m: MessageView| RequestView::Pong(m->Ping_0),
    )
}

/// The reading half passes over the pings and pongs in front, and nothing else, and
/// answers exactly the pings among them, in order, with their payloads.
pub proof fn law_pings_in_front_are_answered(queue: Seq<MessageView>)
    ensures
        ({
            let rest = behind_heartbeats(queue);
            let k = queue.len() - rest.len();
            &&& 0 <= k
            &&& rest == queue.skip(k)
            &&& forall|i: int| 0 <= i < k ==> (#[trigger] queue[i]) is Ping || queue[i] is Pong
            &&& rest.len() > 0 ==> !(rest[0] is Ping) && !(rest[0] is Pong)
            &&& heartbeat_answers(queue) == answers_to(queue.take(k))
        }),
    decreases queue.len(),
{
    let ping = |m: MessageView| m is Ping;
    let answer = |m: MessageView| RequestView::Pong(m->Ping_0);
    let rest = behind_heartbeats(queue);
    if queue.len() > 0 && is_heartbeat(queue[0]) {
        let t = queue.skip(1);
        law_pings_in_front_are_answered(t);
        let k = queue.len() - rest.len();
        assert(t.skip(k - 1) =~= queue.skip(k));
        assert forall|i: int| 0 <= i < k implies (#[trigger] queue[i]) is Ping || queue[i] is Pong by {
            if i > 0 {
                assert(queue[i] == t[i - 1]);
            }
        }
        let front = seq![queue[0]];
        assert(queue.take(k) =~= front + t.take(k - 1));
        Seq::filter_distributes_over_add(front, t.take(k - 1), ping);
        reveal(Seq::filter);
        assert(front.drop_last() =~= Seq::<MessageView>::empty());
        assert(front.drop_last().filter(ping) =~= Seq::<MessageView>::empty());
        if queue[0] is Ping {
            assert(front.filter(ping) =~= front);
            assert(answers_to(queue.take(k)) =~= seq![answer(queue[0])] + answers_to(t.take(k - 1)));
        } else {
            assert(front.filter(ping) =~= Seq::<MessageView>::empty());
            assert(answers_to(queue.take(k)) =~= answers_to(t.take(k - 1)));
        }
    } else {
        assert(queue.skip(0) =~= queue);
        assert(queue.take(0) =~= Seq::<MessageView>::empty());
        reveal(Seq::filter);
        assert(answers_to(queue.take(0)) =~= Seq::<RequestView>::empty());
    }
}

/// When it is a reader's turn to do what: a closed connection has ended; otherwise
/// messages are handled first, then the failure behind them is reported, then what
/// was read is parsed, and only then is anything read.
pub proof fn law_reader_turns(c: CompioView)
    ensures
        compio_turn(c) == CompioTurn::End <==> c.state == StreamState::Closed,
        compio_turn(c) == CompioTurn::Handle <==> c.state != StreamState::Closed && c.queue.len()
            > 0,
        compio_turn(c) == CompioTurn::Fail <==> c.state != StreamState::Closed && c.queue.len() == 0
            && c.failure is Some,
        compio_turn(c) == CompioTurn::Parse <==> c.state != StreamState::Closed && c.queue.len()
            == 0 && c.failure is None && c.fresh,
        compio_turn(c) == CompioTurn::Read <==> c.state != StreamState::Closed && c.queue.len() == 0
            && c.failure is None && !c.fresh,
{
}

/// A new connection is open, has received nothing but what the handshake left, and
/// has nothing to send or to report; its water marks are those it was given.
pub proof fn law_new_connection_is_idle(leftover: Seq<u8>, high: usize, low: usize)
    ensures
        ({
            let c = fresh_connection(leftover, high, low);
            &&& c.state == StreamState::Open
            &&& c.queue.len() == 0
            &&& c.pending.len() == 0
            &&& c.failure is None
            &&& c.unparsed == leftover
            &&& c.high == high
            &&& c.low == low
            &&& compio_turn(c) == CompioTurn::Read <==> leftover.len() == 0
        }),
{
}

/// A client goes by the accept key alone: it takes exactly the one for its key.
pub proof fn law_right_accept_key_is_taken(key: Seq<char>, response: ResponseView)
    ensures
        accept_result(key, response) is Ok <==> response.accept == Some(accept_key_of(key)),
{
}

/// A server that accepts echoes the subprotocol that was asked for, with the accept key
/// for the client's key, and reports what was asked for.
pub proof fn law_accepting_echoes_what_was_asked(
    request: crate::handshake::RequestView,
    extensions: Option<Seq<char>>,
    reply: bytes::Bytes,
    done: crate::handshake::HandshakeResult,
)
    requires
        accepts(request, extensions, Ok((reply, done))),
    ensures
        contents(reply) == vstd::utf8::encode_utf8(
            response_text(accept_key_of(request.key), request.protocol, extensions),
        ),
        done.path@ == request.path,
        opt_string_view(done.protocol) == request.protocol,
        opt_string_view(done.extensions) == request.extensions,
        request.protocol matches Some(p) ==> crate::headers::is_token(p),
{
}

/// What a handshake leaves is what it read behind the head, or nothing.
pub proof fn law_leftover_bytes(b: bytes::Bytes)
    ensures
        crate::compio::leftover_bytes(Some(b)) == contents(b),
        crate::compio::leftover_bytes(None).len() == 0,
{
}

/// The view of requests holds the view of each, in order: a pong with its payload, or
/// the answer to a close.
pub proof fn law_request_views(q: Seq<crate::compio::CompioRequest>, i: int)
    requires
        0 <= i < q.len(),
    ensures
        crate::compio::request_views(q).len() == q.len(),
        crate::compio::request_views(q)[i] == (match q[i] {
            crate::compio::CompioRequest::Pong(b) => RequestView::Pong(contents(b)),
            crate::compio::CompioRequest::CloseResponse => RequestView::CloseResponse,
        }),
{
}

/// A connection whose setup is kept has the same transport, role and configuration.
pub proof fn law_setup_is_all_of_it<S>(
    a: &crate::compio::CompioWebSocketStream<S>,
    b: &crate::compio::CompioWebSocketStream<S>,
)
    ensures
        a.keeps_setup(b) <==> a.transport() == b.transport() && a.side() == b.side() && a.settings()
            == b.settings(),
{
}

/// Whether `states` are where a connection stands between steps of its life.
pub open spec fn is_life(states: Seq<StreamState>, steps: Seq<CompioStep>) -> bool {
    &&& states.len() == steps.len() + 1
    &&& forall|i: int|
        0 <= i < steps.len() ==> is_compio_step(states[i], #[trigger] steps[i], states[i + 1])
}

/// A connection never goes back: what is closed stays closed, and sends nothing more;
/// what has sent a close is not open again.
pub proof fn law_closing_is_for_good(
    states: Seq<StreamState>,
    steps: Seq<CompioStep>,
    i: int,
    j: int,
)
    requires
        is_life(states, steps),
        0 <= i <= j < states.len(),
    ensures
        states[i] == StreamState::Closed ==> states[j] == StreamState::Closed && compio_sending(
            states[j] == StreamState::Closed,
        ) == Err::<(), Error>(Error::ConnectionClosed),
        states[i] != StreamState::Open ==> states[j] != StreamState::Open,
        states[j] != StreamState::Closed ==> compio_sending(states[j] == StreamState::Closed) == Ok::<
            (),
            Error,
        >(()),
    decreases j - i,
{
    if i < j {
        law_closing_is_for_good(states, steps, i, j - 1);
        assert(is_compio_step(states[j - 1], steps[j - 1], states[j - 1 + 1]));
    }
}

/// A connection is closed exactly where it has ended, and has left the open state
/// exactly where it has ended or has sent a close.
pub proof fn law_only_a_close_or_the_end_changes_it(
    states: Seq<StreamState>,
    steps: Seq<CompioStep>,
    n: int,
)
    requires
        is_life(states, steps),
        states[0] == StreamState::Open,
        0 <= n < states.len(),
    ensures
        states[n] == StreamState::Closed <==> exists|i: int|
            0 <= i < n && (#[trigger] steps[i]) is Ended,
        states[n] == StreamState::Open <==> forall|i: int|
            0 <= i < n ==> !((#[trigger] steps[i]) is Ended) && steps[i] != (CompioStep::Sending {
                close: true,
            }),
    decreases n,
{
    if n > 0 {
        law_only_a_close_or_the_end_changes_it(states, steps, n - 1);
        assert(is_compio_step(states[n - 1], steps[n - 1], states[n - 1 + 1]));
        assert(steps[n - 1] is Ended || !(steps[n - 1] is Ended));
        if let CompioStep::Sending { close } = steps[n - 1] {
            assert(close || steps[n - 1] != (CompioStep::Sending { close: true }));
        }
    }
}

/// A ping is answered by a pong with its data, a close by a close unless this side has
/// sent one, and nothing else is answered.
pub proof fn law_messages_are_answered(state: StreamState, message: MessageView, r: CompioAnswer)
    requires
        is_compio_answer(state, message, r),
    ensures
        r is Pong <==> message is Ping,
        r is CloseResponse <==> message is Close && state == StreamState::Open,
        message matches MessageView::Ping(data) ==> (r matches CompioAnswer::Pong(answer)
            && contents(answer) == data),
{
}

/// Splitting loses nothing of what was received: the reading half has it. The halves
/// are closed where the connection was.
pub proof fn law_splitting_keeps_what_was_received(
    c: CompioView,
    config: Config,
    reader: CompioReaderView,
    writer: CompioWriterView,
)
    requires
        is_compio_split(c, config, reader, writer),
    ensures
        reader.queue == c.queue,
        reader.failure == c.failure,
        reader.unparsed == c.unparsed,
        reader.fresh == c.fresh,
        reader.closed <==> c.state == StreamState::Closed,
        compio_sending(writer.closed) is Ok <==> c.state != StreamState::Closed,
        writer.pending.len() == 0,
        writer.config == config,
{
}

/// A turn of the reading half passes over the pings and pongs in front, asks for an
/// answer to each of the pings, and delivers the message behind them; a close is
/// answered too, and is the last that is delivered.
pub proof fn law_split_reader_turns(
    v: CompioReaderView,
    requests: Seq<RequestView>,
    r: CompioAction,
    after: CompioReaderView,
)
    requires
        is_reader_turn(v, requests, r, after),
    ensures
        r is End <==> v.closed,
        v.closed ==> requests.len() == 0 && after == v,
        r matches CompioAction::Handle(m) ==> {
            &&& !(m@ is Ping) && !(m@ is Pong)
            &&& exists|k: int|
                0 <= k < v.queue.len() && v.queue[k] == m@ && after.queue == #[trigger] v.queue.skip(
                    k + 1,
                ) && requests == answers_to(v.queue.take(k)) + (if m@ is Close {
                    seq![RequestView::CloseResponse]
                } else {
                    Seq::empty()
                })
            &&& after.closed <==> m@ is Close
        },
        r matches CompioAction::Fail(e) ==> v.failure == Some(e) && after.closed,
        r is Fail || r is Parse || r is Read ==> requests == answers_to(v.queue)
            && after.queue.len() == 0 && forall|i: int|
            0 <= i < v.queue.len() ==> (#[trigger] v.queue[i]) is Ping || v.queue[i] is Pong,
        r is Read ==> v.failure is None && !v.fresh,
        r is Read || r is Parse || r is Handle ==> after.unparsed == v.unparsed && after.fresh
            == v.fresh && after.failure == v.failure,
        r is Parse ==> v.failure is None && v.fresh,
{
    law_pings_in_front_are_answered(v.queue);
    let rest = behind_heartbeats(v.queue);
    let k = v.queue.len() - rest.len();
    if let CompioAction::Handle(m) = r {
        assert(rest[0] == m@);
        assert(v.queue[k] == rest[0]);
        assert(after.queue =~= rest.skip(1));
        assert(rest.skip(1) =~= v.queue.skip(k + 1));
        if m@ is Close {
            assert(requests =~= answers_to(v.queue.take(k)) + seq![RequestView::CloseResponse]);
        } else {
            assert(requests =~= answers_to(v.queue.take(k)) + Seq::empty());
        }
    }
    if r is Fail || r is Parse || r is Read {
        assert(v.queue.take(k) =~= v.queue);
    }
}

/// However the bytes of a request arrive, a server reports the same: a read that left it
/// waiting, and the read after that, are like one read of both.
pub proof fn law_pieces_of_a_request_add_up(
    extensions: Option<Seq<char>>,
    received: Seq<u8>,
    first: Seq<u8>,
    between: Seq<u8>,
    second: Seq<u8>,
    r: Result<Option<(bytes::Bytes, crate::handshake::HandshakeResult)>, Error>,
    after: Seq<u8>,
)
    requires
        first.len() > 0,
        second.len() > 0,
        crate::compio::is_compio_server_read(extensions, received, first, Ok(None), between),
        crate::compio::is_compio_server_read(extensions, between, second, r, after),
    ensures
        crate::compio::is_compio_server_read(extensions, received, first + second, r, after),
        between == received + first,
        r matches Ok(None) ==> after == received + first + second,
        r matches Ok(Some((_, done))) ==> (crate::handshake::parsed_request(
            received + first + second,
        ) matches Ok(Some((request, _))) && done.path@ == request.path && opt_string_view(
            done.protocol,
        ) == request.protocol),
{
    assert(received + (first + second) =~= (received + first) + second);
}

/// However the bytes of a response arrive, a client reports the same.
pub proof fn law_pieces_of_a_response_add_up(
    key: Seq<char>,
    path: Seq<char>,
    received: Seq<u8>,
    first: Seq<u8>,
    between: Seq<u8>,
    second: Seq<u8>,
    r: Result<Option<crate::handshake::HandshakeResult>, Error>,
    after: Seq<u8>,
)
    requires
        first.len() > 0,
        second.len() > 0,
        crate::compio::is_compio_client_read(key, path, received, first, Ok(None), between),
        crate::compio::is_compio_client_read(key, path, between, second, r, after),
    ensures
        crate::compio::is_compio_client_read(key, path, received, first + second, r, after),
        between == received + first,
        r matches Ok(None) ==> after == received + first + second,
        r matches Ok(Some(done)) ==> done.path@ == path && (crate::handshake::parsed_response(
            received + first + second,
        ) matches Ok(Some((response, _))) && opt_string_view(done.protocol) == response.protocol
            && opt_string_view(done.extensions) == response.extensions && response.accept == Some(
            accept_key_of(key),
        )),
{
    assert(received + (first + second) =~= (received + first) + second);
}

/// A writing half sends until it has sent a close, and nothing after that.
pub proof fn law_writer_is_closed_by_a_close(closed: bool, close: bool)
    ensures
        compio_sending(crate::compio::closed_by(closed, true)) == Err::<(), Error>(
            Error::ConnectionClosed,
        ),
        compio_sending(crate::compio::closed_by(true, close)) is Err,
        compio_sending(crate::compio::closed_by(false, false)) is Ok,
{
}

/// Whether `states` tell whether bytes wait to be parsed, between steps.
pub open spec fn is_parsing(states: Seq<bool>, steps: Seq<crate::compio::FreshStep>) -> bool {
    &&& states.len() == steps.len() + 1
    &&& forall|i: int|
        0 <= i < steps.len() ==> crate::compio::is_fresh_step(
            states[i],
            #[trigger] steps[i],
            states[i + 1],
        )
}

/// Whether bytes were read by the `i`th step, and not parsed before the `n`th.
pub open spec fn is_unparsed_read(steps: Seq<crate::compio::FreshStep>, i: int, n: int) -> bool {
    &&& 0 <= i < n
    &&& steps[i] is Read
    &&& forall|k: int| i < k < n ==> !(#[trigger] steps[k] is Parsed)
}

/// Bytes are parsed exactly where some were read since they were parsed last.
pub proof fn law_what_is_read_is_parsed(
    states: Seq<bool>,
    steps: Seq<crate::compio::FreshStep>,
    n: int,
)
    requires
        is_parsing(states, steps),
        !states[0],
        0 <= n < states.len(),
    ensures
        states[n] <==> exists|i: int| #[trigger] is_unparsed_read(steps, i, n),
    decreases n,
{
    if n > 0 {
        law_what_is_read_is_parsed(states, steps, n - 1);
        assert(crate::compio::is_fresh_step(states[n - 1], steps[n - 1], states[n - 1 + 1]));
        if steps[n - 1] is Read {
            assert(is_unparsed_read(steps, n - 1, n));
        } else if steps[n - 1] is Parsed {
            assert forall|i: int| !(#[trigger] is_unparsed_read(steps, i, n)) by {
                if is_unparsed_read(steps, i, n) {
                    assert(i != n - 1);
                    assert(steps[n - 1] is Parsed);
                }
            }
        } else {
            assert forall|i: int| #[trigger]
                is_unparsed_read(steps, i, n) <==> is_unparsed_read(steps, i, n - 1) by {
                if is_unparsed_read(steps, i, n) {
                    assert(i != n - 1);
                }
            }
            if states[n - 1] {
                let i = choose|i: int| #[trigger] is_unparsed_read(steps, i, n - 1);
                assert(is_unparsed_read(steps, i, n));
            } else {
                assert forall|i: int| !(#[trigger] is_unparsed_read(steps, i, n)) by {
                    assert(!is_unparsed_read(steps, i, n - 1));
                }
            }
        }
    }
}

/// The marks are set one by one, and nothing else changes with them.
pub proof fn law_water_marks(before: CompioView, high: usize, low: usize, after: CompioView)
    requires
        crate::compio::are_compio_marks_set(before, high, low, after),
    ensures
        after.high == high && after.low == low,
        after.state == before.state && after.queue == before.queue && after.failure
            == before.failure,
        after.unparsed == before.unparsed && after.fresh == before.fresh && after.pending
            == before.pending,
{
}

} // verus!
