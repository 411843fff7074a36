//! Topic-based publish/subscribe.
//!
//! Subscribers are numbered; a subscriber may also bear a socket identifier such
//! as `1234.5678`. All that is known of topics follows from what each subscriber
//! is subscribed to, so contracts speak of the subscribers alone.

use crate::dash;
use crate::dash::{listed, socket_entries, text_set, topic_entries};
use crate::http_text::opt_string_view;
use crate::protocol::{Message, MessageView};
use crate::text;
use dashmap::{DashMap, DashSet};
use tokio::sync::mpsc::UnboundedSender;
use vstd::prelude::*;
use vstd::string::*;

verus! {

/// The number of a subscriber.
#[derive(Debug, Clone, Copy, PartialEq, Eq, Hash, Structural)]
pub struct SubscriberId(pub u64);

impl SubscriberId {
    /// The number.
    pub fn as_u64(&self) -> (r: u64)
        ensures
            r == self.0,
    {
        self.0
    }

    /// The subscriber of the given number.
    pub fn from_u64(id: u64) -> (r: Self)
        ensures
            r.0 == id,
    {
        SubscriberId(id)
    }

    /// The number in decimal.
    pub fn text(&self) -> (r: String)
        ensures
            r@ == text::decimal(self.0 as nat),
    {
        text::u64_to_decimal(self.0)
    }
}

/// What came of publishing a message.
#[derive(Debug, Clone, Copy, PartialEq, Eq, Structural)]
pub enum PublishResult {
    /// The message went to this many subscribers.
    Published(usize),
    /// There was nobody to send it to.
    NoSubscribers,
}

impl PublishResult {
    /// The number of subscribers that the message went to.
    pub fn count(&self) -> (r: usize)
        ensures
            r == (match *self {
                PublishResult::Published(n) => n,
                PublishResult::NoSubscribers => 0,
            }),
            r == count_of(*self),
    {
        match self {
            PublishResult::Published(n) => *n,
            PublishResult::NoSubscribers => 0,
        }
    }
}

/// What comes of a message that was delivered `sent` times.
pub open spec fn result_of(sent: usize) -> PublishResult {
    if sent > 0 {
        PublishResult::Published(sent)
    } else {
        PublishResult::NoSubscribers
    }
}

/// How many subscribers a message was delivered to.
pub open spec fn count_of(result: PublishResult) -> usize {
    match result {
        PublishResult::Published(n) => n,
        PublishResult::NoSubscribers => 0,
    }
}

/// What comes of a message that was delivered `sent` times.
pub fn publish_result(sent: usize) -> (r: PublishResult)
    ensures
        r == result_of(sent),
{
    if sent > 0 {
        PublishResult::Published(sent)
    } else {
        PublishResult::NoSubscribers
    }
}

/// A subscriber: its channel, its topics, and its socket identifier.
struct Subscriber {
    sender: UnboundedSender<Message>,
    topics: DashSet<String>,
    socket_id: Option<String>,
}

/// What is known of a subscriber.
pub struct SubscriberView {
    pub sender: UnboundedSender<Message>,
    pub topics: Set<Seq<char>>,
    pub socket_id: Option<Seq<char>>,
}

/// What is known of a subscriber.
spec fn subscriber_view(s: Subscriber) -> SubscriberView {
    SubscriberView {
        sender: s.sender,
        topics: text_set(s.topics),
        socket_id: opt_string_view(s.socket_id),
    }
}

/// The subscribers that a map holds.
pub uninterp spec fn subscriber_entries(m: DashMap<u64, Subscriber>) -> Map<u64, SubscriberView>;

/// A map without subscribers, from `DashMap::new`.
#[verifier::external_body]
fn new_subscriber_map() -> (r: DashMap<u64, Subscriber>)
    ensures
        subscriber_entries(r).dom() == Set::<u64>::empty(),
{
    DashMap::new()
}

/// `DashMap::insert` puts a subscriber in the place of an earlier one.
#[verifier::external_body]
fn put_subscriber(m: &mut DashMap<u64, Subscriber>, id: u64, s: Subscriber)
    ensures
        subscriber_entries(*final(m)) == subscriber_entries(*old(m)).insert(
            id,
            subscriber_view(s),
        ),
{
    m.insert(id, s);
}

/// `DashMap::remove` takes a subscriber out.
#[verifier::external_body]
fn take_subscriber(m: &mut DashMap<u64, Subscriber>, id: u64) -> (r: Option<Subscriber>)
    ensures
        subscriber_entries(*final(m)) == subscriber_entries(*old(m)).remove(id),
        match r {
            Some(s) => subscriber_entries(*old(m)).dom().contains(id) && subscriber_view(s)
                == subscriber_entries(*old(m))[id],
            None => !subscriber_entries(*old(m)).dom().contains(id),
        },
{
    m.remove(&id).map(|entry| entry.1)
}

/// `DashMap::get` finds a subscriber, and `UnboundedSender::clone` gives another
/// handle to its channel, which serves as the same sender.
#[verifier::external_body]
fn subscriber_channel(m: &DashMap<u64, Subscriber>, id: u64) -> (r: Option<
    UnboundedSender<Message>,
>)
    ensures
        match r {
            Some(sender) => subscriber_entries(*m).dom().contains(id) && sender
                == subscriber_entries(*m)[id].sender,
            None => !subscriber_entries(*m).dom().contains(id),
        },
{
    m.get(&id).map(|s| s.sender.clone())
}

/// `DashMap::get` finds a subscriber; its socket identifier is copied.
#[verifier::external_body]
fn subscriber_socket(m: &DashMap<u64, Subscriber>, id: u64) -> (r: Option<Option<String>>)
    ensures
        match r {
            Some(socket) => subscriber_entries(*m).dom().contains(id) && opt_string_view(socket)
                == subscriber_entries(*m)[id].socket_id,
            None => !subscriber_entries(*m).dom().contains(id),
        },
{
    m.get(&id).map(|s| s.socket_id.clone())
}

/// `DashMap::get` finds a subscriber, and `DashSet::iter` visits each of its
/// topics once, in no particular order.
#[verifier::external_body]
fn subscriber_topic_list(m: &DashMap<u64, Subscriber>, id: u64) -> (r: Option<Vec<String>>)
    ensures
        match r {
            Some(topics) => subscriber_entries(*m).dom().contains(id)
                && listed(topics@).no_duplicates() && listed(topics@).to_set()
                == subscriber_entries(*m)[id].topics,
            None => !subscriber_entries(*m).dom().contains(id),
        },
{
    m.get(&id).map(|s| s.topics.iter().map(|t| t.key().clone()).collect())
}

/// Whether a subscriber was added, with its channel and its socket identifier.
pub open spec fn is_added(
    before: PubSubView,
    id: u64,
    sender: UnboundedSender<Message>,
    socket_id: Option<Seq<char>>,
    after: PubSubView,
) -> bool {
    &&& after.subscribers == before.subscribers.insert(
        id,
        SubscriberView { sender, topics: Set::empty(), socket_id },
    )
    &&& after.next_id == before.next_id + 1
    &&& after.published == before.published
}

/// Whether a subscriber was removed.
pub open spec fn is_removed(before: PubSubView, id: u64, after: PubSubView) -> bool {
    &&& after.subscribers == before.subscribers.remove(id)
    &&& after.next_id == before.next_id
    &&& after.published == before.published
}

/// The topics of a subscriber.
pub open spec fn topics_of(subscribers: Map<u64, SubscriberView>, id: u64) -> Set<Seq<char>> {
    if subscribers.dom().contains(id) {
        subscribers[id].topics
    } else {
        Set::empty()
    }
}

/// The socket identifier of a subscriber.
pub open spec fn socket_of(subscribers: Map<u64, SubscriberView>, id: u64) -> Option<Seq<char>> {
    if subscribers.dom().contains(id) {
        subscribers[id].socket_id
    } else {
        None
    }
}

/// A time of the system's clock.
#[verifier::external_type_specification]
#[verifier::external_body]
pub struct ExSystemTime(std::time::SystemTime);

/// The nanoseconds of a span of time.
pub uninterp spec fn nanos_of(d: std::time::Duration) -> u128;

/// `SystemTime::now` reads the system's clock. The time is what it is, so nothing
/// is said of it.
pub assume_specification[ std::time::SystemTime::now ]() -> (r: std::time::SystemTime)
;

/// `SystemTime::duration_since` tells how long after 1970 a time is; a time
/// before that gives `None`. What the clock shows is not modelled, so nothing is
/// said of it.
#[verifier::external_body]
fn since_epoch(now: std::time::SystemTime) -> (r: Option<std::time::Duration>) {
    now.duration_since(std::time::UNIX_EPOCH).ok()
}

/// `Duration::as_nanos` counts the nanoseconds.
pub assume_specification[ std::time::Duration::as_nanos ](d: &std::time::Duration) -> (r: u128)
    ensures
        r == nanos_of(*d),
;

/// The nanoseconds of a span of time, or 0 where there is none.
pub open spec fn nanos_in(span: Option<std::time::Duration>) -> u128 {
    match span {
        Some(d) => nanos_of(d),
        None => 0,
    }
}

/// Counts the nanoseconds of a span of time, or 0 where there is none.
pub fn span_nanos(span: Option<std::time::Duration>) -> (r: u128)
    ensures
        r == nanos_in(span),
{
    match span {
        Some(d) => d.as_nanos(),
        None => 0,
    }
}

/// The nanoseconds since 1970, or 0 where the clock shows an earlier time.
///
/// The span since 1970 is what the clock makes it; whatever it is, its
/// nanoseconds are given.
fn now_nanos() -> (r: u128)
    ensures
        was_read(r),
{
    let now = read_clock(std::time::SystemTime::now);
    let span = take_since(since_epoch, now);
    assert(is_reading(now, span));
    span_nanos(span)
}

/// Whether `span` is how long after 1970 a reading of the clock is.
spec fn is_reading(now: std::time::SystemTime, span: Option<std::time::Duration>) -> bool {
    &&& call_ensures(std::time::SystemTime::now, (), now)
    &&& call_ensures(since_epoch, (now,), span)
}

/// Whether a number of nanoseconds was read off the clock.
pub closed spec fn was_read(nanos: u128) -> bool {
    exists|now: std::time::SystemTime, span: Option<std::time::Duration>| #[trigger]
        is_reading(now, span) && nanos == nanos_in(span)
}

/// Reads a clock.
fn read_clock<F: Fn() -> std::time::SystemTime>(clock: F) -> (r: std::time::SystemTime)
    requires
        call_requires(clock, ()),
    ensures
        call_ensures(clock, (), r),
{
    clock()
}

/// Measures a time.
fn take_since<F: Fn(std::time::SystemTime) -> Option<std::time::Duration>>(
    since: F,
    now: std::time::SystemTime,
) -> (r: Option<std::time::Duration>)
    requires
        call_requires(since, (now,)),
    ensures
        call_ensures(since, (now,), r),
{
    since(now)
}

/// Whether `send` was called with a channel and a message, and told `outcome`.
pub open spec fn sent_with<F: Fn(&UnboundedSender<Message>, Message) -> bool>(
    send: F,
    channel: UnboundedSender<Message>,
    message: MessageView,
    outcome: bool,
) -> bool {
    exists|copy: Message|
        copy@ == message && #[trigger] call_ensures(send, (&channel, copy), outcome)
}

/// Hands a message to each of the channels with `send`, in order; tells what became
/// of each.
pub fn send_to_all<F: Fn(&UnboundedSender<Message>, Message) -> bool>(
    channels: &Vec<UnboundedSender<Message>>,
    message: &Message,
    send: F,
) -> (r: Vec<bool>)
    requires
        forall|channel: &UnboundedSender<Message>, copy: Message| #[trigger]
            call_requires(send, (channel, copy)),
    ensures
        r.len() == channels.len(),
        forall|i: int|
            0 <= i < r@.len() ==> sent_with(send, channels@[i], message@, #[trigger] r@[i]),
{
    let mut outcomes: Vec<bool> = Vec::new();
    let mut i: usize = 0;
    while i < channels.len()
        invariant
            i <= channels.len(),
            outcomes.len() == i,
            forall|channel: &UnboundedSender<Message>, copy: Message| #[trigger]
                call_requires(send, (channel, copy)),
            forall|j: int|
                0 <= j < i ==> sent_with(send, channels@[j], message@, #[trigger] outcomes@[j]),
        decreases channels.len() - i,
    {
        let copy = message.share();
        let ghost sent = copy;
        let outcome: bool = send(&channels[i], copy);
        assert(call_ensures(send, (&channels@[i as int], sent), outcome));
        outcomes.push(outcome);
        i = i + 1;
    }
    outcomes
}

/// Whether a message was handed to a channel, which accepted it or not.
pub closed spec fn was_sent(
    channel: UnboundedSender<Message>,
    message: MessageView,
    outcome: bool,
) -> bool {
    sent_with(dash::deliver, channel, message, outcome)
}

/// How many of the sends were accepted.
pub open spec fn accepted(outcomes: Seq<bool>) -> nat
    decreases outcomes.len(),
{
    if outcomes.len() == 0 {
        0
    } else {
        accepted(outcomes.drop_last()) + (if outcomes.last() {
            1nat
        } else {
            0
        })
    }
}

/// No more sends are accepted than there are.
proof fn lemma_accepted_bound(outcomes: Seq<bool>)
    ensures
        accepted(outcomes) <= outcomes.len(),
    decreases outcomes.len(),
{
    if outcomes.len() > 0 {
        lemma_accepted_bound(outcomes.drop_last());
    }
}

/// The outcome of a publication, from what became of each send: the number of
/// those that were accepted, where there is any.
pub fn result_of_sends(outcomes: &Vec<bool>) -> (r: PublishResult)
    ensures
        accepted(outcomes@) <= usize::MAX,
        r == result_of(accepted(outcomes@) as usize),
{
    let mut sent: usize = 0;
    let mut i: usize = 0;
    while i < outcomes.len()
        invariant
            i <= outcomes.len(),
            sent <= i,
            sent == accepted(outcomes@.take(i as int)),
        decreases outcomes.len() - i,
    {
        assert(outcomes@.take(i + 1).drop_last() =~= outcomes@.take(i as int));
        if outcomes[i] {
            sent = sent + 1;
        }
        i = i + 1;
    }
    assert(outcomes@.take(i as int) =~= outcomes@);
    publish_result(sent)
}

/// The state of publish/subscribe.
pub struct PubSubView {
    /// The subscribers.
    pub subscribers: Map<u64, SubscriberView>,
    /// The number that the next subscriber gets.
    pub next_id: u64,
    /// The number of messages published.
    pub published: u64,
}

/// Whether a subscriber is subscribed to a topic.
pub open spec fn subscribed(
    subscribers: Map<u64, SubscriberView>,
    id: u64,
    topic: Seq<char>,
) -> bool {
    subscribers.dom().contains(id) && subscribers[id].topics.contains(topic)
}

/// Whether anybody is subscribed to a topic.
pub open spec fn is_live(subscribers: Map<u64, SubscriberView>, topic: Seq<char>) -> bool {
    exists|id: u64| subscribed(subscribers, id, topic)
}

/// The topics that anybody is subscribed to.
pub open spec fn live_topics(subscribers: Map<u64, SubscriberView>) -> Set<Seq<char>> {
    Set::new(|topic: Seq<char>| is_live(subscribers, topic))
}

/// The subscribers of a topic.
pub open spec fn subscribers_of(
    subscribers: Map<u64, SubscriberView>,
    topic: Seq<char>,
) -> Set<u64> {
    Set::new(|id: u64| subscribed(subscribers, id, topic))
}

/// Whether a list holds each subscriber of a topic but the excluded one, once.
pub open spec fn lists_recipients(
    subscribers: Map<u64, SubscriberView>,
    topic: Seq<char>,
    exclude: Option<SubscriberId>,
    ids: Seq<SubscriberId>,
) -> bool {
    &&& ids.no_duplicates()
    &&& forall|id: SubscriberId| #[trigger]
        ids.contains(id) <==> subscribed(subscribers, id.0, topic) && exclude != Some(id)
}

/// Whether a subscriber bears a socket identifier.
pub open spec fn bears(
    subscribers: Map<u64, SubscriberView>,
    id: u64,
    socket_id: Seq<char>,
) -> bool {
    subscribers.dom().contains(id) && subscribers[id].socket_id == Some(socket_id)
}

/// Whether anybody bears a socket identifier.
pub open spec fn is_socket(subscribers: Map<u64, SubscriberView>, socket_id: Seq<char>) -> bool {
    exists|id: u64| bears(subscribers, id, socket_id)
}

/// The socket identifiers in use.
pub open spec fn sockets(subscribers: Map<u64, SubscriberView>) -> Set<Seq<char>> {
    Set::new(|s: Seq<char>| is_socket(subscribers, s))
}

/// The topic index holds what follows from the subscribers.
spec fn topics_agree(
    entries: Map<Seq<char>, Set<u64>>,
    subscribers: Map<u64, SubscriberView>,
) -> bool {
    &&& forall|t: Seq<char>| #[trigger]
        entries.dom().contains(t) <==> is_live(subscribers, t)
    &&& forall|t: Seq<char>, id: u64|
        entries.dom().contains(t) ==> (#[trigger] entries[t].contains(id) <==> subscribed(
            subscribers,
            id,
            t,
        ))
}

/// The socket index holds what follows from the subscribers.
spec fn sockets_agree(
    entries: Map<Seq<char>, u64>,
    subscribers: Map<u64, SubscriberView>,
) -> bool {
    &&& forall|s: Seq<char>| #[trigger]
        entries.dom().contains(s) ==> bears(subscribers, entries[s], s)
    &&& forall|id: u64, s: Seq<char>| #[trigger]
        bears(subscribers, id, s) ==> entries.dom().contains(s) && entries[s] == id
}

/// Publish/subscribe state.
pub struct PubSub {
    topics: DashMap<String, DashSet<u64>>,
    subscribers: DashMap<u64, Subscriber>,
    socket_id_map: DashMap<String, u64>,
    next_subscriber_id: u64,
    subscriber_count: u64,
    messages_published: u64,
}

/// The state without the subscription of `id` to `topic`.
pub open spec fn without_topic(
    subscribers: Map<u64, SubscriberView>,
    id: u64,
    topic: Seq<char>,
) -> Map<u64, SubscriberView> {
    if subscribers.dom().contains(id) {
        subscribers.insert(
            id,
            SubscriberView { topics: subscribers[id].topics.remove(topic), ..subscribers[id] },
        )
    } else {
        subscribers
    }
}

/// The state with a subscription of `id` to `topic`.
pub open spec fn with_topic(
    subscribers: Map<u64, SubscriberView>,
    id: u64,
    topic: Seq<char>,
) -> Map<u64, SubscriberView> {
    if subscribers.dom().contains(id) {
        subscribers.insert(
            id,
            SubscriberView { topics: subscribers[id].topics.insert(topic), ..subscribers[id] },
        )
    } else {
        subscribers
    }
}

impl View for PubSub {
    type V = PubSubView;

    closed spec fn view(&self) -> PubSubView {
        PubSubView {
            subscribers: subscriber_entries(self.subscribers),
            next_id: self.next_subscriber_id,
            published: self.messages_published,
        }
    }
}

impl PubSub {
    /// The indexes agree with the subscribers, the subscribers are counted, and
    /// numbers are not given out twice.
    pub closed spec fn wf(&self) -> bool {
        let subs = subscriber_entries(self.subscribers);
        &&& topics_agree(topic_entries(self.topics), subs)
        &&& sockets_agree(socket_entries(self.socket_id_map), subs)
        &&& subs.dom().finite()
        &&& self.subscriber_count == subs.dom().len()
        &&& self.subscriber_count < self.next_subscriber_id
        &&& forall|id: u64| #[trigger] subs.dom().contains(id) ==> id < self.next_subscriber_id
    }

    /// Creates an empty state.
    pub fn new() -> (r: Self)
        ensures
            r.wf(),
            r@.subscribers == Map::<u64, SubscriberView>::empty(),
            r@.next_id == 1,
            r@.published == 0,
    {
        let r = PubSub {
            topics: dash::new_topic_map(),
            subscribers: new_subscriber_map(),
            socket_id_map: dash::new_socket_map(),
            next_subscriber_id: 1,
            subscriber_count: 0,
            messages_published: 0,
        };
        assert(r@.subscribers =~= Map::<u64, SubscriberView>::empty());
        r
    }

    /// Adds a subscriber, under a number that was never given out.
    fn add_subscriber(
        &mut self,
        sender: UnboundedSender<Message>,
        socket_id: Option<String>,
    ) -> (r: SubscriberId)
        requires
            old(self).wf(),
            old(self)@.next_id < u64::MAX,
            socket_id matches Some(s) ==> !is_socket(old(self)@.subscribers, s@),
        ensures
            final(self).wf(),
            r.0 == old(self)@.next_id,
            !old(self)@.subscribers.dom().contains(r.0),
            gives_out(old(self)@, r.0, final(self)@),
            final(self)@ == (PubSubView {
                subscribers: old(self)@.subscribers.insert(
                    r.0,
                    SubscriberView {
                        sender,
                        topics: Set::empty(),
                        socket_id: opt_string_view(socket_id),
                    },
                ),
                next_id: (old(self)@.next_id + 1) as u64,
                published: old(self)@.published,
            }),
            is_added(old(self)@, r.0, sender, opt_string_view(socket_id), final(self)@),
    {
        let ghost before = self@.subscribers;
        let ghost topics0 = topic_entries(self.topics);
        let ghost sockets0 = socket_entries(self.socket_id_map);
        let id: u64 = self.next_subscriber_id;
        self.next_subscriber_id = self.next_subscriber_id + 1;
        match socket_id.as_ref() {
            Some(s) => dash::socket_insert(&mut self.socket_id_map, s.as_str(), id),
            None => {},
        }
        let ghost socket = opt_string_view(socket_id);
        put_subscriber(
            &mut self.subscribers,
            id,
            Subscriber { sender, topics: dash::new_text_set(), socket_id },
        );
        self.subscriber_count = self.subscriber_count + 1;
        proof {
            let now = self@.subscribers;
            assert(!before.dom().contains(id));
            assert forall|i: u64, t: Seq<char>| subscribed(now, i, t) == subscribed(before, i, t) by {
            }
            assert forall|t: Seq<char>| #[trigger] topics0.dom().contains(t) <==> is_live(now, t) by {
                if is_live(now, t) {
                    let i = choose|i: u64| subscribed(now, i, t);
                    assert(subscribed(before, i, t));
                }
                if is_live(before, t) {
                    let i = choose|i: u64| subscribed(before, i, t);
                    assert(subscribed(now, i, t));
                }
            }
            assert(topics_agree(topic_entries(self.topics), now));
            assert forall|i: u64, s: Seq<char>| #[trigger] bears(now, i, s) implies socket_entries(
                self.socket_id_map,
            ).dom().contains(s) && socket_entries(self.socket_id_map)[s] == i by {
                if i != id {
                    assert(bears(before, i, s));
                    assert(is_socket(before, s));
                }
            }
            assert forall|s: Seq<char>| #[trigger]
                socket_entries(self.socket_id_map).dom().contains(s) implies bears(
                now,
                socket_entries(self.socket_id_map)[s],
                s,
            ) by {
                if socket != Some(s) {
                    assert(sockets0.dom().contains(s));
                    assert(bears(before, sockets0[s], s));
                }
            }
            assert(now.dom() =~= before.dom().insert(id));
        }
        SubscriberId(id)
    }

    /// Creates a subscriber that receives messages through `sender`.
    pub fn create_subscriber(&mut self, sender: UnboundedSender<Message>) -> (r: SubscriberId)
        requires
            old(self).wf(),
            old(self)@.next_id < u64::MAX,
        ensures
            final(self).wf(),
            r.0 == old(self)@.next_id,
            !old(self)@.subscribers.dom().contains(r.0),
            gives_out(old(self)@, r.0, final(self)@),
            final(self)@ == (PubSubView {
                subscribers: old(self)@.subscribers.insert(
                    r.0,
                    SubscriberView { sender, topics: Set::empty(), socket_id: None },
                ),
                next_id: (old(self)@.next_id + 1) as u64,
                published: old(self)@.published,
            }),
            is_added(old(self)@, r.0, sender, None, final(self)@),
    {
        self.add_subscriber(sender, None)
    }

    /// Creates a subscriber under a socket identifier that is not in use.
    pub fn create_subscriber_with_id(
        &mut self,
        socket_id: &str,
        sender: UnboundedSender<Message>,
    ) -> (r: SubscriberId)
        requires
            old(self).wf(),
            old(self)@.next_id < u64::MAX,
            !is_socket(old(self)@.subscribers, socket_id@),
        ensures
            final(self).wf(),
            r.0 == old(self)@.next_id,
            !old(self)@.subscribers.dom().contains(r.0),
            gives_out(old(self)@, r.0, final(self)@),
            final(self)@ == (PubSubView {
                subscribers: old(self)@.subscribers.insert(
                    r.0,
                    SubscriberView {
                        sender,
                        topics: Set::empty(),
                        socket_id: Some(socket_id@),
                    },
                ),
                next_id: (old(self)@.next_id + 1) as u64,
                published: old(self)@.published,
            }),
            is_added(old(self)@, r.0, sender, Some(socket_id@), final(self)@),
    {
        self.add_subscriber(sender, Some(socket_id.to_owned()))
    }

    /// Finds the subscriber that bears a socket identifier.
    pub fn get_subscriber_by_socket_id(&self, socket_id: &str) -> (r: Option<SubscriberId>)
        requires
            self.wf(),
        ensures
            match r {
                Some(id) => bears(self@.subscribers, id.0, socket_id@),
                None => !is_socket(self@.subscribers, socket_id@),
            },
    {
        match dash::socket_get(&self.socket_id_map, socket_id) {
            Some(id) => {
                assert(bears(self@.subscribers, id, socket_id@));
                Some(SubscriberId(id))
            },
            None => None,
        }
    }

    /// Creates a subscriber under a socket identifier, or finds the one that
    /// bears it; tells whether it is new.
    pub fn create_subscriber_with_id_or_get(
        &mut self,
        socket_id: &str,
        sender: UnboundedSender<Message>,
    ) -> (r: (SubscriberId, bool))
        requires
            old(self).wf(),
            old(self)@.next_id < u64::MAX,
        ensures
            final(self).wf(),
            r.1 == !is_socket(old(self)@.subscribers, socket_id@),
            if r.1 {
                &&& r.0.0 == old(self)@.next_id
                &&& gives_out(old(self)@, r.0.0, final(self)@)
                &&& final(self)@ == (PubSubView {
                    subscribers: old(self)@.subscribers.insert(
                        r.0.0,
                        SubscriberView {
                        sender,
                        topics: Set::empty(),
                        socket_id: Some(socket_id@),
                    },
                    ),
                    next_id: (old(self)@.next_id + 1) as u64,
                    published: old(self)@.published,
                })
            } else {
                bears(old(self)@.subscribers, r.0.0, socket_id@) && final(self)@ == old(self)@
            },
            r.1 ==> is_added(old(self)@, r.0.0, sender, Some(socket_id@), final(self)@),
            bears(final(self)@.subscribers, r.0.0, socket_id@),
    {
        match self.get_subscriber_by_socket_id(socket_id) {
            Some(id) => {
                assert(is_socket(self@.subscribers, socket_id@));
                (id, false)
            },
            None => (self.create_subscriber_with_id(socket_id, sender), true),
        }
    }

    /// The socket identifier of a subscriber, where it bears one.
    pub fn get_socket_id(&self, id: SubscriberId) -> (r: Option<String>)
        ensures
            opt_string_view(r) == (if self@.subscribers.dom().contains(id.0) {
                self@.subscribers[id.0].socket_id
            } else {
                None
            }),
            opt_string_view(r) == socket_of(self@.subscribers, id.0),
    {
        match subscriber_socket(&self.subscribers, id.0) {
            Some(socket) => socket,
            None => None,
        }
    }

    /// Whether anybody bears a socket identifier.
    pub fn has_socket_id(&self, socket_id: &str) -> (r: bool)
        requires
            self.wf(),
        ensures
            r == is_socket(self@.subscribers, socket_id@),
    {
        match self.get_subscriber_by_socket_id(socket_id) {
            Some(id) => {
                assert(bears(self@.subscribers, id.0, socket_id@));
                true
            },
            None => false,
        }
    }

    /// The number of subscribers.
    #[verifier::truncate]
    pub fn subscriber_count(&self) -> (r: usize)
        requires
            self.wf(),
        ensures
            self@.subscribers.dom().len() <= usize::MAX ==> r == self@.subscribers.dom().len(),
    {
        self.subscriber_count as usize
    }

    /// The number of messages published.
    pub fn messages_published(&self) -> (r: u64)
        ensures
            r == self@.published,
    {
        self.messages_published
    }
}

/// Adding a subscription adds it, and nothing else.
proof fn lemma_with_topic(
    before: Map<u64, SubscriberView>,
    id: u64,
    topic: Seq<char>,
)
    requires
        before.dom().contains(id),
    ensures
        forall|i: u64, t: Seq<char>|
            #![trigger subscribed(with_topic(before, id, topic), i, t)]
            subscribed(with_topic(before, id, topic), i, t) == (subscribed(before, i, t) || (i == id
                && t == topic)),
        forall|t: Seq<char>|
            #![trigger is_live(with_topic(before, id, topic), t)]
            is_live(with_topic(before, id, topic), t) == (is_live(before, t) || t == topic),
        forall|i: u64, s: Seq<char>|
            #![trigger bears(with_topic(before, id, topic), i, s)]
            bears(with_topic(before, id, topic), i, s) == bears(before, i, s),
        with_topic(before, id, topic).dom() == before.dom(),
{
    let now = with_topic(before, id, topic);
    assert(now.dom() =~= before.dom());
    assert forall|t: Seq<char>| #![trigger is_live(now, t)] is_live(now, t) == (is_live(before, t) || t
        == topic) by {
        if is_live(before, t) {
            let i = choose|i: u64| subscribed(before, i, t);
            assert(subscribed(now, i, t));
        }
        if t == topic {
            assert(subscribed(now, id, t));
        }
        if is_live(now, t) {
            let i = choose|i: u64| subscribed(now, i, t);
            assert(subscribed(before, i, t) || t == topic);
        }
    }
}

/// Removing a subscription removes it, and nothing else.
proof fn lemma_without_topic(
    before: Map<u64, SubscriberView>,
    id: u64,
    topic: Seq<char>,
)
    ensures
        forall|i: u64, t: Seq<char>|
            #![trigger subscribed(without_topic(before, id, topic), i, t)]
            subscribed(without_topic(before, id, topic), i, t) == (subscribed(before, i, t) && !(i
                == id && t == topic)),
        forall|t: Seq<char>|
            #![trigger is_live(without_topic(before, id, topic), t)]
            t != topic ==> is_live(without_topic(before, id, topic), t) == is_live(before, t),
        forall|i: u64, s: Seq<char>|
            #![trigger bears(without_topic(before, id, topic), i, s)]
            bears(without_topic(before, id, topic), i, s) == bears(before, i, s),
        without_topic(before, id, topic).dom() == before.dom(),
{
    let now = without_topic(before, id, topic);
    assert(now.dom() =~= before.dom());
    assert forall|t: Seq<char>| #![trigger is_live(now, t)] t != topic implies is_live(now, t)
        == is_live(before, t) by {
        if is_live(before, t) {
            let i = choose|i: u64| subscribed(before, i, t);
            assert(subscribed(now, i, t));
        }
        if is_live(now, t) {
            let i = choose|i: u64| subscribed(now, i, t);
            assert(subscribed(before, i, t));
        }
    }
}

/// The topic index without `id` under `topic`; a topic without subscribers goes.
spec fn unlisted(
    entries: Map<Seq<char>, Set<u64>>,
    id: u64,
    topic: Seq<char>,
) -> Map<Seq<char>, Set<u64>> {
    if !entries.dom().contains(topic) {
        entries
    } else if entries[topic].remove(id) == Set::<u64>::empty() {
        entries.remove(topic)
    } else {
        entries.insert(topic, entries[topic].remove(id))
    }
}

/// Taking a subscription out of the index keeps it in agreement.
proof fn lemma_unlisted(
    entries: Map<Seq<char>, Set<u64>>,
    before: Map<u64, SubscriberView>,
    id: u64,
    topic: Seq<char>,
)
    requires
        topics_agree(entries, before),
    ensures
        topics_agree(unlisted(entries, id, topic), without_topic(before, id, topic)),
{
    let now = without_topic(before, id, topic);
    let after = unlisted(entries, id, topic);
    lemma_without_topic(before, id, topic);
    assert forall|t: Seq<char>| #[trigger] after.dom().contains(t) <==> is_live(now, t) by {
        if t != topic {
            assert(entries.dom().contains(t) <==> is_live(before, t));
        } else if !entries.dom().contains(topic) {
            if is_live(now, t) {
                let i = choose|i: u64| subscribed(now, i, t);
                assert(subscribed(before, i, t));
            }
        } else {
            let rest = entries[topic].remove(id);
            if rest == Set::<u64>::empty() {
                if is_live(now, t) {
                    let i = choose|i: u64| subscribed(now, i, t);
                    assert(subscribed(before, i, t));
                    assert(entries[topic].contains(i));
                    assert(rest.contains(i));
                }
            } else {
                assert(exists|i: u64| rest.contains(i)) by {
                    if forall|i: u64| !rest.contains(i) {
                        assert(rest =~= Set::<u64>::empty());
                    }
                }
                let i = choose|i: u64| rest.contains(i);
                assert(entries[topic].contains(i));
                assert(subscribed(now, i, topic));
            }
        }
    }
    assert forall|t: Seq<char>, i: u64| after.dom().contains(t) implies (#[trigger] after[t].contains(
        i,
    ) <==> subscribed(now, i, t)) by {
        assert(entries.dom().contains(t));
        if t == topic {
            assert(entries[t].contains(i) <==> subscribed(before, i, t));
        } else {
            assert(after[t] == entries[t]);
            assert(entries[t].contains(i) <==> subscribed(before, i, t));
        }
    }
}

impl PubSub {
    /// Takes a subscription out of the topic index; tells whether it was there.
    fn unsubscribe_internal(&mut self, id: u64, topic: &str) -> (r: bool)
        ensures
            topic_entries(final(self).topics) == unlisted(
                topic_entries(old(self).topics),
                id,
                topic@,
            ),
            final(self).subscribers == old(self).subscribers,
            final(self).socket_id_map == old(self).socket_id_map,
            final(self).next_subscriber_id == old(self).next_subscriber_id,
            final(self).subscriber_count == old(self).subscriber_count,
            final(self).messages_published == old(self).messages_published,
            r == (topic_entries(old(self).topics).dom().contains(topic@) && topic_entries(
                old(self).topics,
            )[topic@].contains(id)),
    {
        let ghost entries = topic_entries(self.topics);
        match dash::topic_remove(&mut self.topics, topic) {
            Some(ids) => {
                let mut ids = ids;
                let removed = dash::id_remove(&mut ids, id);
                if !dash::id_set_is_empty(&ids) {
                    dash::topic_insert(&mut self.topics, topic, ids);
                    assert(topic_entries(self.topics) =~= entries.insert(
                        topic@,
                        entries[topic@].remove(id),
                    ));
                }
                removed
            },
            None => {
                assert(topic_entries(self.topics) =~= entries);
                false
            },
        }
    }

    /// Subscribes to a topic; tells whether the subscription is new.
    pub fn subscribe(&mut self, id: SubscriberId, topic: &str) -> (r: bool)
        requires
            old(self).wf(),
        ensures
            final(self).wf(),
            gives_out_nothing(old(self)@, final(self)@),
            r == (old(self)@.subscribers.dom().contains(id.0) && !subscribed(
                old(self)@.subscribers,
                id.0,
                topic@,
            )),
            final(self)@ == (PubSubView {
                subscribers: with_topic(old(self)@.subscribers, id.0, topic@),
                ..old(self)@
            }),
    {
        let ghost before = self@.subscribers;
        let ghost entries = topic_entries(self.topics);
        let mut sub = match take_subscriber(&mut self.subscribers, id.0) {
            Some(s) => s,
            None => {
                assert(self@.subscribers =~= before);
                return false;
            },
        };
        let added = dash::text_insert(&mut sub.topics, topic);
        put_subscriber(&mut self.subscribers, id.0, sub);
        let ghost now = self@.subscribers;
        proof {
            assert(now =~= with_topic(before, id.0, topic@));
            lemma_with_topic(before, id.0, topic@);
            assert(sockets_agree(socket_entries(self.socket_id_map), now)) by {
                assert forall|i: u64, s: Seq<char>| #[trigger] bears(now, i, s) implies socket_entries(
                    self.socket_id_map,
                ).dom().contains(s) && socket_entries(self.socket_id_map)[s] == i by {
                    assert(bears(before, i, s));
                }
            }
        }
        if !added {
            proof {
                assert(before[id.0].topics.insert(topic@) =~= before[id.0].topics);
                assert(now =~= before);
            }
            return false;
        }
        let mut ids = match dash::topic_remove(&mut self.topics, topic) {
            Some(s) => s,
            None => dash::new_id_set(),
        };
        dash::id_insert(&mut ids, id.0);
        dash::topic_insert(&mut self.topics, topic, ids);
        proof {
            let after = topic_entries(self.topics);
            assert forall|t: Seq<char>| #[trigger] after.dom().contains(t) <==> is_live(now, t) by {
                assert(entries.dom().contains(t) <==> is_live(before, t));
                if t == topic@ {
                    assert(subscribed(now, id.0, t));
                }
            }
            assert forall|t: Seq<char>, i: u64| after.dom().contains(t) implies (
            #[trigger] after[t].contains(i) <==> subscribed(now, i, t)) by {
                if entries.dom().contains(t) {
                    assert(entries[t].contains(i) <==> subscribed(before, i, t));
                } else {
                    assert(!is_live(before, t));
                    assert(!subscribed(before, i, t));
                    assert(t == topic@);
                }
            }
        }
        true
    }

    /// Unsubscribes from a topic; tells whether there was a subscription.
    pub fn unsubscribe(&mut self, id: SubscriberId, topic: &str) -> (r: bool)
        requires
            old(self).wf(),
        ensures
            final(self).wf(),
            gives_out_nothing(old(self)@, final(self)@),
            r == subscribed(old(self)@.subscribers, id.0, topic@),
            final(self)@ == (PubSubView {
                subscribers: without_topic(old(self)@.subscribers, id.0, topic@),
                ..old(self)@
            }),
    {
        let ghost before = self@.subscribers;
        let ghost entries = topic_entries(self.topics);
        match take_subscriber(&mut self.subscribers, id.0) {
            Some(s) => {
                let mut sub = s;
                dash::text_remove(&mut sub.topics, topic);
                put_subscriber(&mut self.subscribers, id.0, sub);
            },
            None => {},
        }
        let ghost now = self@.subscribers;
        proof {
            assert(now =~= without_topic(before, id.0, topic@));
            lemma_without_topic(before, id.0, topic@);
            lemma_unlisted(entries, before, id.0, topic@);
            assert(sockets_agree(socket_entries(self.socket_id_map), now)) by {
                assert forall|i: u64, s: Seq<char>| #[trigger] bears(now, i, s) implies socket_entries(
                    self.socket_id_map,
                ).dom().contains(s) && socket_entries(self.socket_id_map)[s] == i by {
                    assert(bears(before, i, s));
                }
            }
            if !entries.dom().contains(topic@) {
                assert(!is_live(before, topic@));
                assert(!subscribed(before, id.0, topic@));
            }
        }
        self.unsubscribe_internal(id.0, topic)
    }

    /// Removes a subscriber with all its subscriptions and its socket identifier.
    pub fn remove_subscriber(&mut self, id: SubscriberId)
        requires
            old(self).wf(),
        ensures
            final(self).wf(),
            gives_out_nothing(old(self)@, final(self)@),
            final(self)@ == (PubSubView {
                subscribers: old(self)@.subscribers.remove(id.0),
                ..old(self)@
            }),
            is_removed(old(self)@, id.0, final(self)@),
    {
        let ghost before = self@.subscribers;
        let ghost sockets0 = socket_entries(self.socket_id_map);
        let sub = match take_subscriber(&mut self.subscribers, id.0) {
            Some(s) => s,
            None => {
                assert(self@.subscribers =~= before);
                return ;
            },
        };
        let ghost now = self@.subscribers;
        let ghost mine = before[id.0];
        match sub.socket_id.as_ref() {
            Some(s) => dash::socket_remove(&mut self.socket_id_map, s.as_str()),
            None => {},
        }
        let topics = dash::text_items(&sub.topics);
        let ghost names = listed(topics@);
        let ghost mut state = before;
        let mut i: usize = 0;
        while i < topics.len()
            invariant
                i <= topics.len(),
                names == listed(topics@),
                names.len() == topics.len(),
                now == before.remove(id.0),
                before.dom().contains(id.0),
                self@.subscribers == now,
                self.subscriber_count == old(self).subscriber_count,
                self.next_subscriber_id == old(self).next_subscriber_id,
                self.messages_published == old(self).messages_published,
                socket_entries(self.socket_id_map) == (match mine.socket_id {
                    Some(s) => sockets0.remove(s),
                    None => sockets0,
                }),
                topics_agree(topic_entries(self.topics), state),
                state.dom() == before.dom(),
                forall|j: u64| j != id.0 ==> #[trigger] state[j] == before[j],
                forall|t: Seq<char>| #[trigger]
                    state[id.0].topics.contains(t) <==> mine.topics.contains(t) && !names.take(
                        i as int,
                    ).contains(t),
            decreases topics.len() - i,
        {
            let ghost entries = topic_entries(self.topics);
            let ghost earlier = state;
            self.unsubscribe_internal(id.0, topics[i].as_str());
            proof {
                let t = names[i as int];
                assert(t == topics@[i as int]@);
                lemma_unlisted(entries, state, id.0, t);
                state = without_topic(state, id.0, t);
                assert(state.dom() =~= before.dom());
                assert(names.take(i + 1) =~= names.take(i as int).push(t));
                assert forall|u: Seq<char>| #[trigger] state[id.0].topics.contains(u)
                    <==> mine.topics.contains(u) && !names.take(i + 1).contains(u) by {
                    assert(state[id.0].topics == earlier[id.0].topics.remove(t));
                    let a = names.take(i as int);
                    assert(names.take(i + 1) == a.push(t));
                    assert(a.push(t).contains(u) <==> a.contains(u) || u == t) by {
                        if a.contains(u) {
                            let k = choose|k: int| 0 <= k < a.len() && a[k] == u;
                            assert(a.push(t)[k] == u);
                        }
                        if u == t {
                            assert(a.push(t)[a.len() as int] == u);
                        }
                        if a.push(t).contains(u) {
                            let k = choose|k: int| 0 <= k < a.push(t).len() && a.push(t)[k] == u;
                            if k < a.len() {
                                assert(a[k] == u);
                            }
                        }
                    }
                }
            }
            i = i + 1;
        }
        self.subscriber_count = self.subscriber_count - 1;
        proof {
            assert(names.take(i as int) =~= names);
            assert forall|t: Seq<char>| !(#[trigger] state[id.0].topics.contains(t)) by {
                if mine.topics.contains(t) {
                    assert(names.to_set().contains(t));
                }
            }
            assert forall|j: u64, t: Seq<char>| subscribed(state, j, t) == subscribed(now, j, t) by {
                if j != id.0 {
                    assert(state[j] == before[j]);
                }
            }
            let after = topic_entries(self.topics);
            assert forall|t: Seq<char>| #[trigger] after.dom().contains(t) <==> is_live(now, t) by {
                if is_live(now, t) {
                    let j = choose|j: u64| subscribed(now, j, t);
                    assert(subscribed(state, j, t));
                }
                if is_live(state, t) {
                    let j = choose|j: u64| subscribed(state, j, t);
                    assert(subscribed(now, j, t));
                }
            }
            assert(topics_agree(after, now));
            assert forall|j: u64, s: Seq<char>| #[trigger] bears(now, j, s) implies socket_entries(
                self.socket_id_map,
            ).dom().contains(s) && socket_entries(self.socket_id_map)[s] == j by {
                assert(bears(before, j, s));
                if mine.socket_id == Some(s) {
                    assert(bears(before, id.0, s));
                }
            }
            assert forall|s: Seq<char>| #[trigger]
                socket_entries(self.socket_id_map).dom().contains(s) implies bears(
                now,
                socket_entries(self.socket_id_map)[s],
                s,
            ) by {
                assert(sockets0.dom().contains(s));
                assert(bears(before, sockets0[s], s));
                if sockets0[s] == id.0 {
                    assert(mine.socket_id == Some(s));
                }
            }
            assert(now.dom() =~= before.dom().remove(id.0));
        }
    }

    /// Removes the subscriber that bears a socket identifier; tells whether there
    /// was one.
    pub fn remove_subscriber_by_socket_id(&mut self, socket_id: &str) -> (r: bool)
        requires
            old(self).wf(),
        ensures
            final(self).wf(),
            r == is_socket(old(self)@.subscribers, socket_id@),
            r ==> exists|id: u64| #[trigger]
                bears(old(self)@.subscribers, id, socket_id@) && final(self)@ == (PubSubView {
                    subscribers: old(self)@.subscribers.remove(id),
                    ..old(self)@
                }),
            !r ==> final(self)@ == old(self)@,
            !is_socket(final(self)@.subscribers, socket_id@),
            r ==> exists|id: u64| #[trigger]
                bears(old(self)@.subscribers, id, socket_id@) && is_removed(
                    old(self)@,
                    id,
                    final(self)@,
                ),
    {
        match self.get_subscriber_by_socket_id(socket_id) {
            Some(id) => {
                assert(bears(self@.subscribers, id.0, socket_id@));
                let ghost before = *self;
                self.remove_subscriber(id);
                proof {
                    assert forall|other: u64| !(#[trigger] bears(
                        self@.subscribers,
                        other,
                        socket_id@,
                    )) by {
                        if bears(self@.subscribers, other, socket_id@) {
                            assert(bears(before@.subscribers, other, socket_id@));
                            law_socket_ids_are_unique(&before, id.0, other, socket_id@);
                        }
                    }
                }
                true
            },
            None => false,
        }
    }

    /// Subscribes the bearer of a socket identifier to a topic; tells whether the
    /// subscription is new.
    pub fn subscribe_by_socket_id(&mut self, socket_id: &str, topic: &str) -> (r: bool)
        requires
            old(self).wf(),
        ensures
            final(self).wf(),
            if is_socket(old(self)@.subscribers, socket_id@) {
                exists|id: u64| #[trigger]
                    bears(old(self)@.subscribers, id, socket_id@) && r == !subscribed(
                        old(self)@.subscribers,
                        id,
                        topic@,
                    ) && final(self)@ == (PubSubView {
                        subscribers: with_topic(old(self)@.subscribers, id, topic@),
                        ..old(self)@
                    })
            } else {
                !r && final(self)@ == old(self)@
            },
    {
        match self.get_subscriber_by_socket_id(socket_id) {
            Some(id) => {
                assert(bears(self@.subscribers, id.0, socket_id@));
                self.subscribe(id, topic)
            },
            None => false,
        }
    }

    /// Unsubscribes the bearer of a socket identifier from a topic; tells whether
    /// there was a subscription.
    pub fn unsubscribe_by_socket_id(&mut self, socket_id: &str, topic: &str) -> (r: bool)
        requires
            old(self).wf(),
        ensures
            final(self).wf(),
            if is_socket(old(self)@.subscribers, socket_id@) {
                exists|id: u64| #[trigger]
                    bears(old(self)@.subscribers, id, socket_id@) && r == subscribed(
                        old(self)@.subscribers,
                        id,
                        topic@,
                    ) && final(self)@ == (PubSubView {
                        subscribers: without_topic(old(self)@.subscribers, id, topic@),
                        ..old(self)@
                    })
            } else {
                !r && final(self)@ == old(self)@
            },
    {
        match self.get_subscriber_by_socket_id(socket_id) {
            Some(id) => {
                assert(bears(self@.subscribers, id.0, socket_id@));
                self.unsubscribe(id, topic)
            },
            None => false,
        }
    }

    /// Whether a subscriber is subscribed to a topic.
    pub fn is_subscribed(&self, id: SubscriberId, topic: &str) -> (r: bool)
        requires
            self.wf(),
        ensures
            r == subscribed(self@.subscribers, id.0, topic@),
    {
        match dash::topic_ids(&self.topics, topic) {
            Some(ids) => {
                proof {
                    assert(topic_entries(self.topics)[topic@].contains(id.0) <==> subscribed(
                        self@.subscribers,
                        id.0,
                        topic@,
                    ));
                    assert(ids@.to_set().contains(id.0) <==> ids@.contains(id.0));
                }
                contains_id(&ids, id.0)
            },
            None => {
                assert(!is_live(self@.subscribers, topic@));
                false
            },
        }
    }

    /// Whether the bearer of a socket identifier is subscribed to a topic.
    pub fn is_subscribed_by_socket_id(&self, socket_id: &str, topic: &str) -> (r: bool)
        requires
            self.wf(),
        ensures
            r == exists|id: u64| #[trigger]
                bears(self@.subscribers, id, socket_id@) && subscribed(
                    self@.subscribers,
                    id,
                    topic@,
                ),
    {
        match self.get_subscriber_by_socket_id(socket_id) {
            Some(id) => {
                proof {
                    assert(bears(self@.subscribers, id.0, socket_id@));
                    assert forall|j: u64| #[trigger]
                        bears(self@.subscribers, j, socket_id@) implies j == id.0 by {
                        assert(socket_entries(self.socket_id_map)[socket_id@] == j);
                        assert(socket_entries(self.socket_id_map)[socket_id@] == id.0);
                    }
                }
                self.is_subscribed(id, topic)
            },
            None => false,
        }
    }

    /// The number of subscribers of a topic.
    pub fn topic_subscriber_count(&self, topic: &str) -> (r: usize)
        requires
            self.wf(),
        ensures
            r == subscribers_of(self@.subscribers, topic@).len(),
    {
        match dash::topic_ids(&self.topics, topic) {
            Some(ids) => {
                proof {
                    ids@.unique_seq_to_set();
                    assert(ids@.to_set() =~= subscribers_of(self@.subscribers, topic@)) by {
                        assert forall|i: u64| ids@.to_set().contains(i) <==> subscribers_of(
                            self@.subscribers,
                            topic@,
                        ).contains(i) by {
                            assert(topic_entries(self.topics)[topic@].contains(i) <==> subscribed(
                                self@.subscribers,
                                i,
                                topic@,
                            ));
                        }
                    }
                }
                ids.len()
            },
            None => {
                proof {
                    assert(!is_live(self@.subscribers, topic@));
                    assert(subscribers_of(self@.subscribers, topic@) =~= Set::empty()) by {
                        assert forall|i: u64| !subscribers_of(self@.subscribers, topic@).contains(
                            i,
                        ) by {
                            assert(!subscribed(self@.subscribers, i, topic@));
                        }
                    }
                }
                0
            },
        }
    }

    /// The number of topics that anybody is subscribed to.
    pub fn topic_count(&self) -> (r: usize)
        requires
            self.wf(),
        ensures
            r == live_topics(self@.subscribers).len(),
    {
        assert(topic_entries(self.topics).dom() =~= live_topics(self@.subscribers));
        dash::topic_map_len(&self.topics)
    }

    /// The topics of a subscriber, in no particular order.
    pub fn subscriber_topics(&self, id: SubscriberId) -> (r: Vec<String>)
        ensures
            listed(r@).no_duplicates(),
            listed(r@).to_set() == (if self@.subscribers.dom().contains(id.0) {
                self@.subscribers[id.0].topics
            } else {
                Set::empty()
            }),
            listed(r@).to_set() == topics_of(self@.subscribers, id.0),
    {
        match subscriber_topic_list(&self.subscribers, id.0) {
            Some(topics) => topics,
            None => {
                let r: Vec<String> = Vec::new();
                assert(listed(r@).to_set() =~= Set::empty());
                r
            },
        }
    }

    /// The topics of the bearer of a socket identifier, in no particular order.
    pub fn subscriber_topics_by_socket_id(&self, socket_id: &str) -> (r: Vec<String>)
        requires
            self.wf(),
        ensures
            listed(r@).no_duplicates(),
            if is_socket(self@.subscribers, socket_id@) {
                exists|id: u64| #[trigger]
                    bears(self@.subscribers, id, socket_id@) && listed(r@).to_set()
                        == self@.subscribers[id].topics
            } else {
                r@.len() == 0
            },
    {
        match self.get_subscriber_by_socket_id(socket_id) {
            Some(id) => {
                assert(bears(self@.subscribers, id.0, socket_id@));
                self.subscriber_topics(id)
            },
            None => Vec::new(),
        }
    }

    /// The topics that anybody is subscribed to, in no particular order.
    pub fn all_topics(&self) -> (r: Vec<String>)
        requires
            self.wf(),
        ensures
            listed(r@).no_duplicates(),
            listed(r@).to_set() == live_topics(self@.subscribers),
    {
        assert(topic_entries(self.topics).dom() =~= live_topics(self@.subscribers));
        dash::topic_names(&self.topics)
    }

    /// The socket identifiers in use, in no particular order.
    pub fn all_socket_ids(&self) -> (r: Vec<String>)
        requires
            self.wf(),
        ensures
            listed(r@).no_duplicates(),
            listed(r@).to_set() == sockets(self@.subscribers),
    {
        proof {
            assert forall|s: Seq<char>| socket_entries(self.socket_id_map).dom().contains(s)
                <==> sockets(self@.subscribers).contains(s) by {
                if is_socket(self@.subscribers, s) {
                    let id = choose|id: u64| bears(self@.subscribers, id, s);
                    assert(bears(self@.subscribers, id, s));
                }
                if socket_entries(self.socket_id_map).dom().contains(s) {
                    assert(bears(self@.subscribers, socket_entries(self.socket_id_map)[s], s));
                }
            }
            assert(socket_entries(self.socket_id_map).dom() =~= sockets(self@.subscribers));
        }
        dash::socket_names(&self.socket_id_map)
    }

    /// The subscribers that a message to a topic goes to, in no particular order;
    /// `None` where nobody is subscribed.
    pub fn recipients(&self, topic: &str, exclude: Option<SubscriberId>) -> (r: Option<
        Vec<SubscriberId>,
    >)
        requires
            self.wf(),
        ensures
            match r {
                Some(ids) => {
                    &&& is_live(self@.subscribers, topic@)
                    &&& ids@.no_duplicates()
                    &&& forall|id: SubscriberId| #[trigger]
                        ids@.contains(id) <==> subscribed(self@.subscribers, id.0, topic@)
                            && exclude != Some(id)
                },
                None => !is_live(self@.subscribers, topic@),
            },
    {
        let ids = match dash::topic_ids(&self.topics, topic) {
            Some(ids) => ids,
            None => {
                return None;
            },
        };
        let ghost entries = topic_entries(self.topics);
        let mut out: Vec<SubscriberId> = Vec::new();
        let mut i: usize = 0;
        while i < ids.len()
            invariant
                self.wf(),
                entries == topic_entries(self.topics),
                entries.dom().contains(topic@),
                ids@.to_set() == entries[topic@],
                ids@.no_duplicates(),
                i <= ids.len(),
                out@.no_duplicates(),
                forall|id: SubscriberId| #[trigger]
                    out@.contains(id) <==> ids@.take(i as int).contains(id.0) && exclude != Some(id),
            decreases ids.len() - i,
        {
            let id = SubscriberId(ids[i]);
            let ghost before = out@;
            let skip = match exclude {
                Some(e) => e == id,
                None => false,
            };
            proof {
                lemma_take_contains(ids@, i as int);
                if before.contains(id) {
                    let k = choose|k: int|
                        0 <= k < ids@.take(i as int).len() && ids@.take(i as int)[k] == id.0;
                    assert(ids@[k] == ids@[i as int]);
                }
            }
            if !skip {
                out.push(id);
                proof {
                    assert forall|j: SubscriberId| #[trigger] out@.contains(j) <==> (before.contains(
                        j,
                    ) || j == id) by {
                        if before.contains(j) {
                            let k = choose|k: int| 0 <= k < before.len() && before[k] == j;
                            assert(out@[k] == j);
                        }
                        if j == id {
                            assert(out@[before.len() as int] == j);
                        }
                        if out@.contains(j) {
                            let k = choose|k: int| 0 <= k < out@.len() && out@[k] == j;
                            if k < before.len() {
                                assert(before[k] == j);
                            }
                        }
                    }
                }
            }
            proof {
                assert forall|j: SubscriberId| #[trigger] out@.contains(j) <==> ids@.take(
                    i + 1,
                ).contains(j.0) && exclude != Some(j) by {
                    assert(ids@.take(i + 1).contains(j.0) <==> ids@.take(i as int).contains(j.0)
                        || j.0 == ids@[i as int]);
                    assert(before.contains(j) <==> ids@.take(i as int).contains(j.0) && exclude
                        != Some(j));
                }
            }
            i = i + 1;
        }
        proof {
            assert(ids@.take(i as int) =~= ids@);
            assert forall|id: SubscriberId| #[trigger] out@.contains(id) <==> subscribed(
                self@.subscribers,
                id.0,
                topic@,
            ) && exclude != Some(id) by {
                assert(ids@.to_set().contains(id.0) <==> ids@.contains(id.0));
                assert(entries[topic@].contains(id.0) <==> subscribed(
                    self@.subscribers,
                    id.0,
                    topic@,
                ));
            }
        }
        Some(out)
    }

    /// The channels of the given subscribers, in the same order.
    fn channels(&self, ids: &Vec<SubscriberId>) -> (r: Vec<UnboundedSender<Message>>)
        requires
            self.wf(),
            forall|i: int|
                0 <= i < ids@.len() ==> self@.subscribers.dom().contains((#[trigger] ids@[i]).0),
        ensures
            r.len() == ids.len(),
            forall|i: int|
                0 <= i < r@.len() ==> #[trigger] r@[i] == self@.subscribers[ids@[i].0].sender,
    {
        let mut out: Vec<UnboundedSender<Message>> = Vec::new();
        let mut i: usize = 0;
        while i < ids.len()
            invariant
                i <= ids.len(),
                out.len() == i,
                forall|j: int|
                    0 <= j < ids@.len() ==> self@.subscribers.dom().contains(
                        (#[trigger] ids@[j]).0,
                    ),
                forall|j: int|
                    0 <= j < i ==> #[trigger] out@[j] == self@.subscribers[ids@[j].0].sender,
            decreases ids.len() - i,
        {
            assert(self@.subscribers.dom().contains(ids@[i as int].0));
            match subscriber_channel(&self.subscribers, ids[i].0) {
                Some(sender) => out.push(sender),
                None => {},
            }
            i = i + 1;
        }
        out
    }

    /// The channels that a message to a topic goes to, in no particular order;
    /// `None` where nobody is subscribed.
    pub fn deliveries(&self, topic: &str, exclude: Option<SubscriberId>) -> (r: Option<
        Vec<UnboundedSender<Message>>,
    >)
        requires
            self.wf(),
        ensures
            match r {
                Some(senders) => is_live(self@.subscribers, topic@) && exists|
                    ids: Seq<SubscriberId>,
                | #[trigger]
                    lists_recipients(self@.subscribers, topic@, exclude, ids) && senders@
                        =~= ids.map_values(|id: SubscriberId| self@.subscribers[id.0].sender),
                None => !is_live(self@.subscribers, topic@),
            },
    {
        match self.recipients(topic, exclude) {
            Some(ids) => {
                assert forall|i: int| 0 <= i < ids@.len() implies self@.subscribers.dom().contains(
                    (#[trigger] ids@[i]).0,
                ) by {
                    assert(ids@.contains(ids@[i]));
                }
                let senders = self.channels(&ids);
                assert(lists_recipients(self@.subscribers, topic@, exclude, ids@));
                Some(senders)
            },
            None => None,
        }
    }

    /// Sends a message to the subscribers of a topic.
    fn publish_impl(&mut self, topic: &str, message: Message, exclude: Option<SubscriberId>) -> (r:
        PublishResult)
        requires
            old(self).wf(),
        ensures
            final(self).wf(),
            published(old(self)@, topic@, exclude, message@, r, final(self)@),
    {
        let senders = match self.deliveries(topic, exclude) {
            Some(senders) => senders,
            None => {
                return PublishResult::NoSubscribers;
            },
        };
        let outcomes = send_to_all(&senders, &message, dash::deliver);
        self.messages_published = self.messages_published.wrapping_add(1);
        proof {
            let subscribers = self@.subscribers;
            let ids = choose|ids: Seq<SubscriberId>| #[trigger]
                lists_recipients(subscribers, topic@, exclude, ids) && senders@
                    =~= ids.map_values(|id: SubscriberId| subscribers[id.0].sender);
            lemma_accepted_bound(outcomes@);
            assert forall|i: int| 0 <= i < outcomes@.len() implies was_sent(
                subscribers[ids[i].0].sender,
                message@,
                #[trigger] outcomes@[i],
            ) by {
                assert(senders@[i] == subscribers[ids[i].0].sender);
            }
            assert(is_outcome(
                subscribers,
                topic@,
                exclude,
                message@,
                ids,
                outcomes@,
                result_of(accepted(outcomes@) as usize),
            ));
        }
        result_of_sends(&outcomes)
    }

    /// Sends a message to every subscriber of a topic.
    pub fn publish(&mut self, topic: &str, message: Message) -> (r: PublishResult)
        requires
            old(self).wf(),
        ensures
            final(self).wf(),
            published(old(self)@, topic@, None, message@, r, final(self)@),
    {
        self.publish_impl(topic, message, None)
    }

    /// Sends a message to every subscriber of a topic but one.
    pub fn publish_excluding(&mut self, exclude: SubscriberId, topic: &str, message: Message) -> (r:
        PublishResult)
        requires
            old(self).wf(),
        ensures
            final(self).wf(),
            published(old(self)@, topic@, Some(exclude), message@, r, final(self)@),
    {
        self.publish_impl(topic, message, Some(exclude))
    }

    /// Sends a message to every subscriber of a topic but the bearer of a socket
    /// identifier; where nobody bears it, to all.
    pub fn publish_excluding_socket_id(&mut self, socket_id: &str, topic: &str, message: Message)
        -> (r: PublishResult)
        requires
            old(self).wf(),
        ensures
            final(self).wf(),
            if is_socket(old(self)@.subscribers, socket_id@) {
                exists|id: u64| #[trigger]
                    bears(old(self)@.subscribers, id, socket_id@) && published(
                        old(self)@,
                        topic@,
                        Some(SubscriberId(id)),
                        message@,
                        r,
                        final(self)@,
                    )
            } else {
                published(old(self)@, topic@, None, message@, r, final(self)@)
            },
    {
        match self.get_subscriber_by_socket_id(socket_id) {
            Some(id) => {
                assert(bears(self@.subscribers, id.0, socket_id@));
                self.publish_excluding(id, topic, message)
            },
            None => self.publish(topic, message),
        }
    }

    /// Makes a socket identifier from the time.
    pub fn generate_socket_id() -> (r: String)
        ensures
            exists|now: u128| was_read(now) && r@ == #[trigger] socket_id_at(now),
    {
        socket_id_from(now_nanos())
    }
}

impl Default for PubSub {
    fn default() -> (r: Self)
        ensures
            r.wf(),
            r@.subscribers == Map::<u64, SubscriberView>::empty(),
            r@.next_id == 1,
            r@.published == 0,
    {
        PubSub::new()
    }
}

/// The socket identifier made at a time.
pub open spec fn socket_id_at(now: u128) -> Seq<char> {
    text::decimal(((now & 0xFFFFFFFFFFu128) ^ (now >> 40u128)) as nat) + "."@ + text::decimal(
        ((now >> 20u128) ^ (now & 0xFFFFFu128)) as nat,
    )
}

/// Makes the socket identifier of a time, given in nanoseconds.
pub fn socket_id_from(now: u128) -> (r: String)
    ensures
        r@ == socket_id_at(now),
{
    let first: u128 = (now & 0xFFFFFFFFFFu128) ^ (now >> 40u128);
    let second: u128 = (now >> 20u128) ^ (now & 0xFFFFFu128);
    let mut s = text::u128_to_decimal(first);
    s.append(".");
    s.append(text::u128_to_decimal(second).as_str());
    s
}

/// Whether an identifier is in a list.
fn contains_id(ids: &Vec<u64>, id: u64) -> (r: bool)
    ensures
        r == ids@.contains(id),
{
    let mut i: usize = 0;
    while i < ids.len()
        invariant
            i <= ids.len(),
            forall|j: int| 0 <= j < i ==> #[trigger] ids@[j] != id,
        decreases ids.len() - i,
    {
        if ids[i] == id {
            return true;
        }
        i = i + 1;
    }
    false
}

/// One more element of a list.
proof fn lemma_take_contains(s: Seq<u64>, i: int)
    requires
        0 <= i < s.len(),
    ensures
        forall|x: u64| #[trigger] s.take(i + 1).contains(x) <==> s.take(i).contains(x) || x == s[i],
{
    let a = s.take(i);
    let b = s.take(i + 1);
    assert forall|x: u64| #[trigger] b.contains(x) <==> a.contains(x) || x == s[i] by {
        if a.contains(x) {
            let k = choose|k: int| 0 <= k < a.len() && a[k] == x;
            assert(b[k] == x);
        }
        if x == s[i] {
            assert(b[i] == x);
        }
        if b.contains(x) {
            let k = choose|k: int| 0 <= k < b.len() && b[k] == x;
            if k < i {
                assert(a[k] == x);
            }
        }
    }
}

/// A list of the recipients is as long as there are recipients.
proof fn lemma_recipient_count(
    subscribers: Map<u64, SubscriberView>,
    topic: Seq<char>,
    exclude: Option<SubscriberId>,
    ids: Seq<SubscriberId>,
)
    requires
        ids.no_duplicates(),
        forall|id: SubscriberId| #[trigger]
            ids.contains(id) <==> subscribed(subscribers, id.0, topic) && exclude != Some(id),
    ensures
        ids.len() == recipient_set(subscribers, topic, exclude).len(),
{
    let numbers = ids.map_values(|id: SubscriberId| id.0);
    assert(numbers.no_duplicates()) by {
        assert forall|i: int, j: int| 0 <= i < numbers.len() && 0 <= j < numbers.len() && i != j implies
            numbers[i] != numbers[j] by {
            assert(ids[i] != ids[j]);
        }
    }
    numbers.unique_seq_to_set();
    let all = recipient_set(subscribers, topic, exclude);
    assert forall|n: u64| numbers.to_set().contains(n) <==> all.contains(n) by {
        let id = SubscriberId(n);
        if numbers.contains(n) {
            let k = choose|k: int| 0 <= k < numbers.len() && numbers[k] == n;
            assert(ids[k] == id);
            assert(ids.contains(id));
        }
        if all.contains(n) {
            assert(ids.contains(id));
            let k = choose|k: int| 0 <= k < ids.len() && ids[k] == id;
            assert(numbers[k] == n);
        }
    }
    assert(numbers.to_set() =~= all);
}

/// The recipients of a message.
pub open spec fn recipient_set(
    subscribers: Map<u64, SubscriberView>,
    topic: Seq<char>,
    exclude: Option<SubscriberId>,
) -> Set<u64> {
    match exclude {
        Some(id) => subscribers_of(subscribers, topic).remove(id.0),
        None => subscribers_of(subscribers, topic),
    }
}

/// Whether `ids` lists the recipients, `outcomes` tells what became of handing the
/// message to the channel of each, and `r` tells how many accepted it.
pub open spec fn is_outcome(
    subscribers: Map<u64, SubscriberView>,
    topic: Seq<char>,
    exclude: Option<SubscriberId>,
    message: MessageView,
    ids: Seq<SubscriberId>,
    outcomes: Seq<bool>,
    r: PublishResult,
) -> bool {
    &&& lists_recipients(subscribers, topic, exclude, ids)
    &&& outcomes.len() == ids.len()
    &&& forall|i: int|
        0 <= i < outcomes.len() ==> was_sent(
            subscribers[ids[i].0].sender,
            message,
            #[trigger] outcomes[i],
        )
    &&& accepted(outcomes) <= usize::MAX
    &&& r == result_of(accepted(outcomes) as usize)
}

/// What publishing does.
///
/// Without subscribers of the topic nothing happens. Otherwise the message is
/// counted, and it went to at most as many subscribers as there are recipients;
/// how many of them were still listening is up to them.
pub open spec fn published(
    before: PubSubView,
    topic: Seq<char>,
    exclude: Option<SubscriberId>,
    message: MessageView,
    r: PublishResult,
    after: PubSubView,
) -> bool {
    if !is_live(before.subscribers, topic) {
        r == PublishResult::NoSubscribers && after == before
    } else {
        &&& after == (PubSubView {
            published: if before.published == u64::MAX {
                0
            } else {
                (before.published + 1) as u64
            },
            ..before
        })
        &&& exists|ids: Seq<SubscriberId>, outcomes: Seq<bool>| #[trigger]
            is_outcome(before.subscribers, topic, exclude, message, ids, outcomes, r)
    }
}

/// A message is handed to each recipient once, and no more accept it than there
/// are.
pub proof fn law_one_send_for_each_recipient(
    subscribers: Map<u64, SubscriberView>,
    topic: Seq<char>,
    exclude: Option<SubscriberId>,
    message: MessageView,
    ids: Seq<SubscriberId>,
    outcomes: Seq<bool>,
    r: PublishResult,
)
    requires
        is_outcome(subscribers, topic, exclude, message, ids, outcomes, r),
    ensures
        outcomes.len() == recipient_set(subscribers, topic, exclude).len(),
        accepted(outcomes) <= recipient_set(subscribers, topic, exclude).len(),
{
    lemma_recipient_count(subscribers, topic, exclude, ids);
    lemma_accepted_bound(outcomes);
}

/// No two subscribers bear the same socket identifier.
pub proof fn law_socket_ids_are_unique(p: &PubSub, a: u64, b: u64, socket_id: Seq<char>)
    requires
        p.wf(),
        bears(p@.subscribers, a, socket_id),
        bears(p@.subscribers, b, socket_id),
    ensures
        a == b,
{
    assert(socket_entries(p.socket_id_map)[socket_id] == a);
    assert(socket_entries(p.socket_id_map)[socket_id] == b);
}

/// Whether a subscriber was created under the number `id`.
pub open spec fn gives_out(before: PubSubView, id: u64, after: PubSubView) -> bool {
    &&& id == before.next_id
    &&& after.next_id == id + 1
    &&& after.subscribers.dom() == before.subscribers.dom().insert(id)
}

/// Whether the state was changed without a new subscriber.
pub open spec fn gives_out_nothing(before: PubSubView, after: PubSubView) -> bool {
    &&& after.next_id == before.next_id
    &&& after.subscribers.dom().subset_of(before.subscribers.dom())
}

/// Whether each state comes from the one before it by a new subscriber, or by
/// anything else that can be done: subscriptions, publications, removals.
pub open spec fn is_history(states: Seq<PubSubView>) -> bool {
    forall|i: int, j: int|
        0 <= i && j == i + 1 && j < states.len() ==> gives_out(
            #[trigger] states[i],
            states[i].next_id,
            #[trigger] states[j],
        ) || gives_out_nothing(states[i], states[j])
}

/// Numbers only grow.
proof fn lemma_numbers_grow(states: Seq<PubSubView>, i: int, j: int)
    requires
        is_history(states),
        0 <= i <= j < states.len(),
    ensures
        states[i].next_id <= states[j].next_id,
    decreases j - i,
{
    if i < j {
        lemma_numbers_grow(states, i, j - 1);
        assert(gives_out(states[j - 1], states[j - 1].next_id, states[j]) || gives_out_nothing(
            states[j - 1],
            states[j],
        ));
    }
}

/// No number is given out twice, whatever was removed in between.
pub proof fn law_numbers_are_given_out_once(
    states: Seq<PubSubView>,
    i: int,
    a: u64,
    j: int,
    b: u64,
)
    requires
        is_history(states),
        0 <= i < j,
        j + 1 < states.len(),
        gives_out(states[i], a, states[i + 1]),
        gives_out(states[j], b, states[j + 1]),
    ensures
        a < b,
{
    lemma_numbers_grow(states, i + 1, j);
}

/// A number whose subscriber is gone stays unused.
pub proof fn law_removed_numbers_stay_unused(states: Seq<PubSubView>, id: u64, i: int, j: int)
    requires
        is_history(states),
        0 <= i <= j < states.len(),
        id < states[i].next_id,
        !states[i].subscribers.dom().contains(id),
    ensures
        !states[j].subscribers.dom().contains(id),
    decreases j - i,
{
    if i < j {
        law_removed_numbers_stay_unused(states, id, i, j - 1);
        lemma_numbers_grow(states, i, j - 1);
        assert(gives_out(states[j - 1], states[j - 1].next_id, states[j]) || gives_out_nothing(
            states[j - 1],
            states[j],
        ));
    }
}

/// A number that will be given out is above all that are in use.
pub proof fn law_numbers_are_fresh(p: &PubSub, id: u64)
    requires
        p.wf(),
        p@.subscribers.dom().contains(id),
    ensures
        id < p@.next_id,
{
}

/// Unsubscribing undoes a new subscription.
pub proof fn law_unsubscribe_undoes_subscribe(
    subscribers: Map<u64, SubscriberView>,
    id: u64,
    topic: Seq<char>,
)
    requires
        !subscribed(subscribers, id, topic),
    ensures
        without_topic(with_topic(subscribers, id, topic), id, topic) == subscribers,
{
    if subscribers.dom().contains(id) {
        assert(subscribers[id].topics.insert(topic).remove(topic) =~= subscribers[id].topics);
        assert(without_topic(with_topic(subscribers, id, topic), id, topic) =~= subscribers);
    }
}

/// Subscribing makes a subscriber a recipient, and no other.
pub proof fn law_subscribing_adds_one_recipient(
    subscribers: Map<u64, SubscriberView>,
    id: u64,
    topic: Seq<char>,
)
    requires
        subscribers.dom().contains(id),
    ensures
        subscribers_of(with_topic(subscribers, id, topic), topic) == subscribers_of(
            subscribers,
            topic,
        ).insert(id),
        forall|other: Seq<char>|
            other != topic ==> #[trigger] subscribers_of(with_topic(subscribers, id, topic), other)
                == subscribers_of(subscribers, other),
{
    lemma_with_topic(subscribers, id, topic);
    let now = with_topic(subscribers, id, topic);
    assert(subscribers_of(now, topic) =~= subscribers_of(subscribers, topic).insert(id));
    assert forall|other: Seq<char>| other != topic implies #[trigger] subscribers_of(now, other)
        == subscribers_of(subscribers, other) by {
        assert(subscribers_of(now, other) =~= subscribers_of(subscribers, other));
    }
}

/// Removing a subscriber takes it out of every topic, and a topic stays exactly
/// where somebody else is subscribed to it.
pub proof fn law_removal_cleans_topics(
    subscribers: Map<u64, SubscriberView>,
    id: u64,
    topic: Seq<char>,
)
    ensures
        !subscribed(subscribers.remove(id), id, topic),
        is_live(subscribers.remove(id), topic) <==> exists|other: u64|
            other != id && subscribed(subscribers, other, topic),
{
    let now = subscribers.remove(id);
    if is_live(now, topic) {
        let other = choose|other: u64| subscribed(now, other, topic);
        assert(other != id && subscribed(subscribers, other, topic));
    }
    if exists|other: u64| other != id && subscribed(subscribers, other, topic) {
        let other = choose|other: u64| other != id && subscribed(subscribers, other, topic);
        assert(subscribed(now, other, topic));
    }
}

/// A message never goes to the subscriber that is left out, and goes to every
/// other one.
pub proof fn law_excluded_subscriber_is_no_recipient(
    subscribers: Map<u64, SubscriberView>,
    topic: Seq<char>,
    exclude: SubscriberId,
    id: u64,
)
    ensures
        !recipient_set(subscribers, topic, Some(exclude)).contains(exclude.0),
        id != exclude.0 ==> (recipient_set(subscribers, topic, Some(exclude)).contains(id)
            <==> recipient_set(subscribers, topic, None).contains(id)),
{
}

/// The sends that were accepted.
pub open spec fn accepted_sends(outcomes: Seq<bool>) -> Set<int> {
    Set::new(|i: int| 0 <= i < outcomes.len() && outcomes[i])
}

/// The number of deliveries that is reported is the number of sends that were
/// accepted, however many there are: each counts once, and no other does.
pub proof fn law_every_accepted_send_counts(outcomes: Seq<bool>)
    ensures
        accepted_sends(outcomes).finite(),
        accepted(outcomes) == accepted_sends(outcomes).len(),
        (forall|i: int| 0 <= i < outcomes.len() ==> outcomes[i]) ==> accepted(outcomes)
            == outcomes.len(),
        (forall|i: int| 0 <= i < outcomes.len() ==> !outcomes[i]) ==> accepted(outcomes) == 0,
    decreases outcomes.len(),
{
    let all = accepted_sends(outcomes);
    if outcomes.len() == 0 {
        assert(all =~= Set::empty());
    } else {
        let init = outcomes.drop_last();
        let n = init.len() as int;
        law_every_accepted_send_counts(init);
        let earlier = accepted_sends(init);
        assert forall|i: int| 0 <= i < n implies init[i] == outcomes[i] by {}
        if outcomes.last() {
            assert(all =~= earlier.insert(n));
            assert(!earlier.contains(n));
        } else {
            assert(all =~= earlier);
        }
        if forall|i: int| 0 <= i < outcomes.len() ==> outcomes[i] {
            assert forall|i: int| 0 <= i < init.len() implies init[i] by {
                assert(outcomes[i]);
            }
            assert(outcomes[n]);
        }
        if forall|i: int| 0 <= i < outcomes.len() ==> !outcomes[i] {
            assert forall|i: int| 0 <= i < init.len() implies !init[i] by {
                assert(!outcomes[i]);
            }
            assert(!outcomes[n]);
        }
    }
}

/// What is reported of a publication gives the number of recipients that accepted
/// the message: it names that number, or that there was none.
pub proof fn law_report_is_the_number_of_deliveries(
    subscribers: Map<u64, SubscriberView>,
    topic: Seq<char>,
    exclude: Option<SubscriberId>,
    message: MessageView,
    ids: Seq<SubscriberId>,
    outcomes: Seq<bool>,
    r: PublishResult,
)
    requires
        is_outcome(subscribers, topic, exclude, message, ids, outcomes, r),
    ensures
        match r {
            PublishResult::Published(n) => n > 0 && n == accepted_sends(outcomes).len(),
            PublishResult::NoSubscribers => accepted_sends(outcomes).len() == 0,
        },
        (forall|i: int| 0 <= i < outcomes.len() ==> outcomes[i]) && ids.len() > 0 ==> r
            == PublishResult::Published(ids.len() as usize),
{
    law_every_accepted_send_counts(outcomes);
}

/// A message to a topic counts as published once where anybody is subscribed, and
/// not at all where nobody is; nobody is subscribed or removed by it.
pub proof fn law_publishing_counts_once(
    before: PubSubView,
    topic: Seq<char>,
    exclude: Option<SubscriberId>,
    message: MessageView,
    r: PublishResult,
    after: PubSubView,
)
    requires
        published(before, topic, exclude, message, r, after),
        before.published < u64::MAX,
    ensures
        after.subscribers == before.subscribers,
        after.next_id == before.next_id,
        after.published == before.published + (if subscribers_of(before.subscribers, topic)
            == Set::<u64>::empty() {
            0int
        } else {
            1
        }),
{
    let s = subscribers_of(before.subscribers, topic);
    if is_live(before.subscribers, topic) {
        let id = choose|id: u64| subscribed(before.subscribers, id, topic);
        assert(s.contains(id));
        assert(!Set::<u64>::empty().contains(id));
    } else {
        assert(s =~= Set::<u64>::empty());
    }
}

/// Subscribing and unsubscribing concern one subscriber and one topic: everybody
/// else, every other topic, and the channel and socket identifier stay as they are.
pub proof fn law_subscriptions_concern_one_subscriber(
    subscribers: Map<u64, SubscriberView>,
    id: u64,
    topic: Seq<char>,
    other: u64,
    another: Seq<char>,
)
    requires
        subscribers.dom().contains(id),
        subscribers.dom().contains(other),
    ensures
        ({
            let with = with_topic(subscribers, id, topic);
            let without = without_topic(subscribers, id, topic);
            &&& with.dom() == subscribers.dom()
            &&& without.dom() == subscribers.dom()
            &&& subscribed(with, id, topic)
            &&& !subscribed(without, id, topic)
            &&& other != id ==> with[other] == subscribers[other] && without[other]
                == subscribers[other]
            &&& another != topic ==> (subscribed(with, id, another) <==> subscribed(
                subscribers,
                id,
                another,
            )) && (subscribed(without, id, another) <==> subscribed(subscribers, id, another))
            &&& with[id].sender == subscribers[id].sender
            &&& with[id].socket_id == subscribers[id].socket_id
            &&& without[id].sender == subscribers[id].sender
            &&& without[id].socket_id == subscribers[id].socket_id
            &&& bears(with, other, another) <==> bears(subscribers, other, another)
            &&& is_live(with, topic)
        }),
{
    let with = with_topic(subscribers, id, topic);
    assert(with.dom() =~= subscribers.dom());
    assert(without_topic(subscribers, id, topic).dom() =~= subscribers.dom());
    assert(subscribed(with, id, topic));
}

/// The recipients of a message are the subscribers of its topic, and the excluded
/// one is not among them.
pub proof fn law_recipients_are_the_subscribers(
    subscribers: Map<u64, SubscriberView>,
    topic: Seq<char>,
    exclude: Option<SubscriberId>,
    ids: Seq<SubscriberId>,
    id: SubscriberId,
)
    requires
        lists_recipients(subscribers, topic, exclude, ids),
    ensures
        ids.contains(id) <==> subscribers.dom().contains(id.0) && subscribers[id.0].topics.contains(
            topic,
        ) && exclude != Some(id),
        ids.no_duplicates(),
        recipient_set(subscribers, topic, exclude).contains(id.0) <==> ids.contains(id),
        is_live(subscribers, topic) <==> exists|n: u64| #[trigger]
            subscribers.dom().contains(n) && subscribers[n].topics.contains(topic),
        live_topics(subscribers).contains(topic) <==> is_live(subscribers, topic),
{
    if exists|n: u64| #[trigger]
        subscribers.dom().contains(n) && subscribers[n].topics.contains(topic) {
        let n = choose|n: u64| #[trigger]
            subscribers.dom().contains(n) && subscribers[n].topics.contains(topic);
        assert(subscribed(subscribers, n, topic));
    }
}

/// A socket identifier is two numbers in decimal with a dot between them.
pub proof fn law_socket_id_is_two_numbers(now: u128)
    ensures
        exists|a: nat, b: nat|
            socket_id_at(now) == #[trigger] text::decimal(a) + "."@ + #[trigger] text::decimal(b),
{
    let a = ((now & 0xFFFFFFFFFFu128) ^ (now >> 40u128)) as nat;
    let b = ((now >> 20u128) ^ (now & 0xFFFFFu128)) as nat;
    assert(socket_id_at(now) == text::decimal(a) + "."@ + text::decimal(b));
}

/// A socket identifier is in use exactly where a subscriber bears it.
pub proof fn law_socket_ids_in_use(subscribers: Map<u64, SubscriberView>, socket_id: Seq<char>)
    ensures
        is_socket(subscribers, socket_id) <==> exists|id: u64| #[trigger]
            subscribers.dom().contains(id) && subscribers[id].socket_id == Some(socket_id),
        sockets(subscribers).contains(socket_id) <==> is_socket(subscribers, socket_id),
{
    if exists|id: u64| #[trigger]
        subscribers.dom().contains(id) && subscribers[id].socket_id == Some(socket_id) {
        let id = choose|id: u64| #[trigger]
            subscribers.dom().contains(id) && subscribers[id].socket_id == Some(socket_id);
        assert(bears(subscribers, id, socket_id));
    }
}

/// A new subscriber has its channel and its socket identifier and no topics; nothing
/// else changes.
pub proof fn law_new_subscriber_has_no_topics(
    before: PubSubView,
    id: u64,
    sender: UnboundedSender<Message>,
    socket_id: Option<Seq<char>>,
    after: PubSubView,
    topic: Seq<char>,
    other: u64,
)
    requires
        is_added(before, id, sender, socket_id, after),
        !before.subscribers.dom().contains(id),
    ensures
        after.subscribers.dom().contains(id),
        after.subscribers[id].sender == sender,
        socket_of(after.subscribers, id) == socket_id,
        !subscribed(after.subscribers, id, topic),
        topics_of(after.subscribers, id).is_empty(),
        other != id ==> (after.subscribers.dom().contains(other)
            <==> before.subscribers.dom().contains(other)),
        other != id && before.subscribers.dom().contains(other) ==> after.subscribers[other]
            == before.subscribers[other],
        subscribed(after.subscribers, other, topic) <==> subscribed(
            before.subscribers,
            other,
            topic,
        ),
        after.published == before.published,
        after.next_id == before.next_id + 1,
{
}

/// A subscriber that was removed is gone with its topics and its socket identifier;
/// nothing else changes.
pub proof fn law_removed_subscriber_is_gone(
    before: PubSubView,
    id: u64,
    after: PubSubView,
    topic: Seq<char>,
    other: u64,
)
    requires
        is_removed(before, id, after),
    ensures
        !after.subscribers.dom().contains(id),
        !subscribed(after.subscribers, id, topic),
        socket_of(after.subscribers, id) is None,
        topics_of(after.subscribers, id).is_empty(),
        other != id ==> topics_of(after.subscribers, other) == topics_of(before.subscribers, other)
            && socket_of(after.subscribers, other) == socket_of(before.subscribers, other),
        other != id ==> (after.subscribers.dom().contains(other)
            <==> before.subscribers.dom().contains(other)),
        after.published == before.published,
        after.next_id == before.next_id,
{
}

/// What is told of a subscriber is what it is subscribed to and what it bears, and what
/// is told of a message is how often it was delivered.
pub proof fn law_subscribers_are_told_as_they_are(
    subscribers: Map<u64, SubscriberView>,
    id: u64,
    topic: Seq<char>,
    sent: usize,
)
    ensures
        topics_of(subscribers, id).contains(topic) <==> subscribed(subscribers, id, topic),
        socket_of(subscribers, id) == Some(topic) <==> bears(subscribers, id, topic),
        count_of(result_of(sent)) == sent,
        result_of(sent) is NoSubscribers <==> sent == 0,
{
}

/// The two numbers of a socket identifier are made of all of the time: the first of its
/// lowest 40 bits and of those above them, the second of its lowest 20 bits and of those
/// above them.
pub proof fn law_socket_id_is_made_of_the_time(now: u128)
    ensures
        socket_id_at(now) == text::decimal(
            ((now % 0x10000000000u128) as u128 ^ (now / 0x10000000000u128) as u128) as nat,
        ) + "."@ + text::decimal(
            ((now % 0x100000u128) as u128 ^ (now / 0x100000u128) as u128) as nat,
        ),
{
    assert(now & 0xFFFFFFFFFFu128 == now % 0x10000000000u128) by (bit_vector);
    assert(now >> 40u128 == now / 0x10000000000u128) by (bit_vector);
    assert(now & 0xFFFFFu128 == now % 0x100000u128) by (bit_vector);
    assert(now >> 20u128 == now / 0x100000u128) by (bit_vector);
    let (low, high) = ((now % 0x100000u128) as u128, (now / 0x100000u128) as u128);
    assert(low ^ high == high ^ low) by (bit_vector);
}

/// A message for a topic is sent once to each subscriber of the topic but the excluded one,
/// and the report is the number of those that took it; without subscribers nothing happens.
pub proof fn law_publishing_reaches_every_subscriber(
    before: PubSubView,
    topic: Seq<char>,
    exclude: Option<SubscriberId>,
    message: MessageView,
    r: PublishResult,
    after: PubSubView,
)
    requires
        published(before, topic, exclude, message, r, after),
    ensures
        !is_live(before.subscribers, topic) ==> r == PublishResult::NoSubscribers && after
            == before,
        is_live(before.subscribers, topic) ==> exists|ids: Seq<SubscriberId>, outcomes: Seq<bool>|
            #![trigger ids.no_duplicates(), accepted_sends(outcomes)]
            {
                &&& ids.no_duplicates()
                &&& forall|id: SubscriberId| #[trigger]
                    ids.contains(id) <==> subscribed(before.subscribers, id.0, topic) && exclude
                        != Some(id)
                &&& outcomes.len() == ids.len()
                &&& forall|i: int|
                    0 <= i < ids.len() ==> was_sent(
                        before.subscribers[(#[trigger] ids[i]).0].sender,
                        message,
                        outcomes[i],
                    )
                &&& count_of(r) == accepted_sends(outcomes).len()
            },
{
    if is_live(before.subscribers, topic) {
        let (ids, outcomes) = choose|ids: Seq<SubscriberId>, outcomes: Seq<bool>| #[trigger]
            is_outcome(before.subscribers, topic, exclude, message, ids, outcomes, r);
        law_every_accepted_send_counts(outcomes);
        assert forall|i: int| 0 <= i < ids.len() implies was_sent(
            before.subscribers[(#[trigger] ids[i]).0].sender,
            message,
            outcomes[i],
        ) by {
            assert(outcomes[i] == outcomes[i]);
        }
        assert(ids.no_duplicates());
        assert(count_of(r) == accepted_sends(outcomes).len());
    }
}

/// A span of time counts its nanoseconds, and none counts as nothing.
pub proof fn law_nanoseconds(span: std::time::Duration)
    ensures
        nanos_in(Some(span)) == nanos_of(span),
        nanos_in(None) == 0,
{
}

} // verus!
