//! The maps and sets of the `dashmap` crate that publish/subscribe is built on,
//! and the channels that messages are delivered through.
//!
//! Verus cannot look inside a `DashMap`, so what each one holds has a name, and
//! each operation says what it does to that. All changes go through an exclusive
//! reference.

use crate::protocol::Message;
use dashmap::{DashMap, DashSet};
use tokio::sync::mpsc::UnboundedSender;
use vstd::prelude::*;
use vstd::string::*;

verus! {

/// The map of `dashmap`.
#[verifier::external_type_specification]
#[verifier::external_body]
#[verifier::reject_recursive_types(K)]
#[verifier::reject_recursive_types(V)]
#[verifier::reject_recursive_types(S)]
pub struct ExDashMap<K, V, S>(DashMap<K, V, S>);

/// The set of `dashmap`.
#[verifier::external_type_specification]
#[verifier::external_body]
#[verifier::reject_recursive_types(K)]
#[verifier::reject_recursive_types(S)]
pub struct ExDashSet<K, S>(DashSet<K, S>);

/// The sending end of an unbounded channel of `tokio`.
#[verifier::external_type_specification]
#[verifier::external_body]
#[verifier::reject_recursive_types(T)]
pub struct ExUnboundedSender<T>(UnboundedSender<T>);

/// The identifiers that a set holds.
pub uninterp spec fn id_set(s: DashSet<u64>) -> Set<u64>;

/// The texts that a set holds.
pub uninterp spec fn text_set(s: DashSet<String>) -> Set<Seq<char>>;

/// The subscribers of each topic.
pub uninterp spec fn topic_entries(m: DashMap<String, DashSet<u64>>) -> Map<Seq<char>, Set<u64>>;

/// The subscriber of each socket identifier.
pub uninterp spec fn socket_entries(m: DashMap<String, u64>) -> Map<Seq<char>, u64>;

/// A set without identifiers, from `DashSet::new`.
#[verifier::external_body]
pub(crate) fn new_id_set() -> (r: DashSet<u64>)
    ensures
        id_set(r) == Set::<u64>::empty(),
{
    DashSet::new()
}

/// `DashSet::insert` adds an identifier and tells whether it is new.
#[verifier::external_body]
pub(crate) fn id_insert(s: &mut DashSet<u64>, id: u64) -> (r: bool)
    ensures
        r == !id_set(*old(s)).contains(id),
        id_set(*final(s)) == id_set(*old(s)).insert(id),
{
    s.insert(id)
}

/// `DashSet::remove` takes an identifier out and tells whether it was there.
#[verifier::external_body]
pub(crate) fn id_remove(s: &mut DashSet<u64>, id: u64) -> (r: bool)
    ensures
        r == id_set(*old(s)).contains(id),
        id_set(*final(s)) == id_set(*old(s)).remove(id),
{
    s.remove(&id).is_some()
}

/// `DashSet::is_empty` tells whether no identifier is held.
#[verifier::external_body]
pub(crate) fn id_set_is_empty(s: &DashSet<u64>) -> (r: bool)
    ensures
        r == (id_set(*s) == Set::<u64>::empty()),
{
    s.is_empty()
}

/// A set without texts, from `DashSet::new`.
#[verifier::external_body]
pub(crate) fn new_text_set() -> (r: DashSet<String>)
    ensures
        text_set(r) == Set::<Seq<char>>::empty(),
{
    DashSet::new()
}

/// `DashSet::insert` adds a text and tells whether it is new.
#[verifier::external_body]
pub(crate) fn text_insert(s: &mut DashSet<String>, t: &str) -> (r: bool)
    ensures
        r == !text_set(*old(s)).contains(t@),
        text_set(*final(s)) == text_set(*old(s)).insert(t@),
{
    s.insert(t.to_string())
}

/// `DashSet::remove` takes a text out.
#[verifier::external_body]
pub(crate) fn text_remove(s: &mut DashSet<String>, t: &str)
    ensures
        text_set(*final(s)) == text_set(*old(s)).remove(t@),
{
    s.remove(t);
}

/// The texts of a list.
pub open spec fn listed(v: Seq<String>) -> Seq<Seq<char>> {
    v.map_values(|s: String| s@)
}

/// `DashSet::iter` visits every text once, in no particular order.
#[verifier::external_body]
pub(crate) fn text_items(s: &DashSet<String>) -> (r: Vec<String>)
    ensures
        listed(r@).no_duplicates(),
        listed(r@).to_set() == text_set(*s),
{
    s.iter().map(|t| t.key().clone()).collect()
}

/// A map without topics, from `DashMap::new`.
#[verifier::external_body]
pub(crate) fn new_topic_map() -> (r: DashMap<String, DashSet<u64>>)
    ensures
        topic_entries(r).dom() == Set::<Seq<char>>::empty(),
{
    DashMap::new()
}

/// `DashMap::insert` puts a topic's subscribers in the place of earlier ones.
#[verifier::external_body]
pub(crate) fn topic_insert(m: &mut DashMap<String, DashSet<u64>>, topic: &str, ids: DashSet<u64>)
    ensures
        topic_entries(*final(m)) == topic_entries(*old(m)).insert(topic@, id_set(ids)),
{
    m.insert(topic.to_string(), ids);
}

/// `DashMap::remove` takes a topic out, with its subscribers.
#[verifier::external_body]
pub(crate) fn topic_remove(m: &mut DashMap<String, DashSet<u64>>, topic: &str) -> (r: Option<
    DashSet<u64>,
>)
    ensures
        topic_entries(*final(m)) == topic_entries(*old(m)).remove(topic@),
        match r {
            Some(ids) => topic_entries(*old(m)).dom().contains(topic@) && id_set(ids)
                == topic_entries(*old(m))[topic@],
            None => !topic_entries(*old(m)).dom().contains(topic@),
        },
{
    m.remove(topic).map(|entry| entry.1)
}

/// `DashMap::get` finds a topic, and `DashSet::iter` visits each of its
/// subscribers once, in no particular order.
#[verifier::external_body]
pub(crate) fn topic_ids(m: &DashMap<String, DashSet<u64>>, topic: &str) -> (r: Option<Vec<u64>>)
    ensures
        match r {
            Some(ids) => topic_entries(*m).dom().contains(topic@) && ids@.no_duplicates()
                && ids@.to_set() == topic_entries(*m)[topic@],
            None => !topic_entries(*m).dom().contains(topic@),
        },
{
    m.get(topic).map(|ids| ids.iter().map(|id| *id.key()).collect())
}

/// `DashMap::len` counts the topics.
#[verifier::external_body]
pub(crate) fn topic_map_len(m: &DashMap<String, DashSet<u64>>) -> (r: usize)
    ensures
        r == topic_entries(*m).dom().len(),
{
    m.len()
}

/// `DashMap::iter` visits every topic once, in no particular order.
#[verifier::external_body]
pub(crate) fn topic_names(m: &DashMap<String, DashSet<u64>>) -> (r: Vec<String>)
    ensures
        listed(r@).no_duplicates(),
        listed(r@).to_set() == topic_entries(*m).dom(),
{
    m.iter().map(|entry| entry.key().clone()).collect()
}

/// A map without socket identifiers, from `DashMap::new`.
#[verifier::external_body]
pub(crate) fn new_socket_map() -> (r: DashMap<String, u64>)
    ensures
        socket_entries(r).dom() == Set::<Seq<char>>::empty(),
{
    DashMap::new()
}

/// `DashMap::insert` maps a socket identifier to a subscriber.
#[verifier::external_body]
pub(crate) fn socket_insert(m: &mut DashMap<String, u64>, socket_id: &str, id: u64)
    ensures
        socket_entries(*final(m)) == socket_entries(*old(m)).insert(socket_id@, id),
{
    m.insert(socket_id.to_string(), id);
}

/// `DashMap::remove` takes a socket identifier out.
#[verifier::external_body]
pub(crate) fn socket_remove(m: &mut DashMap<String, u64>, socket_id: &str)
    ensures
        socket_entries(*final(m)) == socket_entries(*old(m)).remove(socket_id@),
{
    m.remove(socket_id);
}

/// `DashMap::get` finds the subscriber of a socket identifier.
#[verifier::external_body]
pub(crate) fn socket_get(m: &DashMap<String, u64>, socket_id: &str) -> (r: Option<u64>)
    ensures
        match r {
            Some(id) => socket_entries(*m).dom().contains(socket_id@) && id
                == socket_entries(*m)[socket_id@],
            None => !socket_entries(*m).dom().contains(socket_id@),
        },
{
    m.get(socket_id).map(|entry| *entry.value())
}

/// `DashMap::iter` visits every socket identifier once, in no particular order.
#[verifier::external_body]
pub(crate) fn socket_names(m: &DashMap<String, u64>) -> (r: Vec<String>)
    ensures
        listed(r@).no_duplicates(),
        listed(r@).to_set() == socket_entries(*m).dom(),
{
    m.iter().map(|entry| entry.key().clone()).collect()
}

/// `UnboundedSender::send` hands a message to a channel and tells whether its
/// receiver is still there. That depends on the receiver, so nothing is said of
/// it.
#[verifier::external_body]
pub(crate) fn deliver(sender: &UnboundedSender<Message>, message: Message) -> (r: bool) {
    sender.send(message).is_ok()
}

} // verus!
