use sockudo_ws::protocol::Message;
use sockudo_ws::pubsub::{
    publish_result, result_of_sends, send_to_all, socket_id_from, span_nanos, PubSub, PublishResult, SubscriberId,
};
use tokio::sync::mpsc;

#[test]
fn test_subscriber_lifecycle() {
    let mut pubsub = PubSub::new();

    // Create subscriber
    let (tx, _rx) = mpsc::unbounded_channel();
    let id = pubsub.create_subscriber(tx);

    assert_eq!(pubsub.subscriber_count(), 1);

    // Remove subscriber
    pubsub.remove_subscriber(id);
    assert_eq!(pubsub.subscriber_count(), 0);
}

#[test]
fn test_subscribe_unsubscribe() {
    let mut pubsub = PubSub::new();

    let (tx, _rx) = mpsc::unbounded_channel();
    let id = pubsub.create_subscriber(tx);

    // Subscribe
    assert!(pubsub.subscribe(id, "topic1"));
    assert!(pubsub.is_subscribed(id, "topic1"));
    assert_eq!(pubsub.topic_count(), 1);
    assert_eq!(pubsub.topic_subscriber_count("topic1"), 1);

    // Double subscribe returns false
    assert!(!pubsub.subscribe(id, "topic1"));

    // Unsubscribe
    assert!(pubsub.unsubscribe(id, "topic1"));
    assert!(!pubsub.is_subscribed(id, "topic1"));
    assert_eq!(pubsub.topic_count(), 0);
}

#[test]
fn test_publish() {
    let mut pubsub = PubSub::new();

    let (tx1, mut rx1) = mpsc::unbounded_channel();
    let (tx2, mut rx2) = mpsc::unbounded_channel();

    let id1 = pubsub.create_subscriber(tx1);
    let id2 = pubsub.create_subscriber(tx2);

    pubsub.subscribe(id1, "chat");
    pubsub.subscribe(id2, "chat");

    // Publish to both
    let result = pubsub.publish("chat", Message::text("hello"));
    assert_eq!(result, PublishResult::Published(2));

    // Both receive
    assert!(rx1.try_recv().is_ok());
    assert!(rx2.try_recv().is_ok());
}

#[test]
fn test_publish_excluding() {
    let mut pubsub = PubSub::new();

    let (tx1, mut rx1) = mpsc::unbounded_channel();
    let (tx2, mut rx2) = mpsc::unbounded_channel();

    let id1 = pubsub.create_subscriber(tx1);
    let id2 = pubsub.create_subscriber(tx2);

    pubsub.subscribe(id1, "chat");
    pubsub.subscribe(id2, "chat");

    // Publish excluding id1
    let result = pubsub.publish_excluding(id1, "chat", Message::text("hello"));
    assert_eq!(result, PublishResult::Published(1));

    // Only id2 receives
    assert!(rx1.try_recv().is_err());
    assert!(rx2.try_recv().is_ok());
}

#[test]
fn test_publish_no_subscribers() {
    let mut pubsub = PubSub::new();

    let result = pubsub.publish("nonexistent", Message::text("hello"));
    assert_eq!(result, PublishResult::NoSubscribers);
}

#[test]
fn test_remove_subscriber_cleans_topics() {
    let mut pubsub = PubSub::new();

    let (tx, _rx) = mpsc::unbounded_channel();
    let id = pubsub.create_subscriber(tx);

    pubsub.subscribe(id, "topic1");
    pubsub.subscribe(id, "topic2");
    assert_eq!(pubsub.topic_count(), 2);

    // Remove subscriber should clean up topics
    pubsub.remove_subscriber(id);
    assert_eq!(pubsub.topic_count(), 0);
}

#[test]
fn test_many_topics() {
    let mut pubsub = PubSub::new();

    // Create many topics to test DashMap performance
    let (tx, _rx) = mpsc::unbounded_channel();
    let id = pubsub.create_subscriber(tx);

    for i in 0..1000 {
        pubsub.subscribe(id, &format!("topic_{}", i));
    }

    assert_eq!(pubsub.topic_count(), 1000);
    assert_eq!(pubsub.all_topics().len(), 1000);
}

#[test]
fn test_pusher_style_socket_id() {
    let mut pubsub = PubSub::new();

    let (tx, _rx) = mpsc::unbounded_channel();
    let socket_id = "1234.5678";

    let id = pubsub.create_subscriber_with_id(socket_id, tx);

    // Verify socket ID mapping
    assert_eq!(pubsub.get_subscriber_by_socket_id(socket_id), Some(id));
    assert_eq!(pubsub.get_socket_id(id), Some(socket_id.to_string()));
    assert!(pubsub.has_socket_id(socket_id));
}

#[test]
fn test_subscribe_by_socket_id() {
    let mut pubsub = PubSub::new();

    let (tx, _rx) = mpsc::unbounded_channel();
    let socket_id = "1234.5678";

    pubsub.create_subscriber_with_id(socket_id, tx);

    // Subscribe using socket ID
    assert!(pubsub.subscribe_by_socket_id(socket_id, "private-chat"));
    assert!(pubsub.is_subscribed_by_socket_id(socket_id, "private-chat"));

    // Unsubscribe using socket ID
    assert!(pubsub.unsubscribe_by_socket_id(socket_id, "private-chat"));
    assert!(!pubsub.is_subscribed_by_socket_id(socket_id, "private-chat"));
}

#[test]
fn test_publish_excluding_socket_id() {
    let mut pubsub = PubSub::new();

    let (tx1, mut rx1) = mpsc::unbounded_channel();
    let (tx2, mut rx2) = mpsc::unbounded_channel();

    let socket_id1 = "1111.2222";
    let socket_id2 = "3333.4444";

    pubsub.create_subscriber_with_id(socket_id1, tx1);
    pubsub.create_subscriber_with_id(socket_id2, tx2);

    pubsub.subscribe_by_socket_id(socket_id1, "chat");
    pubsub.subscribe_by_socket_id(socket_id2, "chat");

    // Publish excluding socket_id1
    let result = pubsub.publish_excluding_socket_id(socket_id1, "chat", Message::text("hello"));
    assert_eq!(result, PublishResult::Published(1));

    // Only socket_id2 receives
    assert!(rx1.try_recv().is_err());
    assert!(rx2.try_recv().is_ok());
}

#[test]
fn test_remove_subscriber_by_socket_id() {
    let mut pubsub = PubSub::new();

    let (tx, _rx) = mpsc::unbounded_channel();
    let socket_id = "1234.5678";

    pubsub.create_subscriber_with_id(socket_id, tx);
    pubsub.subscribe_by_socket_id(socket_id, "topic1");

    assert_eq!(pubsub.subscriber_count(), 1);
    assert_eq!(pubsub.topic_count(), 1);

    // Remove by socket ID
    assert!(pubsub.remove_subscriber_by_socket_id(socket_id));
    assert_eq!(pubsub.subscriber_count(), 0);
    assert_eq!(pubsub.topic_count(), 0);
    assert!(!pubsub.has_socket_id(socket_id));
}

#[test]
fn test_generate_socket_id() {
    let id1 = PubSub::generate_socket_id();
    let id2 = PubSub::generate_socket_id();

    // Should contain a dot
    assert!(id1.contains('.'));
    assert!(id2.contains('.'));

    // Note: IDs might be the same if called in quick succession,
    // but they should have the format "number.number"
    let parts: Vec<&str> = id1.split('.').collect();
    assert_eq!(parts.len(), 2);
}

#[test]
fn test_create_subscriber_with_id_or_get() {
    let mut pubsub = PubSub::new();

    let (tx1, _rx1) = mpsc::unbounded_channel();
    let (tx2, _rx2) = mpsc::unbounded_channel();
    let socket_id = "1234.5678";

    // First call creates
    let (id1, created1) = pubsub.create_subscriber_with_id_or_get(socket_id, tx1);
    assert!(created1);

    // Second call returns existing
    let (id2, created2) = pubsub.create_subscriber_with_id_or_get(socket_id, tx2);
    assert!(!created2);
    assert_eq!(id1, id2);

    // Only one subscriber
    assert_eq!(pubsub.subscriber_count(), 1);
}

#[test]
fn test_all_socket_ids() {
    let mut pubsub = PubSub::new();

    let (tx1, _rx1) = mpsc::unbounded_channel();
    let (tx2, _rx2) = mpsc::unbounded_channel();

    pubsub.create_subscriber_with_id("1111.2222", tx1);
    pubsub.create_subscriber_with_id("3333.4444", tx2);

    let socket_ids = pubsub.all_socket_ids();
    assert_eq!(socket_ids.len(), 2);
    assert!(socket_ids.contains(&"1111.2222".to_string()));
    assert!(socket_ids.contains(&"3333.4444".to_string()));
}

#[test]
fn test_subscriber_topics_by_socket_id() {
    let mut pubsub = PubSub::new();

    let (tx, _rx) = mpsc::unbounded_channel();
    let socket_id = "1234.5678";

    pubsub.create_subscriber_with_id(socket_id, tx);
    pubsub.subscribe_by_socket_id(socket_id, "topic1");
    pubsub.subscribe_by_socket_id(socket_id, "topic2");

    let topics = pubsub.subscriber_topics_by_socket_id(socket_id);
    assert_eq!(topics.len(), 2);
    assert!(topics.contains(&"topic1".to_string()));
    assert!(topics.contains(&"topic2".to_string()));
}

#[test]
fn what_is_published_is_received() {
    let mut pubsub = PubSub::new();
    let (tx, mut rx) = mpsc::unbounded_channel();
    let id = pubsub.create_subscriber(tx);
    pubsub.subscribe(id, "news");
    assert_eq!(pubsub.messages_published(), 0);
    pubsub.publish("news", Message::binary(vec![1, 2, 3]));
    assert!(matches!(rx.try_recv(), Ok(Message::Binary(b)) if b[..] == [1, 2, 3]));
    assert_eq!(pubsub.messages_published(), 1);
    assert_eq!(pubsub.recipients("news", None), Some(vec![id]));
    assert_eq!(pubsub.recipients("news", Some(id)), Some(vec![]));
    assert_eq!(pubsub.recipients("other", None), None);
}

#[test]
fn a_dropped_receiver_is_not_counted() {
    let mut pubsub = PubSub::new();
    let (tx, rx) = mpsc::unbounded_channel();
    let id = pubsub.create_subscriber(tx);
    pubsub.subscribe(id, "news");
    drop(rx);
    assert_eq!(pubsub.publish("news", Message::text("x")), PublishResult::NoSubscribers);
}

#[test]
fn unsubscribing_undoes_subscribing() {
    let mut pubsub = PubSub::new();
    let (tx, _rx) = mpsc::unbounded_channel();
    let id = pubsub.create_subscriber(tx);
    let (other_tx, _other_rx) = mpsc::unbounded_channel();
    let other = pubsub.create_subscriber(other_tx);
    assert_ne!(id, other);
    pubsub.subscribe(other, "t");
    let before = pubsub.recipients("t", None);
    pubsub.subscribe(id, "t");
    assert_eq!(pubsub.topic_subscriber_count("t"), 2);
    pubsub.unsubscribe(id, "t");
    assert_eq!(pubsub.recipients("t", None), before);
    assert!(pubsub.subscriber_topics(id).is_empty());
    assert!(!pubsub.unsubscribe(id, "t"));
}

#[test]
fn unknown_subscribers_and_sockets() {
    let mut pubsub = PubSub::new();
    let ghost = SubscriberId::from_u64(77);
    assert_eq!(ghost.as_u64(), 77);
    assert_eq!(ghost.text(), "77");
    assert!(!pubsub.subscribe(ghost, "t"));
    assert!(!pubsub.is_subscribed(ghost, "t"));
    assert!(pubsub.get_socket_id(ghost).is_none());
    assert!(!pubsub.subscribe_by_socket_id("0.0", "t"));
    assert!(!pubsub.remove_subscriber_by_socket_id("0.0"));
    assert!(!pubsub.has_socket_id("0.0"));
    assert_eq!(pubsub.topic_count(), 0);
}

#[test]
fn results_and_ids_by_formula() {
    assert_eq!(publish_result(0), PublishResult::NoSubscribers);
    assert_eq!(publish_result(3), PublishResult::Published(3));
    assert_eq!(publish_result(3).count(), 3);
    assert_eq!(result_of_sends(&vec![]), PublishResult::NoSubscribers);
    assert_eq!(result_of_sends(&vec![false, false]), PublishResult::NoSubscribers);
    assert_eq!(result_of_sends(&vec![true, false, true]), PublishResult::Published(2));
    assert_eq!(PublishResult::NoSubscribers.count(), 0);
    assert_eq!(socket_id_from((1 << 41) + 5), "7.2097157");
    assert_eq!(socket_id_from(0), "0.0");
}

#[test]
fn deliveries_go_to_the_channels_of_the_recipients() {
    let mut pubsub = PubSub::default();
    let (tx1, _rx1) = mpsc::unbounded_channel();
    let (tx2, _rx2) = mpsc::unbounded_channel();
    let id1 = pubsub.create_subscriber(tx1.clone());
    let id2 = pubsub.create_subscriber(tx2.clone());
    assert!(pubsub.deliveries("t", None).is_none());
    pubsub.subscribe(id1, "t");
    pubsub.subscribe(id2, "t");
    assert_eq!(pubsub.deliveries("t", None).unwrap().len(), 2);
    let others = pubsub.deliveries("t", Some(id1)).unwrap();
    assert_eq!(others.len(), 1);
    assert!(others[0].same_channel(&tx2));
    assert!(!others[0].same_channel(&tx1));
}

#[test]
fn spans_are_counted_in_nanoseconds() {
    assert_eq!(span_nanos(Some(std::time::Duration::new(2, 7))), 2_000_000_007);
    assert_eq!(span_nanos(None), 0);
}

#[test]
fn numbers_are_never_given_out_twice() {
    let mut pubsub = PubSub::new();
    let mut seen: Vec<u64> = Vec::new();
    for n in 0..20 {
        let (tx, _rx) = mpsc::unbounded_channel();
        let id = if n % 2 == 0 {
            pubsub.create_subscriber(tx)
        } else {
            pubsub.create_subscriber_with_id_or_get("socket", tx).0
        };
        assert!(!seen.contains(&id.as_u64()));
        seen.push(id.as_u64());
        pubsub.remove_subscriber(id);
    }
    assert_eq!(pubsub.subscriber_count(), 0);
}

#[test]
fn each_channel_gets_the_message() {
    let (open, mut inbox) = mpsc::unbounded_channel();
    let (shut, gone) = mpsc::unbounded_channel();
    drop(gone);
    let channels = vec![open, shut];
    let message = Message::text("hello");
    let send = |channel: &mpsc::UnboundedSender<Message>, copy| channel.send(copy).is_ok();
    let outcomes = send_to_all(&channels, &message, send);
    assert_eq!(outcomes, vec![true, false]);
    assert_eq!(result_of_sends(&outcomes), PublishResult::Published(1));
    assert!(matches!(inbox.try_recv(), Ok(Message::Text(text)) if &text[..] == b"hello"));
    assert!(inbox.try_recv().is_err());
}
