use eddi::message::{current_millis, Message, MessageQueue};

#[test]
fn test_message_expiration() {
    let msg = Message::stamped("m".to_string(), "client1".to_string(), "test".to_string(), 1_000, 100);
    assert!(!msg.is_expired_at(1_000));
    assert!(msg.is_expired_at(1_150));
    let fresh = Message::new("client1".to_string(), "test".to_string(), 60_000);
    assert!(!fresh.is_expired());
}

#[test]
fn message_expires_exactly_at_expiry() {
    let msg = Message::stamped("m".to_string(), "c".to_string(), "x".to_string(), 1_000, 100);
    assert_eq!(msg.expires_at, 1_100);
    assert!(!msg.is_expired_at(1_099));
    assert!(msg.is_expired_at(1_100));
}

#[test]
fn message_age_in_seconds() {
    let msg = Message::stamped("m".to_string(), "c".to_string(), "x".to_string(), 10_000, 100);
    assert_eq!(msg.age_seconds_at(12_500), 2);
    assert_eq!(msg.age_seconds_at(5_000), 0);
}

#[test]
fn test_message_queue() {
    let mut queue = MessageQueue::new(60_000, 10);
    queue.push("client1".to_string(), "msg1".to_string());
    queue.push("client2".to_string(), "msg2".to_string());
    let messages = queue.get_all();
    assert_eq!(messages.len(), 2);
    assert_eq!(messages[0].content, "msg1");
    assert_eq!(messages[1].content, "msg2");
}

#[test]
fn test_message_queue_max_size() {
    let mut queue = MessageQueue::new(60_000, 2);
    queue.push("client1".to_string(), "msg1".to_string());
    queue.push("client2".to_string(), "msg2".to_string());
    queue.push("client3".to_string(), "msg3".to_string());
    let messages = queue.get_all();
    assert_eq!(messages.len(), 2);
    assert_eq!(messages[0].content, "msg2");
    assert_eq!(messages[1].content, "msg3");
}

#[test]
fn test_message_queue_expiration() {
    let mut queue = MessageQueue::new(100, 10);
    let now = current_millis();
    queue.push_at("id1".to_string(), "client1".to_string(), "test message".to_string(), now);
    assert_eq!(queue.get_all_at(now).len(), 1);
    assert_eq!(queue.get_all_at(now + 150).len(), 0);
}

#[test]
fn queue_ttl_eviction_scenario() {
    let mut queue = MessageQueue::new(100, 10);
    queue.push_at("1".to_string(), "A".to_string(), "x".to_string(), 5_000);
    assert!(queue.get_all_at(5_150).is_empty());
    assert_eq!(queue.len_at(5_150), 0);
}

#[test]
fn queue_fifo_cap_scenario() {
    let mut queue = MessageQueue::new(60_000, 2);
    queue.push_at("1".to_string(), "a".to_string(), "m1".to_string(), 1_000);
    queue.push_at("2".to_string(), "b".to_string(), "m2".to_string(), 1_001);
    queue.push_at("3".to_string(), "c".to_string(), "m3".to_string(), 1_002);
    let all = queue.get_all_at(1_003);
    let contents: Vec<&str> = all.iter().map(|m| m.content.as_str()).collect();
    assert_eq!(contents, vec!["m2", "m3"]);
    assert_eq!(all[0].from, "b");
    assert!(queue.len_at(1_003) <= 2);
}

#[test]
fn queue_reads_only_live_messages() {
    let mut queue = MessageQueue::new(100, 10);
    queue.push_at("1".to_string(), "a".to_string(), "old".to_string(), 1_000);
    queue.push_at("2".to_string(), "b".to_string(), "new".to_string(), 1_080);
    let all = queue.get_all_at(1_120);
    assert_eq!(all.len(), 1);
    assert_eq!(all[0].content, "new");
    assert!(all.iter().all(|m| 1_120 < m.expires_at));
}

#[test]
fn queue_get_since_filters_by_creation_time() {
    let mut queue = MessageQueue::new(60_000, 10);
    queue.push_at("1".to_string(), "a".to_string(), "m1".to_string(), 1_000);
    queue.push_at("2".to_string(), "a".to_string(), "m2".to_string(), 2_000);
    queue.push_at("3".to_string(), "a".to_string(), "m3".to_string(), 3_000);
    let since = queue.get_since_at(2_000, 3_500);
    let contents: Vec<&str> = since.iter().map(|m| m.content.as_str()).collect();
    assert_eq!(contents, vec!["m2", "m3"]);
}

#[test]
fn queue_clear_empties() {
    let mut queue = MessageQueue::new(60_000, 10);
    queue.push_at("1".to_string(), "a".to_string(), "m1".to_string(), 1_000);
    queue.clear();
    assert_eq!(queue.len_at(1_000), 0);
}

#[test]
fn queue_of_one_keeps_newest() {
    let mut queue = MessageQueue::new(60_000, 1);
    queue.push_at("1".to_string(), "a".to_string(), "m1".to_string(), 1_000);
    let m = queue.push_at("2".to_string(), "a".to_string(), "m2".to_string(), 1_001);
    assert_eq!(m.id, "2");
    assert_eq!(m.expires_at, 61_001);
    let all = queue.get_all_at(1_002);
    assert_eq!(all, vec![m]);
}

#[test]
fn current_millis_reads_the_clock() {
    assert!(current_millis() > 1_600_000_000_000);
}
