use rocketmq::error::Error;
use rocketmq::message::{Message, MessageQueue, Property};
use rocketmq::selector::{
    queue_at, HashQueueSelector, ManualQueueSelector, QueueSelect, QueueSelector,
    RandomQueueSelector, RoundRobinQueueSelector,
};

fn msg(topic: &str) -> Message {
    Message::new(topic.to_string(), "tagA".to_string(), String::new(), 3, b"hi".to_vec(), true)
}

#[test]
fn new_message_properties() {
    let m = msg("T");
    assert_eq!(m.get_property(Property::TAGS).unwrap(), "tagA");
    assert!(m.get_property(Property::KEYS).is_none());
    assert_eq!(m.get_property(Property::WAIT_STORE_MSG_OK).unwrap(), "true");
    assert_eq!(m.topic(), "T");
}

#[test]
fn unique_and_sharding_keys() {
    let mut m = msg("T");
    assert!(m.unique_key().is_none());
    m.set_default_unique_key("gen-1".to_string());
    assert_eq!(m.unique_key(), Some("gen-1"));
    m.set_default_unique_key("gen-2".to_string());
    assert_eq!(m.unique_key(), Some("gen-1"));
    m.set_unique_key("u".to_string());
    assert_eq!(m.unique_key(), Some("u"));
    assert_eq!(m.topic(), "T");
    assert_eq!(m.body, b"hi".to_vec());
    assert_eq!(m.flag, 3);
    assert!(m.sharding_key().is_none());
    assert_eq!(m.set_property(Property::SHARDING_KEY.to_string(), String::new()), None);
    assert!(m.sharding_key().is_none());
    assert_eq!(
        m.set_property(Property::SHARDING_KEY.to_string(), "order-9".to_string()),
        Some(String::new())
    );
    assert_eq!(m.sharding_key().unwrap(), "order-9");
}

#[test]
fn property_text_round_trip() {
    let m = msg("T");
    let text = m.dump_properties();
    assert_eq!(text, "TAGS\u{1}tagA\u{2}WAIT\u{1}true\u{2}");
    let parsed = Message::parse_properties(&text);
    assert_eq!(parsed, m.properties);
    let odd = Message::parse_properties("a\u{1}1\u{2}bad\u{2}c\u{1}2\u{1}3\u{2}a\u{1}4");
    assert_eq!(odd, vec![("a".to_string(), "4".to_string())]);
    assert!(Message::parse_properties("").is_empty());
}

#[test]
fn batch_encoding() {
    assert_eq!(Message::encode_batch(&[]).unwrap_err(), Error::EmptyBatchMessage);
    let mut single = msg("T");
    single.sys_flag = 4;
    single.queue = Some(MessageQueue::new("T".to_string(), "b".to_string(), 1));
    let one = Message::encode_batch(&[single]).unwrap();
    assert_eq!(one.body, b"hi".to_vec());
    assert_eq!(one.sys_flag, 4);
    assert_eq!(one.queue.unwrap().queue_id, 1);
    assert!(!one.batch);
    let plain = Message::new("T".to_string(), String::new(), String::new(), 5, b"ab".to_vec(), false);
    let batch = Message::encode_batch(&[plain.clone(), plain]).unwrap();
    assert!(batch.batch);
    assert_eq!(batch.topic, "T");
    let one_entry: Vec<u8> = vec![0, 0, 0, 22, 0, 0, 0, 0, 0, 0, 0, 0, 0, 0, 0, 5, 0, 0, 0, 2, b'a', b'b', 0, 0];
    let mut expected = one_entry.clone();
    expected.extend_from_slice(&one_entry);
    assert_eq!(batch.body, expected);
}

fn queues() -> Vec<MessageQueue> {
    (0..4)
        .map(|i| MessageQueue::new("T".to_string(), "b".to_string(), i))
        .collect()
}

#[test]
fn round_robin_starts_after_zero() {
    let mqs = queues();
    let mut s = RoundRobinQueueSelector::new();
    let m = msg("T");
    let picks: Vec<u32> = (0..5).map(|_| s.select(&m, &mqs).unwrap().queue_id).collect();
    assert_eq!(picks, vec![1, 2, 3, 0, 1]);
    let other = msg("U");
    assert_eq!(s.select(&other, &mqs).unwrap().queue_id, 1);
    assert!(s.select(&m, &[]).is_none());
}

#[test]
fn hash_selector_is_stable_per_key() {
    let mqs = queues();
    let mut m = msg("T");
    m.set_property(Property::SHARDING_KEY.to_string(), "abc".to_string());
    let mut s = HashQueueSelector::new();
    let a = s.select(&m, &mqs).unwrap();
    let b = s.select(&m, &mqs).unwrap();
    assert_eq!(a, b);
    // FNV-1a of "abc" is 0xe71fa2190541574b, which is 3 modulo 4.
    assert_eq!(a.queue_id, 3);
}

#[test]
fn manual_and_random_selectors() {
    let mqs = queues();
    let mut m = msg("T");
    assert!(ManualQueueSelector.select(&m, &mqs).is_none());
    m.queue = Some(MessageQueue::new("T".to_string(), "x".to_string(), 9));
    assert_eq!(ManualQueueSelector.select(&m, &mqs).unwrap().queue_id, 9);
    let r = RandomQueueSelector.select(&m, &mqs).unwrap();
    assert!(mqs.contains(&r));
    assert!(RandomQueueSelector.select(&m, &[]).is_none());
    assert_eq!(queue_at(&mqs, 6).unwrap().queue_id, 2);
    let mut sel = QueueSelector::round_robin();
    assert_eq!(sel.select(&m, &mqs).unwrap().queue_id, 1);
}

use rocketmq::message_ext::{hex_string, HostAddress, MessageExt};
use rocketmq::protocol::DecodeError;

const STORED: [u8; 123] = [
    0, 0, 0, 123, 218, 163, 32, 167, 0, 0, 0, 0, 0, 0, 0, 0, 0, 0, 0, 0, 0, 0, 0, 0, 0, 0, 0,
    123, 0, 0, 0, 0, 0, 1, 226, 64, 0, 0, 0, 0, 0, 0, 1, 104, 106, 154, 142, 143, 127, 0, 0, 1,
    0, 0, 0, 0, 0, 0, 0, 0, 0, 0, 0, 0, 192, 168, 2, 248, 0, 0, 0, 0, 0, 0, 0, 0, 0, 0, 0, 0, 0,
    0, 0, 0, 0, 0, 0, 8, 104, 101, 108, 108, 111, 33, 113, 33, 3, 97, 98, 99, 0, 21, 97, 1, 49,
    50, 51, 2, 98, 1, 104, 101, 108, 108, 111, 2, 99, 1, 51, 46, 49, 52, 2,
];

#[test]
fn test_decode_message_ext() {
    let msgs = MessageExt::decode(&STORED[..]).unwrap();
    assert_eq!(1, msgs.len());
    let msg = &msgs[0];
    assert_eq!("abc", msg.message.topic);
    assert_eq!(b"hello!q!", &msg.message.body[..]);
    assert_eq!(HostAddress { ip: vec![127, 0, 0, 1], port: 0 }, msg.born_host);
    assert_eq!(HostAddress { ip: vec![192, 168, 2, 248], port: 0 }, msg.store_host);
    assert_eq!(123456, msg.commit_log_offset);
    assert_eq!(0, msg.prepared_transaction_offset);
    assert_eq!(0, msg.queue_id);
    assert_eq!(123, msg.queue_offset);
    assert_eq!(0, msg.reconsume_times);
    assert_eq!("123", msg.message.get_property("a").unwrap());
    assert_eq!("hello", msg.message.get_property("b").unwrap());
    assert_eq!("3.14", msg.message.get_property("c").unwrap());
}

#[test]
fn stored_message_id_and_lists() {
    let msgs = MessageExt::decode(&STORED[..]).unwrap();
    assert_eq!(msgs[0].msg_id, "c0a802f800000000000000000001e240");
    let mut two = STORED.to_vec();
    two.extend_from_slice(&STORED);
    assert_eq!(MessageExt::decode(&two).unwrap().len(), 2);
    assert!(MessageExt::decode(&[]).unwrap().is_empty());
    for n in 1..STORED.len() {
        assert_eq!(MessageExt::decode(&STORED[..n]).unwrap_err(), DecodeError::Truncated);
    }
    let mut bad = STORED.to_vec();
    bad[97] = 0xff;
    assert_eq!(MessageExt::decode(&bad).unwrap_err(), DecodeError::BadUtf8);
    assert_eq!(hex_string(&[0, 15, 171]), "000fab");
}
