use rocketmq::client::Credentials;
use rocketmq::protocol::RemotingCommand;
use rocketmq::remoting::{
    route_inbound, ConnectAction, ConnectionTable, OpaqueCounter, PendingRequests,
};
use rocketmq::signing::{add_signature, calculate_signature, canonical_values};

#[test]
fn test_calculate_signature() {
    let signature = calculate_signature(b"Hello RocketMQ Client ACL Feature", b"adiaushdiaushd");
    assert_eq!(signature, "tAb/54Rwwcq+pbH8Loi7FWX4QSQ=");
}

#[test]
fn connect_attempts_are_shared() {
    let mut table = ConnectionTable::new();
    assert_eq!(table.get_or_create("a:1"), ConnectAction::Connect);
    assert_eq!(table.get_or_create("a:1"), ConnectAction::Wait);
    assert_eq!(table.get_or_create("a:1"), ConnectAction::Wait);
    assert_eq!(table.get_or_create("b:1"), ConnectAction::Connect);
    assert_eq!(table.connect_finished("a:1", Some(7)), 2);
    assert_eq!(table.get_or_create("a:1"), ConnectAction::Ready(7));
}

#[test]
fn failed_connect_does_not_poison() {
    let mut table = ConnectionTable::new();
    assert_eq!(table.get_or_create("a:1"), ConnectAction::Connect);
    assert_eq!(table.get_or_create("a:1"), ConnectAction::Wait);
    assert_eq!(table.connect_finished("a:1", None), 1);
    assert_eq!(table.get_or_create("a:1"), ConnectAction::Connect);
    table.shutdown();
    table.shutdown();
    assert_eq!(table.get_or_create("a:1"), ConnectAction::Connect);
}

fn response(opaque: i32) -> RemotingCommand {
    let mut cmd = RemotingCommand::new(opaque, 0, 0, String::new(), Vec::new(), Vec::new());
    cmd.mark_response_type();
    cmd
}

#[test]
fn pending_entries_never_leak() {
    let mut pending = PendingRequests::new();
    pending.register(1, 100);
    pending.register(2, 200);
    // the caller of 1 times out
    assert_eq!(pending.complete(1), Some(100));
    assert_eq!(pending.len(), 1);
    // the id is reused by a new request; its response completes the new one
    pending.register(1, 300);
    assert_eq!(route_inbound(&mut pending, &response(1)), Some(300));
    assert_eq!(route_inbound(&mut pending, &response(1)), None);
    // a command the server initiated completes nothing
    let request = RemotingCommand::new(2, 40, 0, String::new(), Vec::new(), Vec::new());
    assert_eq!(route_inbound(&mut pending, &request), None);
    // the connection ends: everything left is handed out
    assert_eq!(pending.drain(), vec![200]);
    assert_eq!(pending.len(), 0);
}

#[test]
fn opaque_counter_starts_at_one_and_wraps() {
    let mut c = OpaqueCounter::new();
    assert_eq!(c.next_opaque(), 1);
    assert_eq!(c.next_opaque(), 2);
    c.next = i32::MAX;
    assert_eq!(c.next_opaque(), i32::MAX);
    assert_eq!(c.next_opaque(), i32::MIN);
}

fn signed(fields: Vec<(&str, &str)>) -> RemotingCommand {
    let ext = fields.into_iter().map(|(k, v)| (k.to_string(), v.to_string())).collect();
    let cmd = RemotingCommand::new(1, 10, 0, String::new(), ext, b"body".to_vec());
    let creds = Credentials::new("ak".to_string(), "sk".to_string());
    add_signature(cmd, &creds)
}

fn field<'a>(cmd: &'a RemotingCommand, key: &str) -> Option<&'a str> {
    cmd.header
        .ext_fields
        .iter()
        .find(|(k, _)| k == key)
        .map(|(_, v)| v.as_str())
}

#[test]
fn signature_does_not_depend_on_field_order() {
    let a = signed(vec![("topic", "T"), ("queueId", "3")]);
    let b = signed(vec![("queueId", "3"), ("topic", "T")]);
    assert_eq!(field(&a, "Signature"), field(&b, "Signature"));
    assert_eq!(field(&a, "AccessKey"), Some("ak"));
    let c = signed(vec![("queueId", "4"), ("topic", "T")]);
    assert_ne!(field(&a, "Signature"), field(&c, "Signature"));
}

#[test]
fn signature_covers_sorted_values_then_body() {
    let a = signed(vec![("topic", "T"), ("queueId", "3")]);
    // keys in order: AccessKey, queueId, topic
    let expected = calculate_signature(b"ak3Tbody", b"sk");
    assert_eq!(field(&a, "Signature"), Some(expected.as_str()));
}

#[test]
fn security_token_joins_the_fields() {
    let cmd = RemotingCommand::new(1, 10, 0, String::new(), Vec::new(), Vec::new());
    let mut creds = Credentials::new("ak".to_string(), "sk".to_string());
    creds.security_token = Some("tok".to_string());
    let s = add_signature(cmd, &creds);
    assert_eq!(field(&s, "SecurityToken"), Some("tok"));
    assert_eq!(field(&s, "Signature"), Some(calculate_signature(b"aktok", b"sk").as_str()));
}

#[test]
fn canonical_values_sort_by_key_bytes() {
    let f = vec![
        ("b".to_string(), "2".to_string()),
        ("B".to_string(), "1".to_string()),
        ("ab".to_string(), "4".to_string()),
        ("a".to_string(), "3".to_string()),
    ];
    assert_eq!(canonical_values(&f), b"1342".to_vec());
}
