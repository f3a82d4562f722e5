use rocketmq::client::ClientOptions;
use rocketmq::consumer::ProcessQueue;
use rocketmq::message::MessageQueue;
use rocketmq::model::TopicConfig;
use rocketmq::producer::ProducerInner;
use rocketmq::protocol::RemotingCommand;
use rocketmq::request::{
    EncodeRequestHeader, GetRouteInfoRequestHeader, PullMessageRequestHeader, RequestCode,
    SendMessageRequestHeader,
};
use rocketmq::resolver::{passthrough, split_addresses, EnvResolver, StaticResolver};
use rocketmq::response::ResponseCode;
use rocketmq::route::{TopicPublishInfo, TopicRouteData};
use rocketmq::text::{bool_string, i64_text};

#[test]
fn test_process_queue() {
    let _pq = ProcessQueue::new();
}

#[test]
fn process_queue_starts_empty() {
    let pq = ProcessQueue::new();
    assert_eq!(pq.msg_count, 0);
    assert!(!pq.dropped);
    assert_eq!(pq.last_pull_timestamp, pq.last_lock_timestamp);
    assert!(pq.last_pull_timestamp > 0);
}

#[test]
fn integer_text() {
    assert_eq!(i64_text(0), "0");
    assert_eq!(i64_text(1234567), "1234567");
    assert_eq!(i64_text(-42), "-42");
    assert_eq!(i64_text(i64::MIN), "-9223372036854775808");
    assert_eq!(bool_string(false), "false");
}

fn get<'a>(f: &'a [(String, String)], k: &str) -> &'a str {
    f.iter().find(|(key, _)| key == k).map(|(_, v)| v.as_str()).unwrap()
}

#[test]
fn send_header_fields() {
    let h = SendMessageRequestHeader {
        producer_group: "pg".to_string(),
        topic: "T".to_string(),
        queue_id: 3,
        sys_flag: 0,
        born_timestamp: 1600000000000,
        flag: -1,
        properties: "p".to_string(),
        reconsume_times: 0,
        unit_mode: false,
        max_reconsume_times: 16,
        batch: true,
        default_topic: "TBW102".to_string(),
        default_topic_queue_nums: 4,
    };
    let f = h.encode();
    assert_eq!(f.len(), 13);
    assert_eq!(get(&f, "queueId"), "3");
    assert_eq!(get(&f, "bornTimestamp"), "1600000000000");
    assert_eq!(get(&f, "flag"), "-1");
    assert_eq!(get(&f, "batch"), "true");
    assert_eq!(get(&f, "unitMode"), "false");
    assert_eq!(get(&f, "defaultTopic"), "TBW102");
}

#[test]
fn request_with_header() {
    let cmd = RemotingCommand::with_header(
        RequestCode::GetRouteInfoByTopic.code(),
        GetRouteInfoRequestHeader { topic: "T".to_string() },
        Vec::new(),
    );
    assert_eq!(cmd.code(), 105);
    assert_eq!(cmd.header.ext_fields, vec![("topic".to_string(), "T".to_string())]);
    let pull = PullMessageRequestHeader {
        consumer_group: "g".to_string(),
        topic: "T".to_string(),
        queue_id: 1,
        queue_offset: 10,
        max_msg_nums: 32,
        sys_flag: 2,
        commit_offset: 0,
        suspend_timeout_millis: 20000,
        sub_expression: "*".to_string(),
        sub_version: 0,
        expression_type: "TAG".to_string(),
    };
    let f = pull.encode();
    assert_eq!(get(&f, "suspendTimeoutMillis"), "20000");
    assert_eq!(get(&f, "subscription"), "*");
}

#[test]
fn response_codes() {
    assert_eq!(ResponseCode::from_code(17).unwrap(), ResponseCode::TopicNotExist);
    assert_eq!(ResponseCode::PullOffsetMoved.code(), 21);
    assert_eq!(
        ResponseCode::from_code(99).unwrap_err(),
        Error::ResponseError { code: 99, message: "unknown response code 99".to_string() }
    );
    assert_eq!(RequestCode::SendMessageV2.code(), 310);
}

#[test]
fn address_lists() {
    assert_eq!(split_addresses("a:1;b:2").unwrap(), vec!["a:1", "b:2"]);
    assert_eq!(split_addresses("").unwrap(), vec![""]);
    assert_eq!(split_addresses("a;").unwrap(), vec!["a", ""]);
    assert!(EnvResolver::addresses_of(None).is_empty());
    assert_eq!(EnvResolver::addresses_of(Some("x;y")), vec!["x", "y"]);
    let s = StaticResolver::new(vec!["n:9876".to_string()]);
    assert_eq!(s.resolve(), vec!["n:9876"]);
    assert_eq!(passthrough(Vec::new(), vec!["f".to_string()]), vec!["f"]);
    assert_eq!(passthrough(vec!["e".to_string()], vec!["f".to_string()]), vec!["e"]);
}

#[test]
fn topic_config_defaults() {
    let c = TopicConfig::new("T".to_string());
    assert_eq!(c.read_queue_nums, 16);
    assert!(c.permission.is_readable() && c.permission.is_writeable());
    let o = ClientOptions::new("g", "10.0.0.1".to_string());
    assert_eq!(o.instance_name, "DEFAULT");
    assert_eq!(o.retry_times, 3);
}

fn info(n: u32) -> TopicPublishInfo {
    TopicPublishInfo {
        order_topic: false,
        have_topic_router_info: true,
        message_queues: (0..n)
            .map(|i| MessageQueue::new("T".to_string(), "b".to_string(), i))
            .collect(),
        route_data: TopicRouteData {
            order_topic_conf: String::new(),
            queue_datas: Vec::new(),
            broker_datas: Vec::new(),
            filter_server_table: Vec::new(),
        },
        queue_index: 0,
    }
}

#[test]
fn producer_publish_info() {
    let mut p = ProducerInner::new();
    assert!(p.is_publish_topic_need_update("T"));
    p.update_topic_publish_info("T", info(0));
    assert!(p.is_publish_topic_need_update("T"));
    p.update_topic_publish_info("T", info(2));
    assert!(!p.is_publish_topic_need_update("T"));
    p.update_topic_publish_info("", info(2));
    assert_eq!(p.publish_topic_list(), vec!["T"]);
    assert!(!p.is_unit_mode());
}

use rocketmq::error::Error;
use rocketmq::message::Message;
use rocketmq::producer::{process_send_response, SendStatus};
use rocketmq::text::{parse_i64, parse_u32};

fn send_response(code: i16, fields: Vec<(&str, &str)>) -> RemotingCommand {
    let ext = fields.into_iter().map(|(k, v)| (k.to_string(), v.to_string())).collect();
    RemotingCommand::new(3, code, 1, "why".to_string(), ext, Vec::new())
}

fn keyed(topic: &str, key: &str) -> Message {
    let mut m = Message::new(topic.to_string(), String::new(), String::new(), 0, Vec::new(), false);
    if !key.is_empty() {
        m.set_unique_key(key.to_string());
    }
    m
}

#[test]
fn send_response_success() {
    let res = send_response(
        0,
        vec![("queueId", "2"), ("queueOffset", "-5"), ("msgId", "M1"), ("TRACE_ON", "true")],
    );
    let msgs = vec![keyed("T", "k1"), keyed("T", ""), keyed("T", "k3")];
    let r = process_send_response("broker-a", &res, &msgs).unwrap();
    assert_eq!(r.status, SendStatus::SendOk);
    assert_eq!(r.msg_id, "k1,k3");
    assert_eq!(r.message_queue, MessageQueue::new("T".to_string(), "broker-a".to_string(), 2));
    assert_eq!(r.queue_offset, -5);
    assert_eq!(r.offset_msg_id, "M1");
    assert_eq!(r.region_id, "DefaultRegion");
    assert!(r.trace_on);
    assert!(r.transaction_id.is_none());
}

#[test]
fn send_response_statuses_and_errors() {
    let fields = vec![("queueId", "0"), ("queueOffset", "0"), ("msgId", "M"), ("TRACE_ON", "false"), ("MSG_REGION", "R")];
    let msgs = vec![keyed("T", "")];
    let r = process_send_response("b", &send_response(12, fields.clone()), &msgs).unwrap();
    assert_eq!(r.status, SendStatus::FlushDiskTimeout);
    assert!(!r.trace_on);
    assert_eq!(r.region_id, "R");
    let r = process_send_response("b", &send_response(11, fields.clone()), &msgs).unwrap();
    assert_eq!(r.status, SendStatus::SlaveNotAvailable);
    assert_eq!(
        process_send_response("b", &send_response(1, fields), &msgs).unwrap_err(),
        Error::ResponseError { code: 1, message: "why".to_string() }
    );
    let bad = vec![("queueId", "x"), ("queueOffset", "0"), ("msgId", "M")];
    assert!(matches!(
        process_send_response("b", &send_response(0, bad), &msgs).unwrap_err(),
        Error::ResponseError { code: 0, .. }
    ));
}

#[test]
fn integer_parsing() {
    assert_eq!(parse_i64("-9223372036854775808"), Some(i64::MIN));
    assert_eq!(parse_i64("9223372036854775807"), Some(i64::MAX));
    assert_eq!(parse_i64("9223372036854775808"), None);
    assert_eq!(parse_i64("-"), None);
    assert_eq!(parse_i64(""), None);
    assert_eq!(parse_i64("12a"), None);
    assert_eq!(parse_u32("4294967295"), Some(u32::MAX));
    assert_eq!(parse_u32("4294967296"), None);
}

use rocketmq::client::{shutdown_transition, start_transition, ClientState};
use rocketmq::route::{BrokerData, Permission, QueueData};

#[test]
fn client_life_cycle() {
    assert_eq!(start_transition(ClientState::Created), (ClientState::Running, true));
    assert_eq!(start_transition(ClientState::Running), (ClientState::Running, false));
    assert_eq!(shutdown_transition(ClientState::Running), (ClientState::Shutdown, true));
    assert_eq!(shutdown_transition(ClientState::Shutdown), (ClientState::Shutdown, false));
}

#[test]
fn refresh_publish_info_when_needed() {
    let route = TopicRouteData {
        order_topic_conf: String::new(),
        queue_datas: vec![QueueData {
            broker_name: "a".to_string(),
            read_queue_nums: 2,
            write_queue_nums: 2,
            perm: Permission::from_bits(6),
            topic_sync_flag: 0,
        }],
        broker_datas: vec![BrokerData {
            cluster: "c".to_string(),
            broker_name: "a".to_string(),
            broker_addrs: vec![(0, "h:1".to_string())],
        }],
        filter_server_table: Vec::new(),
    };
    let mut p = ProducerInner::new();
    assert!(p.refresh_publish_info("T", &route, false));
    assert!(!p.is_publish_topic_need_update("T"));
    assert!(!p.refresh_publish_info("T", &route, false));
    assert!(p.refresh_publish_info("T", &route, true));
    assert!(!p.refresh_publish_info("", &route, true));
}
