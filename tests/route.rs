use rocketmq::message::MessageQueue;
use rocketmq::namesrv::{route_response_error, NameServerInner, RouteQuery};
use rocketmq::error::Error;
use rocketmq::route::{
    is_topic_route_data_changed, order_conf_message_queues, BrokerData, Permission, QueueData,
    TopicRouteData,
};

fn qd(name: &str, read: i32, write: i32, perm: i32) -> QueueData {
    QueueData {
        broker_name: name.to_string(),
        read_queue_nums: read,
        write_queue_nums: write,
        perm: Permission::from_bits(perm),
        topic_sync_flag: 0,
    }
}

fn bd(name: &str, addrs: Vec<(i64, &str)>) -> BrokerData {
    BrokerData {
        cluster: "c".to_string(),
        broker_name: name.to_string(),
        broker_addrs: addrs.into_iter().map(|(i, a)| (i, a.to_string())).collect(),
    }
}

fn route(qds: Vec<QueueData>, bds: Vec<BrokerData>) -> TopicRouteData {
    TopicRouteData {
        order_topic_conf: String::new(),
        queue_datas: qds,
        broker_datas: bds,
        filter_server_table: Vec::new(),
    }
}

fn names(v: &[MessageQueue]) -> Vec<(String, u32)> {
    v.iter().map(|m| (m.broker_name.clone(), m.queue_id)).collect()
}

#[test]
fn permission_bits() {
    let p = Permission::from_bits(Permission::READ | Permission::INHERIT);
    assert!(p.is_readable());
    assert!(!p.is_writeable());
    assert!(p.is_inherited());
    assert_eq!(p.flags_text(), "R-X");
}

#[test]
fn publish_queues_reverse_order_and_skips() {
    let r = route(
        vec![qd("a", 2, 2, 6), qd("b", 1, 1, 4), qd("c", 3, 1, 6), qd("d", 1, 2, 6)],
        vec![
            bd("a", vec![(0, "10.0.0.1:10911")]),
            bd("b", vec![(0, "10.0.0.2:10911")]),
            bd("c", vec![(0, ""), (1, "10.0.0.3:10911")]),
            bd("d", vec![(0, "10.0.0.4:10911")]),
        ],
    );
    let info = r.to_publish_info("T").unwrap();
    assert!(!info.order_topic);
    assert_eq!(info.route_data, r);
    assert_eq!(
        names(&info.message_queues),
        vec![
            ("d".to_string(), 0),
            ("d".to_string(), 1),
            ("a".to_string(), 0),
            ("a".to_string(), 1)
        ]
    );
    assert!(info.message_queues.iter().all(|m| m.topic == "T"));
}

#[test]
fn ordered_topic_configuration() {
    let mut r = route(vec![qd("a", 8, 8, 6)], vec![bd("a", vec![(0, "x")])]);
    r.order_topic_conf = "b1:2;b2:1".to_string();
    let info = r.to_publish_info("T").unwrap();
    assert!(info.order_topic);
    assert_eq!(
        names(&info.message_queues),
        vec![("b1".to_string(), 0), ("b1".to_string(), 1), ("b2".to_string(), 0)]
    );
    assert!(order_conf_message_queues("T", "b1:x").is_none());
    assert!(order_conf_message_queues("T", "b1:2;").is_none());
    assert!(order_conf_message_queues("T", "b1").is_none());
    assert_eq!(order_conf_message_queues("T", "b1:0").unwrap().len(), 0);
}

#[test]
fn subscribe_queues_of_readable_entries() {
    let r = route(vec![qd("a", 2, 5, 4), qd("b", 3, 3, 2), qd("c", 1, 0, 6)], Vec::new());
    assert_eq!(
        names(&r.subscribe_message_queues("T")),
        vec![("a".to_string(), 0), ("a".to_string(), 1), ("c".to_string(), 0)]
    );
}

#[test]
fn change_detection_ignores_order() {
    let a = route(
        vec![qd("a", 2, 2, 6), qd("b", 1, 1, 6)],
        vec![bd("a", vec![(0, "x"), (1, "y")]), bd("b", vec![(0, "z")])],
    );
    let b = route(
        vec![qd("b", 1, 1, 6), qd("a", 2, 2, 6)],
        vec![bd("b", vec![(0, "z")]), bd("a", vec![(1, "y"), (0, "x")])],
    );
    assert!(!is_topic_route_data_changed(&a, &b));
    let c = route(vec![qd("b", 1, 1, 6), qd("a", 2, 3, 6)], b.broker_datas.clone());
    assert!(is_topic_route_data_changed(&a, &c));
    let d = route(vec![qd("a", 2, 2, 6), qd("a", 2, 2, 6)], a.broker_datas.clone());
    assert!(is_topic_route_data_changed(&a, &d));
}

#[test]
fn clamp_to_default_queue_count() {
    let mut r = route(vec![qd("a", 8, 8, 6), qd("b", 2, 3, 6), qd("c", 2, 9, 6)], Vec::new());
    r.clamp_queue_nums(4);
    assert_eq!(r.queue_datas[0].read_queue_nums, 4);
    assert_eq!(r.queue_datas[0].write_queue_nums, 4);
    assert_eq!(r.queue_datas[1].read_queue_nums, 2);
    assert_eq!(r.queue_datas[1].write_queue_nums, 3);
    assert_eq!(r.queue_datas[2].read_queue_nums, 2);
    assert_eq!(r.queue_datas[2].write_queue_nums, 4);
}

#[test]
fn name_server_round_robin_and_query_order() {
    let mut ns = NameServerInner::new(vec!["n1".to_string(), "n2".to_string(), "n3".to_string()]);
    assert_eq!(ns.get_address().unwrap(), "n1");
    let mut q = ns.start_route_query().unwrap();
    assert_eq!(q.start, 1);
    let mut order = Vec::new();
    while let Some(i) = q.next_server() {
        order.push(ns.server(i));
    }
    assert_eq!(order, vec!["n2", "n3", "n1"]);
    assert_eq!(ns.get_address().unwrap(), "n3");
    assert_eq!(
        RouteQuery { start: 0, tried: 0, count: 1 }.next_server(),
        Some(0)
    );
}

#[test]
fn empty_name_server_list() {
    let mut ns = NameServerInner::new(Vec::new());
    assert!(ns.is_empty());
    assert!(ns.get_address().is_none());
    assert_eq!(ns.start_route_query().unwrap_err(), Error::EmptyNameServers);
}

#[test]
fn route_response_outcomes() {
    let remark = "boom".to_string();
    assert!(route_response_error(0, &remark, "T").is_none());
    assert_eq!(
        route_response_error(17, &remark, "T"),
        Some(Error::TopicNotExist("T".to_string()))
    );
    assert_eq!(
        route_response_error(1, &remark, "T"),
        Some(Error::ResponseError { code: 1, message: "boom".to_string() })
    );
}

#[test]
fn route_cache_updates_only_on_change() {
    let mut ns = NameServerInner::new(vec!["n1".to_string()]);
    let r1 = route(
        vec![qd("a", 2, 2, 6)],
        vec![bd("a", vec![(0, "10.0.0.1:10911"), (1, "10.0.0.9:10911")])],
    );
    assert!(ns.update_topic_route_info("T", r1.clone()));
    assert!(!ns.update_topic_route_info("T", r1.clone()));
    assert_eq!(ns.find_broker_addr_by_name("a").unwrap(), "10.0.0.1:10911");
    assert!(ns.find_broker_addr_by_name("zz").is_none());
    assert_eq!(ns.find_broker_addr_by_topic("T").unwrap(), "10.0.0.1:10911");
    assert!(ns.find_broker_addr_by_topic("U").is_none());
    let r2 = route(
        vec![qd("a", 2, 2, 6)],
        vec![bd("a", vec![(0, ""), (1, ""), (2, "10.0.0.7:10911")])],
    );
    assert!(ns.update_topic_route_info("T", r2));
    assert_eq!(ns.find_broker_addr_by_topic_with("T", 5, 3).unwrap(), "10.0.0.7:10911");
    assert_eq!(ns.find_broker_addr_by_name("a").unwrap(), "");
    assert_eq!(ns.cached_route("T").unwrap().broker_datas[0].broker_addrs.len(), 3);
    for pick in 0..4 {
        assert_eq!(ns.find_broker_addr_by_topic_with("T", 0, pick).unwrap(), "10.0.0.7:10911");
    }
    let r3 = route(vec![qd("a", 2, 2, 6)], vec![bd("a", vec![(0, ""), (1, "")])]);
    assert!(ns.update_topic_route_info("T", r3));
    assert!(ns.find_broker_addr_by_topic("T").is_none());
}
