use rocketmq::message::MessageQueue;
use rocketmq::strategy::{
    AllocateAveragely, AllocateAveragelyByCircle, AllocateByConfig, AllocateByMachineRoom,
    AllocateConsistentHash, AllocateStrategy,
};

fn q(id: u32) -> MessageQueue {
    MessageQueue {
        topic: "".to_string(),
        broker_name: "".to_string(),
        queue_id: id,
    }
}

fn six() -> Vec<MessageQueue> {
    (0..6).map(q).collect()
}

fn ids(v: &[MessageQueue]) -> Vec<u32> {
    v.iter().map(|m| m.queue_id).collect()
}

#[test]
fn test_allocate_averagely() {
    let mqs = six();
    let strategy = AllocateAveragely;
    // invalid input cases
    assert!(strategy
        .allocate("testGroup", "", &mqs, &["192.168.24.1@default"])
        .is_empty());
    assert!(strategy
        .allocate("testGroup", "", &[], &["192.168.24.1@default"])
        .is_empty());
    assert!(strategy.allocate("testGroup", "", &mqs, &[]).is_empty());
    // valid input cases
    assert_eq!(
        strategy.allocate(
            "testGroup",
            "192.168.24.1@default",
            &mqs,
            &["192.168.24.1@default", "192.168.24.2@default"]
        ),
        vec![q(0), q(1), q(2)]
    );
    assert_eq!(
        strategy.allocate(
            "testGroup",
            "192.168.24.2@default",
            &mqs,
            &[
                "192.168.24.1@default",
                "192.168.24.2@default",
                "192.168.24.3@default"
            ]
        ),
        vec![q(2), q(3)]
    );
    assert_eq!(
        strategy.allocate(
            "testGroup",
            "192.168.24.2@default",
            &mqs,
            &[
                "192.168.24.1@default",
                "192.168.24.2@default",
                "192.168.24.3@default",
                "192.168.24.4@default"
            ]
        ),
        vec![q(2), q(3)]
    );
    assert_eq!(
        strategy.allocate(
            "testGroup",
            "192.168.24.4@default",
            &mqs,
            &[
                "192.168.24.1@default",
                "192.168.24.2@default",
                "192.168.24.3@default",
                "192.168.24.4@default"
            ]
        ),
        vec![q(5)]
    );
    assert_eq!(
        strategy.allocate(
            "testGroup",
            "192.168.24.7@default",
            &mqs,
            &[
                "192.168.24.1@default",
                "192.168.24.2@default",
                "192.168.24.3@default",
                "192.168.24.4@default",
                "192.168.24.5@default",
                "192.168.24.6@default",
                "192.168.24.7@default"
            ]
        ),
        Vec::new()
    );
}

#[test]
fn averagely_two_members_split_in_halves() {
    let mqs = six();
    let s = AllocateAveragely;
    assert_eq!(ids(&s.allocate("g", "A", &mqs, &["A", "B"])), vec![0, 1, 2]);
    assert_eq!(ids(&s.allocate("g", "B", &mqs, &["A", "B"])), vec![3, 4, 5]);
}

#[test]
fn averagely_three_members_tile_without_gaps() {
    let mqs = six();
    let s = AllocateAveragely;
    let members = ["A", "B", "C"];
    let mut all = Vec::new();
    for m in members.iter() {
        let got = ids(&s.allocate("g", m, &mqs, &members));
        assert_eq!(got.len(), 2);
        assert_eq!(got[1], got[0] + 1);
        all.extend(got);
    }
    assert_eq!(all, vec![0, 1, 2, 3, 4, 5]);
}

#[test]
fn averagely_more_members_than_queues() {
    let mqs: Vec<MessageQueue> = (0..2).map(q).collect();
    let s = AllocateAveragely;
    assert_eq!(ids(&s.allocate("g", "B", &mqs, &["A", "B", "C"])), vec![1]);
    assert!(s.allocate("g", "C", &mqs, &["A", "B", "C"]).is_empty());
}

#[test]
fn by_circle_takes_every_mth_queue() {
    let mqs = six();
    let s = AllocateAveragelyByCircle;
    assert_eq!(ids(&s.allocate("g", "B", &mqs, &["A", "B", "C", "D"])), vec![1, 5]);
    assert_eq!(ids(&s.allocate("g", "A", &mqs, &["A", "B", "C", "D"])), vec![0, 4]);
}

fn room_queue(broker: &str, id: u32) -> MessageQueue {
    MessageQueue {
        topic: "t".to_string(),
        broker_name: broker.to_string(),
        queue_id: id,
    }
}

#[test]
fn machine_room_filters_then_splits() {
    let mqs = vec![
        room_queue("room1@b1", 0),
        room_queue("room2@b1", 1),
        room_queue("room1@b2", 2),
        room_queue("b3", 3),
        room_queue("room1@b4@x", 4),
        room_queue("room1@b5", 5),
    ];
    let s = AllocateByMachineRoom::new(vec!["room1".to_string()]);
    // queues of room1: 0, 2, 5; two members: one each, then the remainder.
    assert_eq!(ids(&s.allocate("g", "A", &mqs, &["A", "B"])), vec![0, 5]);
    assert_eq!(ids(&s.allocate("g", "B", &mqs, &["A", "B"])), vec![2]);
}

#[test]
fn config_returns_its_list() {
    let s = AllocateByConfig::new(vec![q(3), q(1)]);
    assert_eq!(ids(&s.allocate("g", "A", &six(), &["A", "B"])), vec![3, 1]);
    assert!(s.allocate("g", "", &six(), &["A"]).is_empty());
    assert!(s.allocate("g", "A", &[], &["A"]).is_empty());
}

#[test]
fn consistent_hash_partitions_all_queues() {
    let mqs: Vec<MessageQueue> = (0..20).map(|i| room_queue("broker-a", i)).collect();
    let s = AllocateConsistentHash::new(10);
    let members = ["A", "B", "C"];
    let mut all: Vec<u32> = Vec::new();
    for m in members.iter() {
        all.extend(ids(&s.allocate("g", m, &mqs, &members)));
    }
    all.sort();
    assert_eq!(all, (0..20).collect::<Vec<u32>>());
    // shares are disjoint
    let a = ids(&s.allocate("g", "A", &mqs, &members));
    let b = ids(&s.allocate("g", "B", &mqs, &members));
    assert!(a.iter().all(|x| !b.contains(x)));
    // the same inputs give the same allocation
    assert_eq!(
        s.allocate("g", "A", &mqs, &members),
        s.allocate("g", "A", &mqs, &members)
    );
}

#[test]
fn every_strategy_is_empty_on_invalid_input() {
    let mqs = six();
    let strategies = vec![
        AllocateStrategy::Averagely(AllocateAveragely),
        AllocateStrategy::AveragelyByCircle(AllocateAveragelyByCircle),
        AllocateStrategy::Config(AllocateByConfig::new(vec![q(1)])),
        AllocateStrategy::MachineRoom(AllocateByMachineRoom::new(vec!["".to_string()])),
        AllocateStrategy::ConsistentHash(AllocateConsistentHash::new(5)),
    ];
    for s in strategies.iter() {
        assert!(s.allocate("g", "", &mqs, &["A"]).is_empty());
        assert!(s.allocate("g", "A", &[], &["A"]).is_empty());
        assert!(s.allocate("g", "A", &mqs, &[]).is_empty());
        assert!(s.allocate("g", "Z", &mqs, &["A", "B"]).is_empty());
    }
}
