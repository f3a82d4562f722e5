//! Data that clients report to brokers, and topic configuration.
use crate::route::Permission;
use vstd::prelude::*;

verus! {

#[derive(Debug, Clone, PartialEq)]
pub struct ProducerData {
    pub group_name: String,
}

#[derive(Debug, Clone, PartialEq)]
pub struct SubscriptionData {
    pub class_filter_mode: bool,
    pub topic: String,
    pub sub_string: String,
    pub tags_set: Vec<String>,
    pub code_set: Vec<String>,
    pub sub_version: i64,
    pub expression_type: String,
}

#[derive(Debug, Clone, PartialEq)]
pub struct ConsumerData {
    pub group_name: String,
    pub consumer_type: String,
    pub message_model: String,
    pub consume_from_where: String,
    pub subscription_data_set: Vec<SubscriptionData>,
    pub unit_mode: bool,
}

#[derive(Debug, Clone)]
pub struct HeartbeatData {
    pub client_id: String,
    pub producer_data_set: Vec<ProducerData>,
    pub consumer_data_set: Vec<ConsumerData>,
}

#[derive(Debug, Clone, Copy, PartialEq, Eq, Structural)]
pub enum TopicFilterType {
    SingleTag,
    MultiTag,
}

impl TopicFilterType {
    pub fn name(&self) -> (r: &'static str) {
        match self {
            TopicFilterType::SingleTag => "SINGLE_TAG",
            TopicFilterType::MultiTag => "MULTI_TAG",
        }
    }
}

/// Configuration of a topic to be created.
#[derive(Debug, Clone)]
pub struct TopicConfig {
    pub topic_name: String,
    pub read_queue_nums: u32,
    pub write_queue_nums: u32,
    pub permission: Permission,
    pub topic_filter_type: TopicFilterType,
    pub topic_sys_flag: i32,
    pub order: bool,
}

impl TopicConfig {
    /// 16 read and 16 write queues, readable and writeable, single tag,
    /// not ordered.
    pub fn new(topic_name: String) -> (r: TopicConfig)
        ensures
            r.topic_name@ == topic_name@,
            r.read_queue_nums == 16,
            r.write_queue_nums == 16,
            r.permission.readable() && r.permission.writeable() && !r.permission.inherited(),
            r.permission.bits == 6,
            r.topic_filter_type == TopicFilterType::SingleTag,
            r.topic_sys_flag == 0,
            !r.order,
    {
        let bits = Permission::READ | Permission::WRITE;
        assert(bits == 6) by (bit_vector)
            requires
                bits == 4i32 | 2i32,
        ;
        let permission = Permission::from_bits(bits);
        assert(6i32 & 4i32 == 4i32 && 6i32 & 2i32 == 2i32 && 6i32 & 1i32 == 0i32) by (bit_vector);
        TopicConfig {
            topic_name,
            read_queue_nums: 16,
            write_queue_nums: 16,
            permission,
            topic_filter_type: TopicFilterType::SingleTag,
            topic_sys_flag: 0,
            order: false,
        }
    }
}

} // verus!
