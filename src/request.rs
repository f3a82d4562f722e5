//! Request codes and the headers of the requests the client sends, each
//! encoded as extension fields.
use crate::fields::{fields_map, fields_view, insert_field, keys_distinct, Fields};
use crate::text::{bool_string, bool_text, i64_text, int_text};
use vstd::prelude::*;

verus! {

/// Operation codes of requests.
#[derive(Debug, Clone, Copy, PartialEq, Eq, Structural)]
pub enum RequestCode {
    /// send message to broker
    SendMessage,
    /// subscribe message from broker
    PullMessage,
    /// query message from broker
    QueryMessage,
    /// query broker offset
    QueryBrokerOffset,
    /// query consumer offset from broker
    QueryConsumerOffset,
    /// update consumer offset to broker
    UpdateConsumerOffset,
    /// create or update topic to broker
    UpdateAndCreateTopic,
    /// get all topic config info from broker
    GetAllTopicConfig,
    /// get all topic list from broker
    GetTopicConfigList,
    /// get topic name list from broker
    GetTopicNameList,
    UpdateBrokerConfig,
    GetBrokerConfig,
    TriggerDeleteFiles,
    GetBrokerRuntimeInfo,
    SearchOffsetByTimestamp,
    GetMaxOffset,
    GetMinOffset,
    GetEarliestMsgStoreTime,
    ViewMessageById,
    /// send heartbeat to broker and register itself
    Heartbeat,
    /// unregister client from broker
    UnregisterClient,
    /// send back consume failed message to broker
    ConsumerSendMsgBack,
    /// commit or rollback transaction
    EndTransaction,
    /// get consumer list by group from broker
    GetConsumerListByGroup,
    CheckTransactionState,
    /// broker send notify to consumer when consumer lists changes
    NotifyConsumerIdsChanged,
    /// lock mq before orderly consume
    LockBatchMQ,
    /// unlock mq after orderly consume
    UnlockBatchMQ,
    GetAllConsumerOffset,
    GetAllDelayOffset,
    PutKvConfig,
    GetKvConfig,
    DeleteKvConfig,
    RegisterBroker,
    UnregisterBroker,
    GetRouteInfoByTopic,
    GetBrokerClusterInfo,
    UpdateAndCreateSubscriptionGroup,
    GetAllSubscriptionGroupConfig,
    GetTopicStatsInfo,
    GetConsumerConnectionList,
    GetProducerConnectionList,
    WipeWritePermOfBroker,
    GetAllTopicListFromNameServer,
    DeleteSubscriptionGroup,
    GetConsumeStats,
    SuspendConsumer,
    ResumeConsumer,
    ResetConsumerOffsetInConsumer,
    ResetConsumerOffsetInBroker,
    AdjustConsumerThreadPool,
    WhoConsumeTheMessage,
    DeleteTopicInBroker,
    DeleteTopicInNameServer,
    GetKvConfigByValue,
    DeleteKvConfigByValue,
    GetKvListByNamespace,
    ResetConsumerClientOffset,
    GetConsumerStatusFromClient,
    InvokeBrokerToResetOffset,
    InvokeBrokerToGetConsumerStatus,
    QueryTopicsByCluster,
    RegisterFilterServer,
    RegisterMessageFilterClass,
    QueryConsumeTimeSpan,
    GetSystemTopicListFromNameServer,
    GetSystemTopicListFromBroker,
    CleanExpiredConsumeQueue,
    GetConsumerRunningInfo,
    QueryConnectionOffset,
    ConsumeMessageDirectly,
    SendMessageV2,
    GetUnitTopicList,
    GetHasUnitSubTopicList,
    GetHasUnitSubUnunitTopicList,
    CloneGroupOffset,
    ViewBrokerStatsData,
    SendBatchMessage,
}

impl RequestCode {
    pub open spec fn spec_code(self) -> i16 {
        match self {
            RequestCode::SendMessage => 10,
            RequestCode::PullMessage => 11,
            RequestCode::QueryMessage => 12,
            RequestCode::QueryBrokerOffset => 13,
            RequestCode::QueryConsumerOffset => 14,
            RequestCode::UpdateConsumerOffset => 15,
            RequestCode::UpdateAndCreateTopic => 17,
            RequestCode::GetAllTopicConfig => 21,
            RequestCode::GetTopicConfigList => 22,
            RequestCode::GetTopicNameList => 23,
            RequestCode::UpdateBrokerConfig => 25,
            RequestCode::GetBrokerConfig => 26,
            RequestCode::TriggerDeleteFiles => 27,
            RequestCode::GetBrokerRuntimeInfo => 28,
            RequestCode::SearchOffsetByTimestamp => 29,
            RequestCode::GetMaxOffset => 30,
            RequestCode::GetMinOffset => 31,
            RequestCode::GetEarliestMsgStoreTime => 32,
            RequestCode::ViewMessageById => 33,
            RequestCode::Heartbeat => 34,
            RequestCode::UnregisterClient => 35,
            RequestCode::ConsumerSendMsgBack => 36,
            RequestCode::EndTransaction => 37,
            RequestCode::GetConsumerListByGroup => 38,
            RequestCode::CheckTransactionState => 39,
            RequestCode::NotifyConsumerIdsChanged => 40,
            RequestCode::LockBatchMQ => 41,
            RequestCode::UnlockBatchMQ => 42,
            RequestCode::GetAllConsumerOffset => 43,
            RequestCode::GetAllDelayOffset => 45,
            RequestCode::PutKvConfig => 100,
            RequestCode::GetKvConfig => 101,
            RequestCode::DeleteKvConfig => 102,
            RequestCode::RegisterBroker => 103,
            RequestCode::UnregisterBroker => 104,
            RequestCode::GetRouteInfoByTopic => 105,
            RequestCode::GetBrokerClusterInfo => 106,
            RequestCode::UpdateAndCreateSubscriptionGroup => 200,
            RequestCode::GetAllSubscriptionGroupConfig => 201,
            RequestCode::GetTopicStatsInfo => 202,
            RequestCode::GetConsumerConnectionList => 203,
            RequestCode::GetProducerConnectionList => 204,
            RequestCode::WipeWritePermOfBroker => 205,
            RequestCode::GetAllTopicListFromNameServer => 206,
            RequestCode::DeleteSubscriptionGroup => 207,
            RequestCode::GetConsumeStats => 208,
            RequestCode::SuspendConsumer => 209,
            RequestCode::ResumeConsumer => 210,
            RequestCode::ResetConsumerOffsetInConsumer => 211,
            RequestCode::ResetConsumerOffsetInBroker => 212,
            RequestCode::AdjustConsumerThreadPool => 213,
            RequestCode::WhoConsumeTheMessage => 214,
            RequestCode::DeleteTopicInBroker => 215,
            RequestCode::DeleteTopicInNameServer => 216,
            RequestCode::GetKvConfigByValue => 217,
            RequestCode::DeleteKvConfigByValue => 218,
            RequestCode::GetKvListByNamespace => 219,
            RequestCode::ResetConsumerClientOffset => 220,
            RequestCode::GetConsumerStatusFromClient => 221,
            RequestCode::InvokeBrokerToResetOffset => 222,
            RequestCode::InvokeBrokerToGetConsumerStatus => 223,
            RequestCode::QueryTopicsByCluster => 224,
            RequestCode::RegisterFilterServer => 301,
            RequestCode::RegisterMessageFilterClass => 302,
            RequestCode::QueryConsumeTimeSpan => 303,
            RequestCode::GetSystemTopicListFromNameServer => 304,
            RequestCode::GetSystemTopicListFromBroker => 305,
            RequestCode::CleanExpiredConsumeQueue => 306,
            RequestCode::GetConsumerRunningInfo => 307,
            RequestCode::QueryConnectionOffset => 308,
            RequestCode::ConsumeMessageDirectly => 309,
            RequestCode::SendMessageV2 => 310,
            RequestCode::GetUnitTopicList => 311,
            RequestCode::GetHasUnitSubTopicList => 312,
            RequestCode::GetHasUnitSubUnunitTopicList => 313,
            RequestCode::CloneGroupOffset => 314,
            RequestCode::ViewBrokerStatsData => 315,
            RequestCode::SendBatchMessage => 320,
        }
    }

    /// The wire value of this code.
    pub fn code(&self) -> (r: i16)
        ensures
            r == self.spec_code(),
    {
        match self {
            RequestCode::SendMessage => 10,
            RequestCode::PullMessage => 11,
            RequestCode::QueryMessage => 12,
            RequestCode::QueryBrokerOffset => 13,
            RequestCode::QueryConsumerOffset => 14,
            RequestCode::UpdateConsumerOffset => 15,
            RequestCode::UpdateAndCreateTopic => 17,
            RequestCode::GetAllTopicConfig => 21,
            RequestCode::GetTopicConfigList => 22,
            RequestCode::GetTopicNameList => 23,
            RequestCode::UpdateBrokerConfig => 25,
            RequestCode::GetBrokerConfig => 26,
            RequestCode::TriggerDeleteFiles => 27,
            RequestCode::GetBrokerRuntimeInfo => 28,
            RequestCode::SearchOffsetByTimestamp => 29,
            RequestCode::GetMaxOffset => 30,
            RequestCode::GetMinOffset => 31,
            RequestCode::GetEarliestMsgStoreTime => 32,
            RequestCode::ViewMessageById => 33,
            RequestCode::Heartbeat => 34,
            RequestCode::UnregisterClient => 35,
            RequestCode::ConsumerSendMsgBack => 36,
            RequestCode::EndTransaction => 37,
            RequestCode::GetConsumerListByGroup => 38,
            RequestCode::CheckTransactionState => 39,
            RequestCode::NotifyConsumerIdsChanged => 40,
            RequestCode::LockBatchMQ => 41,
            RequestCode::UnlockBatchMQ => 42,
            RequestCode::GetAllConsumerOffset => 43,
            RequestCode::GetAllDelayOffset => 45,
            RequestCode::PutKvConfig => 100,
            RequestCode::GetKvConfig => 101,
            RequestCode::DeleteKvConfig => 102,
            RequestCode::RegisterBroker => 103,
            RequestCode::UnregisterBroker => 104,
            RequestCode::GetRouteInfoByTopic => 105,
            RequestCode::GetBrokerClusterInfo => 106,
            RequestCode::UpdateAndCreateSubscriptionGroup => 200,
            RequestCode::GetAllSubscriptionGroupConfig => 201,
            RequestCode::GetTopicStatsInfo => 202,
            RequestCode::GetConsumerConnectionList => 203,
            RequestCode::GetProducerConnectionList => 204,
            RequestCode::WipeWritePermOfBroker => 205,
            RequestCode::GetAllTopicListFromNameServer => 206,
            RequestCode::DeleteSubscriptionGroup => 207,
            RequestCode::GetConsumeStats => 208,
            RequestCode::SuspendConsumer => 209,
            RequestCode::ResumeConsumer => 210,
            RequestCode::ResetConsumerOffsetInConsumer => 211,
            RequestCode::ResetConsumerOffsetInBroker => 212,
            RequestCode::AdjustConsumerThreadPool => 213,
            RequestCode::WhoConsumeTheMessage => 214,
            RequestCode::DeleteTopicInBroker => 215,
            RequestCode::DeleteTopicInNameServer => 216,
            RequestCode::GetKvConfigByValue => 217,
            RequestCode::DeleteKvConfigByValue => 218,
            RequestCode::GetKvListByNamespace => 219,
            RequestCode::ResetConsumerClientOffset => 220,
            RequestCode::GetConsumerStatusFromClient => 221,
            RequestCode::InvokeBrokerToResetOffset => 222,
            RequestCode::InvokeBrokerToGetConsumerStatus => 223,
            RequestCode::QueryTopicsByCluster => 224,
            RequestCode::RegisterFilterServer => 301,
            RequestCode::RegisterMessageFilterClass => 302,
            RequestCode::QueryConsumeTimeSpan => 303,
            RequestCode::GetSystemTopicListFromNameServer => 304,
            RequestCode::GetSystemTopicListFromBroker => 305,
            RequestCode::CleanExpiredConsumeQueue => 306,
            RequestCode::GetConsumerRunningInfo => 307,
            RequestCode::QueryConnectionOffset => 308,
            RequestCode::ConsumeMessageDirectly => 309,
            RequestCode::SendMessageV2 => 310,
            RequestCode::GetUnitTopicList => 311,
            RequestCode::GetHasUnitSubTopicList => 312,
            RequestCode::GetHasUnitSubUnunitTopicList => 313,
            RequestCode::CloneGroupOffset => 314,
            RequestCode::ViewBrokerStatsData => 315,
            RequestCode::SendBatchMessage => 320,
        }
    }
}

/// A request header, carried as extension fields.
pub trait EncodeRequestHeader: Sized {
    /// The fields that the header encodes to.
    spec fn spec_fields(&self) -> Map<Seq<char>, Seq<char>>;

    fn encode(self) -> (r: Fields)
        ensures
            keys_distinct(fields_view(r@)),
            fields_map(fields_view(r@)) == self.spec_fields(),
    ;
}

fn no_fields() -> (r: Fields)
    ensures
        keys_distinct(fields_view(r@)),
        fields_map(fields_view(r@)) == Map::<Seq<char>, Seq<char>>::empty(),
{
    let r: Fields = Vec::new();
    assert(fields_map(fields_view(r@)) =~= Map::<Seq<char>, Seq<char>>::empty());
    r
}

fn put(f: &mut Fields, k: &str, v: String)
    requires
        keys_distinct(fields_view(old(f)@)),
    ensures
        keys_distinct(fields_view(final(f)@)),
        fields_map(fields_view(final(f)@)) == fields_map(fields_view(old(f)@)).insert(k@, v@),
{
    insert_field(f, k.to_owned(), v);
}

#[derive(Debug, Clone)]
pub struct SendMessageRequestHeader {
    pub producer_group: String,
    pub topic: String,
    pub queue_id: u32,
    pub sys_flag: i32,
    pub born_timestamp: i64,
    pub flag: i32,
    pub properties: String,
    pub reconsume_times: i32,
    pub unit_mode: bool,
    pub max_reconsume_times: i32,
    pub batch: bool,
    pub default_topic: String,
    pub default_topic_queue_nums: i32,
}

impl EncodeRequestHeader for SendMessageRequestHeader {
    open spec fn spec_fields(&self) -> Map<Seq<char>, Seq<char>> {
        Map::<Seq<char>, Seq<char>>::empty()
            .insert("producerGroup"@, self.producer_group@)
            .insert("topic"@, self.topic@)
            .insert("queueId"@, int_text(self.queue_id as int))
            .insert("sysFlag"@, int_text(self.sys_flag as int))
            .insert("bornTimestamp"@, int_text(self.born_timestamp as int))
            .insert("flag"@, int_text(self.flag as int))
            .insert("reconsumeTimes"@, int_text(self.reconsume_times as int))
            .insert("unitMode"@, bool_text(self.unit_mode))
            .insert("maxReconsumeTimes"@, int_text(self.max_reconsume_times as int))
            .insert("defaultTopic"@, self.default_topic@)
            .insert("defaultTopicQueueNums"@, int_text(self.default_topic_queue_nums as int))
            .insert("batch"@, bool_text(self.batch))
            .insert("properties"@, self.properties@)
    }

    fn encode(self) -> (r: Fields) {
        let mut map = no_fields();
        put(&mut map, "producerGroup", self.producer_group);
        put(&mut map, "topic", self.topic);
        put(&mut map, "queueId", i64_text(self.queue_id as i64));
        put(&mut map, "sysFlag", i64_text(self.sys_flag as i64));
        put(&mut map, "bornTimestamp", i64_text(self.born_timestamp as i64));
        put(&mut map, "flag", i64_text(self.flag as i64));
        put(&mut map, "reconsumeTimes", i64_text(self.reconsume_times as i64));
        put(&mut map, "unitMode", bool_string(self.unit_mode));
        put(&mut map, "maxReconsumeTimes", i64_text(self.max_reconsume_times as i64));
        put(&mut map, "defaultTopic", self.default_topic);
        put(&mut map, "defaultTopicQueueNums", i64_text(self.default_topic_queue_nums as i64));
        put(&mut map, "batch", bool_string(self.batch));
        put(&mut map, "properties", self.properties);
        map
    }
}

#[derive(Debug, Clone)]
pub struct SendMessageRequestV2Header {
    pub producer_group: String,
    pub topic: String,
    pub queue_id: u32,
    pub sys_flag: i32,
    pub born_timestamp: i64,
    pub flag: i32,
    pub properties: String,
    pub reconsume_times: i32,
    pub unit_mode: bool,
    pub max_reconsume_times: i32,
    pub batch: bool,
    pub default_topic: String,
    pub default_topic_queue_nums: i32,
}

impl EncodeRequestHeader for SendMessageRequestV2Header {
    open spec fn spec_fields(&self) -> Map<Seq<char>, Seq<char>> {
        Map::<Seq<char>, Seq<char>>::empty()
            .insert("a"@, self.producer_group@)
            .insert("b"@, self.topic@)
            .insert("c"@, self.default_topic@)
            .insert("d"@, int_text(self.default_topic_queue_nums as int))
            .insert("e"@, int_text(self.queue_id as int))
            .insert("f"@, int_text(self.sys_flag as int))
            .insert("g"@, int_text(self.born_timestamp as int))
            .insert("h"@, int_text(self.flag as int))
            .insert("i"@, self.properties@)
            .insert("j"@, int_text(self.reconsume_times as int))
            .insert("k"@, bool_text(self.unit_mode))
            .insert("l"@, int_text(self.max_reconsume_times as int))
            .insert("m"@, bool_text(self.batch))
    }

    fn encode(self) -> (r: Fields) {
        let mut map = no_fields();
        put(&mut map, "a", self.producer_group);
        put(&mut map, "b", self.topic);
        put(&mut map, "c", self.default_topic);
        put(&mut map, "d", i64_text(self.default_topic_queue_nums as i64));
        put(&mut map, "e", i64_text(self.queue_id as i64));
        put(&mut map, "f", i64_text(self.sys_flag as i64));
        put(&mut map, "g", i64_text(self.born_timestamp as i64));
        put(&mut map, "h", i64_text(self.flag as i64));
        put(&mut map, "i", self.properties);
        put(&mut map, "j", i64_text(self.reconsume_times as i64));
        put(&mut map, "k", bool_string(self.unit_mode));
        put(&mut map, "l", i64_text(self.max_reconsume_times as i64));
        put(&mut map, "m", bool_string(self.batch));
        map
    }
}

#[derive(Debug, Clone)]
pub struct CheckTransactionStateRequestHeader {
    pub tran_state_table_offset: i64,
    pub commit_log_offset: i64,
    pub msg_id: String,
    pub transaction_id: String,
    pub offset_msg_id: String,
}

impl EncodeRequestHeader for CheckTransactionStateRequestHeader {
    open spec fn spec_fields(&self) -> Map<Seq<char>, Seq<char>> {
        Map::<Seq<char>, Seq<char>>::empty()
            .insert("tranStateTableOffset"@, int_text(self.tran_state_table_offset as int))
            .insert("commitLogOffset"@, int_text(self.commit_log_offset as int))
            .insert("msgId"@, self.msg_id@)
            .insert("transactionId"@, self.transaction_id@)
            .insert("offsetMsgId"@, self.offset_msg_id@)
    }

    fn encode(self) -> (r: Fields) {
        let mut map = no_fields();
        put(&mut map, "tranStateTableOffset", i64_text(self.tran_state_table_offset as i64));
        put(&mut map, "commitLogOffset", i64_text(self.commit_log_offset as i64));
        put(&mut map, "msgId", self.msg_id);
        put(&mut map, "transactionId", self.transaction_id);
        put(&mut map, "offsetMsgId", self.offset_msg_id);
        map
    }
}

#[derive(Debug, Clone)]
pub struct GetRouteInfoRequestHeader {
    pub topic: String,
}

impl EncodeRequestHeader for GetRouteInfoRequestHeader {
    open spec fn spec_fields(&self) -> Map<Seq<char>, Seq<char>> {
        Map::<Seq<char>, Seq<char>>::empty()
            .insert("topic"@, self.topic@)
    }

    fn encode(self) -> (r: Fields) {
        let mut map = no_fields();
        put(&mut map, "topic", self.topic);
        map
    }
}

#[derive(Debug, Clone)]
pub struct PullMessageRequestHeader {
    pub consumer_group: String,
    pub topic: String,
    pub queue_id: i32,
    pub queue_offset: i64,
    pub max_msg_nums: i32,
    pub sys_flag: i32,
    pub commit_offset: i64,
    pub suspend_timeout_millis: i64,
    pub sub_expression: String,
    pub sub_version: i64,
    pub expression_type: String,
}

impl EncodeRequestHeader for PullMessageRequestHeader {
    open spec fn spec_fields(&self) -> Map<Seq<char>, Seq<char>> {
        Map::<Seq<char>, Seq<char>>::empty()
            .insert("consumerGroup"@, self.consumer_group@)
            .insert("topic"@, self.topic@)
            .insert("queueId"@, int_text(self.queue_id as int))
            .insert("queueOffset"@, int_text(self.queue_offset as int))
            .insert("maxMsgNums"@, int_text(self.max_msg_nums as int))
            .insert("sysFlag"@, int_text(self.sys_flag as int))
            .insert("commitOffset"@, int_text(self.commit_offset as int))
            .insert("suspendTimeoutMillis"@, int_text(self.suspend_timeout_millis as int))
            .insert("subscription"@, self.sub_expression@)
            .insert("subVersion"@, int_text(self.sub_version as int))
            .insert("expressionType"@, self.expression_type@)
    }

    fn encode(self) -> (r: Fields) {
        let mut map = no_fields();
        put(&mut map, "consumerGroup", self.consumer_group);
        put(&mut map, "topic", self.topic);
        put(&mut map, "queueId", i64_text(self.queue_id as i64));
        put(&mut map, "queueOffset", i64_text(self.queue_offset as i64));
        put(&mut map, "maxMsgNums", i64_text(self.max_msg_nums as i64));
        put(&mut map, "sysFlag", i64_text(self.sys_flag as i64));
        put(&mut map, "commitOffset", i64_text(self.commit_offset as i64));
        put(&mut map, "suspendTimeoutMillis", i64_text(self.suspend_timeout_millis as i64));
        put(&mut map, "subscription", self.sub_expression);
        put(&mut map, "subVersion", i64_text(self.sub_version as i64));
        put(&mut map, "expressionType", self.expression_type);
        map
    }
}

#[derive(Debug, Clone)]
pub struct UnregisterClientRequestHeader {
    pub client_id: String,
    pub producer_group: String,
    pub consumer_group: String,
}

impl EncodeRequestHeader for UnregisterClientRequestHeader {
    open spec fn spec_fields(&self) -> Map<Seq<char>, Seq<char>> {
        Map::<Seq<char>, Seq<char>>::empty()
            .insert("clientID"@, self.client_id@)
            .insert("producerGroup"@, self.producer_group@)
            .insert("consumerGroup"@, self.consumer_group@)
    }

    fn encode(self) -> (r: Fields) {
        let mut map = no_fields();
        put(&mut map, "clientID", self.client_id);
        put(&mut map, "producerGroup", self.producer_group);
        put(&mut map, "consumerGroup", self.consumer_group);
        map
    }
}

#[derive(Debug, Clone)]
pub struct CreateTopicRequestHeader {
    pub topic: String,
    pub default_topic: String,
    pub read_queue_nums: u32,
    pub write_queue_nums: u32,
    pub permission: i32,
    pub topic_filter_type: String,
    pub topic_sys_flag: i32,
    pub order: bool,
}

impl EncodeRequestHeader for CreateTopicRequestHeader {
    open spec fn spec_fields(&self) -> Map<Seq<char>, Seq<char>> {
        Map::<Seq<char>, Seq<char>>::empty()
            .insert("topic"@, self.topic@)
            .insert("defaultTopic"@, self.default_topic@)
            .insert("readQueueNums"@, int_text(self.read_queue_nums as int))
            .insert("writeQueueNums"@, int_text(self.write_queue_nums as int))
            .insert("perm"@, int_text(self.permission as int))
            .insert("topicFilterType"@, self.topic_filter_type@)
            .insert("topicSysFlag"@, int_text(self.topic_sys_flag as int))
            .insert("order"@, bool_text(self.order))
    }

    fn encode(self) -> (r: Fields) {
        let mut map = no_fields();
        put(&mut map, "topic", self.topic);
        put(&mut map, "defaultTopic", self.default_topic);
        put(&mut map, "readQueueNums", i64_text(self.read_queue_nums as i64));
        put(&mut map, "writeQueueNums", i64_text(self.write_queue_nums as i64));
        put(&mut map, "perm", i64_text(self.permission as i64));
        put(&mut map, "topicFilterType", self.topic_filter_type);
        put(&mut map, "topicSysFlag", i64_text(self.topic_sys_flag as i64));
        put(&mut map, "order", bool_string(self.order));
        map
    }
}

#[derive(Debug, Clone)]
pub struct QueryConsumerOffsetRequestHeader {
    pub consumer_group: String,
    pub topic: String,
    pub queue_id: u32,
}

impl EncodeRequestHeader for QueryConsumerOffsetRequestHeader {
    open spec fn spec_fields(&self) -> Map<Seq<char>, Seq<char>> {
        Map::<Seq<char>, Seq<char>>::empty()
            .insert("consumerGroup"@, self.consumer_group@)
            .insert("topic"@, self.topic@)
            .insert("queueId"@, int_text(self.queue_id as int))
    }

    fn encode(self) -> (r: Fields) {
        let mut map = no_fields();
        put(&mut map, "consumerGroup", self.consumer_group);
        put(&mut map, "topic", self.topic);
        put(&mut map, "queueId", i64_text(self.queue_id as i64));
        map
    }
}

#[derive(Debug, Clone)]
pub struct UpdateConsumerOffsetRequestHeader {
    pub consumer_group: String,
    pub topic: String,
    pub queue_id: u32,
    pub commit_offset: i64,
}

impl EncodeRequestHeader for UpdateConsumerOffsetRequestHeader {
    open spec fn spec_fields(&self) -> Map<Seq<char>, Seq<char>> {
        Map::<Seq<char>, Seq<char>>::empty()
            .insert("consumerGroup"@, self.consumer_group@)
            .insert("topic"@, self.topic@)
            .insert("queueId"@, int_text(self.queue_id as int))
            .insert("commitOffset"@, int_text(self.commit_offset as int))
    }

    fn encode(self) -> (r: Fields) {
        let mut map = no_fields();
        put(&mut map, "consumerGroup", self.consumer_group);
        put(&mut map, "topic", self.topic);
        put(&mut map, "queueId", i64_text(self.queue_id as i64));
        put(&mut map, "commitOffset", i64_text(self.commit_offset as i64));
        map
    }
}

#[derive(Debug, Clone)]
pub struct GetConsumerListRequestHeader {
    pub consumer_group: String,
}

impl EncodeRequestHeader for GetConsumerListRequestHeader {
    open spec fn spec_fields(&self) -> Map<Seq<char>, Seq<char>> {
        Map::<Seq<char>, Seq<char>>::empty()
            .insert("consumerGroup"@, self.consumer_group@)
    }

    fn encode(self) -> (r: Fields) {
        let mut map = no_fields();
        put(&mut map, "consumerGroup", self.consumer_group);
        map
    }
}

#[derive(Debug, Clone)]
pub struct GetMaxOffsetRequestHeader {
    pub topic: String,
    pub queue_id: u32,
}

impl EncodeRequestHeader for GetMaxOffsetRequestHeader {
    open spec fn spec_fields(&self) -> Map<Seq<char>, Seq<char>> {
        Map::<Seq<char>, Seq<char>>::empty()
            .insert("topic"@, self.topic@)
            .insert("queueId"@, int_text(self.queue_id as int))
    }

    fn encode(self) -> (r: Fields) {
        let mut map = no_fields();
        put(&mut map, "topic", self.topic);
        put(&mut map, "queueId", i64_text(self.queue_id as i64));
        map
    }
}

} // verus!
