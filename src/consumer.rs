//! Consumer-side settings and results, and the state of a queue being
//! consumed.
use vstd::prelude::*;

verus! {

#[derive(Debug, Clone, Copy, PartialEq, Eq, Structural)]
pub enum MessageModel {
    BroadCasting,
    Clustering,
}

impl MessageModel {
    pub fn name(&self) -> (r: &'static str) {
        match self {
            MessageModel::BroadCasting => "BroadCasting",
            MessageModel::Clustering => "Clustering",
        }
    }
}

/// Where a new consumer starts.
#[derive(Debug, Clone, Copy, PartialEq, Eq, Structural)]
pub enum ConsumeFrom {
    LastOffset,
    FirstOffset,
    Timestamp,
}

#[derive(Debug, Clone, Copy, PartialEq, Eq, Structural)]
pub enum ExpressionType {
    Sql92,
    Tag,
}

impl ExpressionType {
    pub fn name(&self) -> (r: &'static str) {
        match self {
            ExpressionType::Sql92 => "SQL92",
            ExpressionType::Tag => "TAG",
        }
    }
}

#[derive(Debug, Clone, Copy, PartialEq, Eq, Structural)]
pub enum ConsumeResult {
    Success,
    RetryLater,
    Commit,
    Rollback,
    SuspendCurrentQueueAMoment,
}

#[derive(Debug, Clone, Copy, PartialEq, Eq, Structural)]
pub enum ConsumerReturn {
    Success,
    Exception,
    Null,
    Timeout,
    Failed,
}

#[derive(Debug, Clone, Copy, PartialEq, Eq, Structural)]
pub enum ConsumeType {
    Actively,
    Passively,
}

impl ConsumeType {
    pub fn name(&self) -> (r: &'static str) {
        match self {
            ConsumeType::Actively => "CONSUME_ACTIVELY",
            ConsumeType::Passively => "CONSUME_PASSIVELY",
        }
    }
}

/// Where an offset is read from.
#[derive(Debug, Clone, Copy, PartialEq, Eq, Structural)]
pub enum ReadType {
    Memory,
    Store,
    MemoryThenStore,
}

/// Progress of the consumption of one queue.
#[derive(Debug, Clone)]
pub struct ProcessQueue {
    pub msg_count: usize,
    pub msg_size: usize,
    pub msg_acc_count: usize,
    pub queue_offset_max: i64,
    pub dropped: bool,
    pub last_pull_timestamp: i64,
    pub last_consume_timestamp: i64,
    pub locked: bool,
    pub last_lock_timestamp: i64,
    pub consuming: bool,
}

/// Relies on `time::OffsetDateTime::now_utc`: the clock, of which nothing
/// can be promised.
#[verifier::external_body]
fn unix_now() -> (r: i64) {
    time::OffsetDateTime::now_utc().unix_timestamp()
}

impl ProcessQueue {
    /// An empty queue state whose timestamps are all the same moment.
    pub fn new() -> (r: ProcessQueue)
        ensures
            r.msg_count == 0 && r.msg_size == 0 && r.msg_acc_count == 0,
            r.queue_offset_max == 0,
            !r.dropped && !r.locked && !r.consuming,
            r.last_pull_timestamp == r.last_consume_timestamp,
            r.last_consume_timestamp == r.last_lock_timestamp,
    {
        let ts = unix_now();
        ProcessQueue {
            msg_count: 0,
            msg_size: 0,
            msg_acc_count: 0,
            queue_offset_max: 0,
            dropped: false,
            last_pull_timestamp: ts,
            last_consume_timestamp: ts,
            locked: false,
            last_lock_timestamp: ts,
            consuming: false,
        }
    }
}

} // verus!
