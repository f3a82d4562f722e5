//! Response codes and the results of send and pull requests.
use crate::error::Error;
use crate::text::{i64_text, int_text};
use vstd::prelude::*;
use vstd::string::StringExecFns;

verus! {

/// Status codes of responses.
#[derive(Debug, Clone, Copy, PartialEq, Eq, Structural)]
pub enum ResponseCode {
    Success,
    SystemError,
    SystemBusy,
    RequestCodeNotSupported,
    FlushDiskTimeout,
    SlaveNotAvailable,
    FlushSlaveTimeout,
    MessageIllegal,
    ServiceNotAvailable,
    VersionNotSupported,
    NoPermission,
    TopicNotExist,
    TopicExistAlready,
    PullNotFound,
    PullRetryImmediately,
    PullOffsetMoved,
    QueryNotFound,
    SubscriptionParseFailed,
    SubscriptionNotExist,
    SubscriptionNotLatest,
    SubscriptionGroupNotExist,
    TransactionShouldCommit,
    TransactionShouldRollback,
    TransactionStateUnknown,
    TransactionStateGroupWrong,
    ConsumerNotOnline,
    ConsumeMsgTimeout,
}

impl ResponseCode {
    pub open spec fn spec_code(self) -> i16 {
        match self {
            ResponseCode::Success => 0,
            ResponseCode::SystemError => 1,
            ResponseCode::SystemBusy => 2,
            ResponseCode::RequestCodeNotSupported => 3,
            ResponseCode::FlushDiskTimeout => 10,
            ResponseCode::SlaveNotAvailable => 11,
            ResponseCode::FlushSlaveTimeout => 12,
            ResponseCode::MessageIllegal => 13,
            ResponseCode::ServiceNotAvailable => 14,
            ResponseCode::VersionNotSupported => 15,
            ResponseCode::NoPermission => 16,
            ResponseCode::TopicNotExist => 17,
            ResponseCode::TopicExistAlready => 18,
            ResponseCode::PullNotFound => 19,
            ResponseCode::PullRetryImmediately => 20,
            ResponseCode::PullOffsetMoved => 21,
            ResponseCode::QueryNotFound => 22,
            ResponseCode::SubscriptionParseFailed => 23,
            ResponseCode::SubscriptionNotExist => 24,
            ResponseCode::SubscriptionNotLatest => 25,
            ResponseCode::SubscriptionGroupNotExist => 26,
            ResponseCode::TransactionShouldCommit => 200,
            ResponseCode::TransactionShouldRollback => 201,
            ResponseCode::TransactionStateUnknown => 202,
            ResponseCode::TransactionStateGroupWrong => 203,
            ResponseCode::ConsumerNotOnline => 206,
            ResponseCode::ConsumeMsgTimeout => 207,
        }
    }

    /// The wire value of this code.
    pub fn code(&self) -> (r: i16)
        ensures
            r == self.spec_code(),
    {
        match self {
            ResponseCode::Success => 0,
            ResponseCode::SystemError => 1,
            ResponseCode::SystemBusy => 2,
            ResponseCode::RequestCodeNotSupported => 3,
            ResponseCode::FlushDiskTimeout => 10,
            ResponseCode::SlaveNotAvailable => 11,
            ResponseCode::FlushSlaveTimeout => 12,
            ResponseCode::MessageIllegal => 13,
            ResponseCode::ServiceNotAvailable => 14,
            ResponseCode::VersionNotSupported => 15,
            ResponseCode::NoPermission => 16,
            ResponseCode::TopicNotExist => 17,
            ResponseCode::TopicExistAlready => 18,
            ResponseCode::PullNotFound => 19,
            ResponseCode::PullRetryImmediately => 20,
            ResponseCode::PullOffsetMoved => 21,
            ResponseCode::QueryNotFound => 22,
            ResponseCode::SubscriptionParseFailed => 23,
            ResponseCode::SubscriptionNotExist => 24,
            ResponseCode::SubscriptionNotLatest => 25,
            ResponseCode::SubscriptionGroupNotExist => 26,
            ResponseCode::TransactionShouldCommit => 200,
            ResponseCode::TransactionShouldRollback => 201,
            ResponseCode::TransactionStateUnknown => 202,
            ResponseCode::TransactionStateGroupWrong => 203,
            ResponseCode::ConsumerNotOnline => 206,
            ResponseCode::ConsumeMsgTimeout => 207,
        }
    }

    /// The response code with wire value `code`; an unknown value is a
    /// response error that names it.
    pub fn from_code(code: i16) -> (r: Result<ResponseCode, Error>)
        ensures
            match r {
                Ok(c) => c.spec_code() == code,
                Err(e) => (e matches Error::ResponseError { code: c, message: m } && c == code
                    && m@ == "unknown response code "@ + int_text(code as int)) && forall|
                    c: ResponseCode,
                | c.spec_code() != code,
            },
    {
        let c = match code {
            0 => ResponseCode::Success,
            1 => ResponseCode::SystemError,
            2 => ResponseCode::SystemBusy,
            3 => ResponseCode::RequestCodeNotSupported,
            10 => ResponseCode::FlushDiskTimeout,
            11 => ResponseCode::SlaveNotAvailable,
            12 => ResponseCode::FlushSlaveTimeout,
            13 => ResponseCode::MessageIllegal,
            14 => ResponseCode::ServiceNotAvailable,
            15 => ResponseCode::VersionNotSupported,
            16 => ResponseCode::NoPermission,
            17 => ResponseCode::TopicNotExist,
            18 => ResponseCode::TopicExistAlready,
            19 => ResponseCode::PullNotFound,
            20 => ResponseCode::PullRetryImmediately,
            21 => ResponseCode::PullOffsetMoved,
            22 => ResponseCode::QueryNotFound,
            23 => ResponseCode::SubscriptionParseFailed,
            24 => ResponseCode::SubscriptionNotExist,
            25 => ResponseCode::SubscriptionNotLatest,
            26 => ResponseCode::SubscriptionGroupNotExist,
            200 => ResponseCode::TransactionShouldCommit,
            201 => ResponseCode::TransactionShouldRollback,
            202 => ResponseCode::TransactionStateUnknown,
            203 => ResponseCode::TransactionStateGroupWrong,
            206 => ResponseCode::ConsumerNotOnline,
            207 => ResponseCode::ConsumeMsgTimeout,
            _ => {
                let mut message = "unknown response code ".to_owned();
                message.append(i64_text(code as i64).as_str());
                return Err(Error::ResponseError { code, message });
            },
        };
        Ok(c)
    }
}

/// The result of a send as the broker reports it.
#[derive(Debug, Clone)]
pub struct SendMessageResponse {
    pub msg_id: String,
    pub queue_id: i32,
    pub queue_offset: i64,
    pub transaction_id: String,
    pub msg_region: String,
}

/// The result of a pull as the broker reports it.
#[derive(Debug, Clone)]
pub struct PullMessageResponse {
    pub suggest_which_broker_id: i64,
    pub next_begin_offset: i64,
    pub min_offset: i64,
    pub max_offset: i64,
}

} // verus!
