//! Producer-side results and the per-topic publish information a producer
//! keeps.
use crate::error::Error;
use crate::fields::{fields_map, fields_view, get_field, keys_distinct, text_eq};
use crate::message::{queues_view, Message, MessageQueue, MessageQueueView};
use crate::protocol::{text_bytes, RemotingCommand};
use crate::route::{all_digits, digits_value, publish_info_queues, TopicPublishInfo, TopicRouteData};
use crate::text::{in_i64, parse_i64, parse_u32, signed_value};
use vstd::string::StringExecFns;
use vstd::prelude::*;

verus! {

/// Outcome of a send.
#[derive(Debug, Clone, Copy, PartialEq, Eq, Structural)]
pub enum SendStatus {
    SendOk,
    FlushDiskTimeout,
    FlushSlaveTimeout,
    SlaveNotAvailable,
    UnknownError,
}

/// Result of a send.
#[derive(Debug, Clone)]
pub struct SendResult {
    pub status: SendStatus,
    pub msg_id: String,
    pub message_queue: MessageQueue,
    pub queue_offset: i64,
    pub transaction_id: Option<String>,
    pub offset_msg_id: String,
    pub region_id: String,
    pub trace_on: bool,
}

pub open spec fn has_info(s: Seq<(String, TopicPublishInfo)>, t: Seq<char>) -> bool {
    exists|i: int| 0 <= i < s.len() && s[i].0@ == t
}

pub open spec fn info_index(s: Seq<(String, TopicPublishInfo)>, t: Seq<char>) -> int {
    choose|i: int| 0 <= i < s.len() && s[i].0@ == t
}

/// Topic to its publish queues.
pub open spec fn infos_map(s: Seq<(String, TopicPublishInfo)>) -> Map<Seq<char>, Seq<MessageQueueView>> {
    Map::new(
        |t: Seq<char>| has_info(s, t),
        |t: Seq<char>| queues_view(s[info_index(s, t)].1.message_queues@),
    )
}

/// The publish information of the topics a producer sends to.
pub struct ProducerInner {
    publish_info: Vec<(String, TopicPublishInfo)>,
}

impl View for ProducerInner {
    type V = Map<Seq<char>, Seq<MessageQueueView>>;

    closed spec fn view(&self) -> Map<Seq<char>, Seq<MessageQueueView>> {
        infos_map(self.publish_info@)
    }
}

fn find_info(s: &Vec<(String, TopicPublishInfo)>, t: &str) -> (r: Option<usize>)
    ensures
        match r {
            Some(i) => i < s@.len() && s@[i as int].0@ == t@,
            None => !has_info(s@, t@),
        },
{
    let mut i: usize = 0;
    while i < s.len()
        invariant
            i <= s@.len(),
            forall|j: int| 0 <= j < i ==> s@[j].0@ != t@,
        decreases s@.len() - i,
    {
        if text_eq(s[i].0.as_str(), t) {
            return Some(i);
        }
        i = i + 1;
    }
    proof {
        if has_info(s@, t@) {
            let j = info_index(s@, t@);
            assert(s@[j].0@ != t@);
        }
    }
    None
}

impl ProducerInner {
    pub closed spec fn wf(&self) -> bool {
        forall|i: int, j: int|
            0 <= i < j < self.publish_info@.len() ==> self.publish_info@[i].0@ != self.publish_info@[j].0@
    }

    pub fn new() -> (r: ProducerInner)
        ensures
            r.wf(),
            r@ == Map::<Seq<char>, Seq<MessageQueueView>>::empty(),
    {
        let r = ProducerInner { publish_info: Vec::new() };
        assert(r@ =~= Map::<Seq<char>, Seq<MessageQueueView>>::empty());
        r
    }

    /// The topics with publish information.
    pub fn publish_topic_list(&self) -> (r: Vec<String>)
        ensures
            forall|t: Seq<char>| #[trigger] self@.contains_key(t) <==> exists|i: int| 0 <= i < r@.len() && r@[i]@ == t,
    {
        let mut r: Vec<String> = Vec::new();
        let mut i: usize = 0;
        while i < self.publish_info.len()
            invariant
                i <= self.publish_info@.len(),
                r@.len() == i,
                forall|j: int| 0 <= j < i ==> (#[trigger] r@[j])@ == self.publish_info@[j].0@,
            decreases self.publish_info@.len() - i,
        {
            r.push(self.publish_info[i].0.clone());
            i = i + 1;
        }
        proof {
            assert forall|t: Seq<char>| #[trigger] self@.contains_key(t) <==> exists|i: int| 0 <= i < r@.len() && r@[i]@ == t by {
                if self@.contains_key(t) {
                    let j = info_index(self.publish_info@, t);
                    assert(r@[j]@ == t);
                }
                if exists|i: int| 0 <= i < r@.len() && r@[i]@ == t {
                    let j = choose|i: int| 0 <= i < r@.len() && r@[i]@ == t;
                    assert(self.publish_info@[j].0@ == t);
                }
            }
        }
        r
    }

    /// Records the publish information of a non-empty topic.
    pub fn update_topic_publish_info(&mut self, topic: &str, info: TopicPublishInfo)
        requires
            old(self).wf(),
        ensures
            final(self).wf(),
            topic@.len() == 0 ==> final(self)@ == old(self)@,
            topic@.len() > 0 ==> final(self)@ == old(self)@.insert(topic@, queues_view(info.message_queues@)),
    {
        if topic.is_empty() {
            return;
        }
        let ghost old_s = self.publish_info@;
        let ghost qv = queues_view(info.message_queues@);
        let pos = match find_info(&self.publish_info, topic) {
            Some(i) => {
                self.publish_info.set(i, (topic.to_owned(), info));
                i
            },
            None => {
                self.publish_info.push((topic.to_owned(), info));
                self.publish_info.len() - 1
            },
        };
        proof {
            let s = self.publish_info@;
            assert(s[pos as int].0@ == topic@);
            assert(queues_view(s[pos as int].1.message_queues@) == qv);
            assert forall|k: Seq<char>| has_info(s, k) <==> (has_info(old_s, k) || k == topic@) by {
                if has_info(s, k) {
                    let j = info_index(s, k);
                    if k != topic@ {
                        assert(old_s[j].0@ == k);
                    }
                }
                if has_info(old_s, k) {
                    let j = info_index(old_s, k);
                    if k != topic@ {
                        assert(s[j].0@ == k);
                    }
                }
            }
            assert forall|k: Seq<char>| has_info(s, k) implies infos_map(s)[k] == (if k == topic@ {
                qv
            } else {
                infos_map(old_s)[k]
            }) by {
                let j = info_index(s, k);
                if k != topic@ {
                    assert(old_s[j].0@ == k);
                    let j0 = info_index(old_s, k);
                }
            }
            assert(infos_map(s) =~= infos_map(old_s).insert(topic@, qv));
        }
    }

    /// A topic needs fresh route data when it has no publish queues yet.
    pub fn is_publish_topic_need_update(&self, topic: &str) -> (r: bool)
        requires
            self.wf(),
        ensures
            r == (!self@.contains_key(topic@) || self@[topic@].len() == 0),
    {
        match find_info(&self.publish_info, topic) {
            Some(i) => {
                proof {
                    assert(has_info(self.publish_info@, topic@));
                    assert(info_index(self.publish_info@, topic@) == i);
                }
                self.publish_info[i].1.message_queues.len() == 0
            },
            None => true,
        }
    }

    /// Takes in fresh route data of `topic`: where the route changed or the
    /// topic has no publish queues yet, its publish information is rebuilt
    /// from the route. Returns whether it was.
    pub fn refresh_publish_info(&mut self, topic: &str, route: &TopicRouteData, changed: bool) -> (r: bool)
        requires
            old(self).wf(),
            route.wf(),
        ensures
            final(self).wf(),
            r == ((changed || !old(self)@.contains_key(topic@) || old(self)@[topic@].len() == 0)
                && publish_info_queues(topic@, route@) is Some && topic@.len() > 0),
            r ==> final(self)@ == old(self)@.insert(topic@, publish_info_queues(topic@, route@).unwrap()),
            !r ==> final(self)@ == old(self)@,
    {
        let updated = changed || self.is_publish_topic_need_update(topic);
        if !updated || topic.is_empty() {
            return false;
        }
        match route.to_publish_info(topic) {
            Some(info) => {
                let mut info = info;
                info.have_topic_router_info = true;
                self.update_topic_publish_info(topic, info);
                true
            },
            None => false,
        }
    }

    pub fn is_unit_mode(&self) -> (r: bool)
        ensures
            !r,
    {
        false
    }
}

/// The send status that a response code stands for, where it is one.
pub open spec fn send_status_of(code: i16) -> Option<SendStatus> {
    if code == 0 {
        Some(SendStatus::SendOk)
    } else if code == 10 || code == 12 {
        Some(SendStatus::FlushDiskTimeout)
    } else if code == 11 {
        Some(SendStatus::SlaveNotAvailable)
    } else {
        None
    }
}

/// The unique keys of the messages that have one, joined by commas.
pub open spec fn joined_keys(ms: Seq<Message>) -> Seq<char>
    decreases ms.len(),
{
    if ms.len() == 0 {
        Seq::empty()
    } else {
        let prev = joined_keys(ms.drop_last());
        let p = ms.last().props();
        if p.contains_key("UNIQ_KEY"@) && p["UNIQ_KEY"@].len() > 0 {
            if prev.len() == 0 {
                p["UNIQ_KEY"@]
            } else {
                prev + ","@ + p["UNIQ_KEY"@]
            }
        } else {
            prev
        }
    }
}

pub open spec fn u32_value(s: Seq<u8>) -> Option<u32> {
    if s.len() > 0 && all_digits(s) && digits_value(s) <= u32::MAX {
        Some(digits_value(s) as u32)
    } else {
        None
    }
}

pub open spec fn i64_value(s: Seq<u8>) -> Option<i64> {
    match signed_value(s) {
        Some(v) => if in_i64(v) {
            Some(v as i64)
        } else {
            None
        },
        None => None,
    }
}

/// The response carries a queue id, a queue offset and a message id.
pub open spec fn send_fields_present(m: Map<Seq<char>, Seq<char>>) -> bool {
    &&& m.contains_key("queueId"@) && u32_value(text_bytes(m["queueId"@])) is Some
    &&& m.contains_key("queueOffset"@) && i64_value(text_bytes(m["queueOffset"@])) is Some
    &&& m.contains_key("msgId"@)
}

fn joined_unique_keys(msgs: &[Message]) -> (r: String)
    requires
        forall|i: int| 0 <= i < msgs@.len() ==> (#[trigger] msgs@[i]).wf(),
    ensures
        r@ == joined_keys(msgs@),
{
    let mut s = String::new();
    let mut i: usize = 0;
    proof {
        reveal_strlit(",");
    }
    while i < msgs.len()
        invariant
            i <= msgs@.len(),
            forall|i: int| 0 <= i < msgs@.len() ==> (#[trigger] msgs@[i]).wf(),
            s@ == joined_keys(msgs@.take(i as int)),
            ","@ == seq![','],
        decreases msgs@.len() - i,
    {
        assert(msgs@[i as int].wf());
        assert(msgs@.take(i + 1).drop_last() =~= msgs@.take(i as int));
        assert(msgs@.take(i + 1).last() == msgs@[i as int]);
        match msgs[i].unique_key() {
            Some(key) => {
                if !s.as_str().is_empty() {
                    s.append(",");
                }
                s.append(key);
            },
            None => {},
        }
        i = i + 1;
    }
    assert(msgs@.take(i as int) =~= msgs@);
    s
}

/// The result of a send as its response reports it. Codes other than
/// success, flush-disk or flush-slave timeout and slave-not-available are a
/// response error with the response's remark; so is a response without a
/// readable queue id, queue offset or message id.
pub fn process_send_response(broker_name: &str, cmd: &RemotingCommand, msgs: &[Message]) -> (r:
    Result<SendResult, Error>)
    requires
        msgs@.len() > 0,
        keys_distinct(cmd.header@.ext_fields),
        forall|i: int| 0 <= i < msgs@.len() ==> (#[trigger] msgs@[i]).wf(),
    ensures
        ({
            let m = fields_map(cmd.header@.ext_fields);
            match send_status_of(cmd.header.code) {
                None => r matches Err(Error::ResponseError { code, message }) && code == cmd.header.code
                    && message@ == cmd.header.remark@,
                Some(status) => if send_fields_present(m) {
                    r matches Ok(res) && res.status == status && res.msg_id@ == joined_keys(msgs@)
                        && res.message_queue@ == (MessageQueueView {
                        topic: msgs@[0].topic@,
                        broker_name: broker_name@,
                        queue_id: u32_value(text_bytes(m["queueId"@])).unwrap(),
                    }) && res.queue_offset == i64_value(text_bytes(m["queueOffset"@])).unwrap()
                        && res.offset_msg_id@ == m["msgId"@] && (res.transaction_id is Some
                        <==> m.contains_key("transactionId"@)) && (res.transaction_id is Some
                        ==> res.transaction_id.unwrap()@ == m["transactionId"@])
                        && res.region_id@ == (if m.contains_key("MSG_REGION"@) {
                        m["MSG_REGION"@]
                    } else {
                        "DefaultRegion"@
                    }) && res.trace_on == (m.contains_key("TRACE_ON"@) && m["TRACE_ON"@].len() > 0
                        && m["TRACE_ON"@] != "false"@)
                } else {
                    r matches Err(Error::ResponseError { code, .. }) && code == cmd.header.code
                },
            }
        }),
{
    let code = cmd.header.code;
    let status = if code == 0 {
        SendStatus::SendOk
    } else if code == 10 || code == 12 {
        SendStatus::FlushDiskTimeout
    } else if code == 11 {
        SendStatus::SlaveNotAvailable
    } else {
        return Err(Error::ResponseError { code, message: cmd.header.remark.clone() });
    };
    let ext = &cmd.header.ext_fields;
    let missing = Error::ResponseError { code, message: "incomplete send response".to_owned() };
    let queue_id = match get_field(ext, "queueId") {
        Some(v) => match parse_u32(v.as_str()) {
            Some(q) => q,
            None => {
                return Err(missing);
            },
        },
        None => {
            return Err(missing);
        },
    };
    let queue_offset = match get_field(ext, "queueOffset") {
        Some(v) => match parse_i64(v.as_str()) {
            Some(o) => o,
            None => {
                return Err(missing);
            },
        },
        None => {
            return Err(missing);
        },
    };
    let offset_msg_id = match get_field(ext, "msgId") {
        Some(v) => v.clone(),
        None => {
            return Err(missing);
        },
    };
    let region_id = match get_field(ext, "MSG_REGION") {
        Some(v) => v.clone(),
        None => "DefaultRegion".to_owned(),
    };
    let trace_on = match get_field(ext, "TRACE_ON") {
        Some(v) => !v.as_str().is_empty() && !text_eq(v.as_str(), "false"),
        None => false,
    };
    let transaction_id = match get_field(ext, "transactionId") {
        Some(v) => Some(v.clone()),
        None => None,
    };
    Ok(
        SendResult {
            status,
            msg_id: joined_unique_keys(msgs),
            message_queue: MessageQueue {
                topic: msgs[0].topic.clone(),
                broker_name: broker_name.to_owned(),
                queue_id,
            },
            queue_offset,
            transaction_id,
            offset_msg_id,
            region_id,
            trace_on,
        },
    )
}

} // verus!
