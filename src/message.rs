//! Messages and the queues they are sent to.
use crate::error::Error;
use crate::fields::{
    field_insert, fields_map, fields_view, get_field, insert_all, insert_field, keys_distinct,
    lemma_insert_all_distinct_keys, Fields,
};
use crate::protocol::{text_bytes, utf8_text};
use crate::route::first_pos;
use crate::wire::{be16, be32, copy_range, push_all, push_be16, push_be32};
use vstd::prelude::*;
use vstd::string::StringExecFns;
use vstd::utf8::{decode_utf8, valid_utf8};

verus! {

/// One queue of a topic, hosted by one broker.
#[derive(Debug, Clone, PartialEq, Eq, Hash)]
pub struct MessageQueue {
    pub topic: String,
    pub broker_name: String,
    pub queue_id: u32,
}

pub struct MessageQueueView {
    pub topic: Seq<char>,
    pub broker_name: Seq<char>,
    pub queue_id: u32,
}

impl View for MessageQueue {
    type V = MessageQueueView;

    open spec fn view(&self) -> MessageQueueView {
        MessageQueueView { topic: self.topic@, broker_name: self.broker_name@, queue_id: self.queue_id }
    }
}

pub open spec fn queues_view(s: Seq<MessageQueue>) -> Seq<MessageQueueView> {
    Seq::new(s.len(), |i: int| s[i]@)
}

impl MessageQueue {
    pub fn new(topic: String, broker_name: String, queue_id: u32) -> (r: MessageQueue)
        ensures
            r@ == (MessageQueueView { topic: topic@, broker_name: broker_name@, queue_id }),
    {
        MessageQueue { topic, broker_name, queue_id }
    }

    /// A copy with the same topic, broker and queue id.
    pub fn duplicate(&self) -> (r: MessageQueue)
        ensures
            r@ == self@,
    {
        MessageQueue {
            topic: self.topic.clone(),
            broker_name: self.broker_name.clone(),
            queue_id: self.queue_id,
        }
    }
}

/// Copies of all queues of `qs`, in order.
pub fn duplicate_queues(qs: &[MessageQueue]) -> (r: Vec<MessageQueue>)
    ensures
        queues_view(r@) == queues_view(qs@),
{
    let r = queues_between(qs, 0, qs.len());
    assert(queues_view(qs@).subrange(0, qs@.len() as int) =~= queues_view(qs@));
    r
}

/// Copies of the queues of `qs` from `start` up to `end`.
pub fn queues_between(qs: &[MessageQueue], start: usize, end: usize) -> (r: Vec<MessageQueue>)
    requires
        start <= end <= qs@.len(),
    ensures
        queues_view(r@) == queues_view(qs@).subrange(start as int, end as int),
{
    let mut r: Vec<MessageQueue> = Vec::new();
    let mut i: usize = start;
    while i < end
        invariant
            start <= i <= end <= qs@.len(),
            r@.len() == i - start,
            queues_view(r@) == queues_view(qs@).subrange(start as int, i as int),
        decreases end - i,
    {
        let ghost prev = r@;
        let d = qs[i].duplicate();
        r.push(d);
        proof {
            assert(r@ == prev.push(d));
            assert forall|j: int| 0 <= j < i + 1 - start implies queues_view(r@)[j] == queues_view(
                qs@,
            )[start + j] by {
                if j < i - start {
                    assert(queues_view(prev)[j] == queues_view(qs@).subrange(
                        start as int,
                        i as int,
                    )[j]);
                }
            }
        }
        i = i + 1;
        assert(queues_view(r@) =~= queues_view(qs@).subrange(start as int, i as int));
    }
    r
}

/// Names of message properties.
pub struct Property;

impl Property {
    pub const KEYS: &'static str = "KEYS";

    pub const TAGS: &'static str = "TAGS";

    pub const WAIT_STORE_MSG_OK: &'static str = "WAIT";

    pub const DELAY_TIME_LEVEL: &'static str = "DELAY";

    pub const RETRY_TOPIC: &'static str = "RETRY_TOPIC";

    pub const REAL_TOPIC: &'static str = "REAL_TOPIC";

    pub const REAL_QUEUE_ID: &'static str = "REAL_QID";

    pub const TRANSACTION_PREPARED: &'static str = "TRAN_MSG";

    pub const PRODUCER_GROUP: &'static str = "PGROUP";

    pub const MIN_OFFSET: &'static str = "MIN_OFFSET";

    pub const MAX_OFFSET: &'static str = "MAX_OFFSET";

    pub const BUYER_ID: &'static str = "BUYER_ID";

    pub const ORIGIN_MESSAGE_ID: &'static str = "ORIGIN_MESSAGE_ID";

    pub const TRANSFER_FLAG: &'static str = "TRANSFER_FLAG";

    pub const CORRECTION_FLAG: &'static str = "CORRECTION_FLAG";

    pub const MQ2_FLAG: &'static str = "MQ2_FLAG";

    pub const RECONSUME_TIME: &'static str = "RECONSUME_TIME";

    pub const MSG_REGION: &'static str = "MSG_REGION";

    pub const TRACE_SWITCH: &'static str = "TRACE_ON";

    pub const UNIQ_CLIENT_MSG_ID_KEY: &'static str = "UNIQ_KEY";

    pub const MAX_RECONSUME_TIMES: &'static str = "MAX_RECONSUME_TIMES";

    pub const TRANSACTION_PREPARED_QUEUE_OFFSET: &'static str = "TRAN_PREPARED_QUEUE_OFFSET";

    pub const TRANSACTION_CHECK_TIMES: &'static str = "TRANSACTION_CHECK_TIMES";

    pub const CHECK_IMMUNITY_TIME_IN_SECONDS: &'static str = "CHECK_IMMUNITY_TIME_IN_SECONDS";

    pub const KEY_SEPARATOR: &'static str = " ";

    pub const SHARDING_KEY: &'static str = "SHARDING_KEY";
}

/// Flags of a message as the broker stores it.
#[derive(Debug, Clone, Copy, PartialEq, Eq, Structural)]
pub enum MessageSysFlag {
    TransactionNotType,
    Compressed,
    MultiTags,
    TransactionPreparedType,
    TransactionCommitType,
    TransactionRollbackType,
}

impl MessageSysFlag {
    pub open spec fn spec_bits(self) -> i32 {
        match self {
            MessageSysFlag::TransactionNotType => 0,
            MessageSysFlag::Compressed => 0x1,
            MessageSysFlag::MultiTags => 0x2,
            MessageSysFlag::TransactionPreparedType => 0x4,
            MessageSysFlag::TransactionCommitType => 0x8,
            MessageSysFlag::TransactionRollbackType => 0x12,
        }
    }

    pub fn bits(&self) -> (r: i32)
        ensures
            r == self.spec_bits(),
    {
        match self {
            MessageSysFlag::TransactionNotType => 0,
            MessageSysFlag::Compressed => 0x1,
            MessageSysFlag::MultiTags => 0x2,
            MessageSysFlag::TransactionPreparedType => 0x4,
            MessageSysFlag::TransactionCommitType => 0x8,
            MessageSysFlag::TransactionRollbackType => 0x12,
        }
    }
}

/// A message to be sent. `properties` holds distinct keys.
#[derive(Debug, Clone)]
pub struct Message {
    pub topic: String,
    pub flag: i32,
    pub sys_flag: i32,
    pub properties: Fields,
    pub body: Vec<u8>,
    pub transaction_id: String,
    pub batch: bool,
    pub queue: Option<MessageQueue>,
}

pub open spec fn queue_opt_view(q: Option<MessageQueue>) -> Option<MessageQueueView> {
    match q {
        Some(q) => Some(q@),
        None => None,
    }
}

/// Two messages agree in everything but their properties.
pub open spec fn same_but_properties(a: Message, b: Message) -> bool {
    &&& a.topic == b.topic
    &&& a.flag == b.flag
    &&& a.sys_flag == b.sys_flag
    &&& a.body == b.body
    &&& a.transaction_id == b.transaction_id
    &&& a.batch == b.batch
    &&& a.queue == b.queue
}

impl Message {
    pub open spec fn wf(&self) -> bool {
        keys_distinct(fields_view(self.properties@))
    }

    pub open spec fn props(&self) -> Map<Seq<char>, Seq<char>> {
        fields_map(fields_view(self.properties@))
    }

    /// A message with tags, keys and the wait-for-store flag among its
    /// properties where they are given.
    pub fn new(
        topic: String,
        tags: String,
        keys: String,
        flag: i32,
        body: Vec<u8>,
        wait_store_msg_ok: bool,
    ) -> (r: Message)
        ensures
            r.wf(),
            r.topic@ == topic@,
            r.flag == flag,
            r.sys_flag == 0,
            r.body@ == body@,
            r.transaction_id@.len() == 0,
            !r.batch,
            r.queue.is_none(),
            r.props() == ({
                let m0 = Map::<Seq<char>, Seq<char>>::empty();
                let m1 = if tags@.len() > 0 {
                    m0.insert("TAGS"@, tags@)
                } else {
                    m0
                };
                let m2 = if keys@.len() > 0 {
                    m1.insert("KEYS"@, keys@)
                } else {
                    m1
                };
                if wait_store_msg_ok {
                    m2.insert("WAIT"@, "true"@)
                } else {
                    m2
                }
            }),
    {
        let mut props: Fields = Vec::new();
        assert(fields_map(fields_view(props@)) =~= Map::<Seq<char>, Seq<char>>::empty());
        if !tags.as_str().is_empty() {
            insert_field(&mut props, Property::TAGS.to_owned(), tags);
        }
        if !keys.as_str().is_empty() {
            insert_field(&mut props, Property::KEYS.to_owned(), keys);
        }
        if wait_store_msg_ok {
            insert_field(&mut props, Property::WAIT_STORE_MSG_OK.to_owned(), "true".to_owned());
        }
        Message {
            topic,
            flag,
            sys_flag: 0,
            properties: props,
            body,
            transaction_id: String::new(),
            batch: false,
            queue: None,
        }
    }

    /// The unique key, where it is set and non-empty.
    pub fn unique_key(&self) -> (r: Option<&str>)
        requires
            self.wf(),
        ensures
            r.is_some() == (self.props().contains_key("UNIQ_KEY"@) && self.props()["UNIQ_KEY"@].len()
                > 0),
            r.is_some() ==> r.unwrap()@ == self.props()["UNIQ_KEY"@],
    {
        match get_field(&self.properties, Property::UNIQ_CLIENT_MSG_ID_KEY) {
            Some(v) => if v.as_str().is_empty() {
                None
            } else {
                Some(v.as_str())
            },
            None => None,
        }
    }

    pub fn set_unique_key(&mut self, unique_key: String)
        requires
            old(self).wf(),
        ensures
            final(self).wf(),
            final(self).props() == old(self).props().insert("UNIQ_KEY"@, unique_key@),
            same_but_properties(*final(self), *old(self)),
    {
        insert_field(&mut self.properties, Property::UNIQ_CLIENT_MSG_ID_KEY.to_owned(), unique_key);
    }

    /// Sets the unique key to `default_key` unless one is set already.
    pub fn set_default_unique_key(&mut self, default_key: String)
        requires
            old(self).wf(),
        ensures
            final(self).wf(),
            same_but_properties(*final(self), *old(self)),
            old(self).props().contains_key("UNIQ_KEY"@) ==> final(self).properties == old(
                self,
            ).properties,
            !old(self).props().contains_key("UNIQ_KEY"@) ==> final(self).props() == old(
                self,
            ).props().insert("UNIQ_KEY"@, default_key@),
    {
        if get_field(&self.properties, Property::UNIQ_CLIENT_MSG_ID_KEY).is_none() {
            insert_field(&mut self.properties, Property::UNIQ_CLIENT_MSG_ID_KEY.to_owned(), default_key);
        }
    }

    pub fn get_property(&self, property: &str) -> (r: Option<&String>)
        requires
            self.wf(),
        ensures
            r.is_some() == self.props().contains_key(property@),
            r.is_some() ==> r.unwrap()@ == self.props()[property@],
    {
        get_field(&self.properties, property)
    }

    /// Sets a property; returns its previous value.
    pub fn set_property(&mut self, property: String, value: String) -> (r: Option<String>)
        requires
            old(self).wf(),
        ensures
            final(self).wf(),
            same_but_properties(*final(self), *old(self)),
            final(self).props() == old(self).props().insert(property@, value@),
            r.is_some() == old(self).props().contains_key(property@),
            r.is_some() ==> r.unwrap()@ == old(self).props()[property@],
    {
        insert_field(&mut self.properties, property, value)
    }

    /// The sharding key, where it is set and non-empty.
    pub fn sharding_key(&self) -> (r: Option<String>)
        requires
            self.wf(),
        ensures
            r.is_some() == (self.props().contains_key("SHARDING_KEY"@) && self.props()[
                "SHARDING_KEY"@
            ].len() > 0),
            r.is_some() ==> r.unwrap()@ == self.props()["SHARDING_KEY"@],
    {
        match get_field(&self.properties, Property::SHARDING_KEY) {
            Some(v) => if v.as_str().is_empty() {
                None
            } else {
                Some(v.clone())
            },
            None => None,
        }
    }

    pub fn topic(&self) -> (r: &str)
        ensures
            r@ == self.topic@,
    {
        self.topic.as_str()
    }

    /// The properties as text: each `key \u{1} value \u{2}`, in list order.
    pub fn dump_properties(&self) -> (r: String)
        ensures
            r@ == dump_text(fields_view(self.properties@)),
    {
        let ghost f = fields_view(self.properties@);
        let mut s = String::new();
        let mut i: usize = 0;
        proof {
            reveal_strlit("\u{1}");
            reveal_strlit("\u{2}");
        }
        while i < self.properties.len()
            invariant
                i <= self.properties@.len(),
                f == fields_view(self.properties@),
                s@ == dump_text(f.take(i as int)),
                "\u{1}"@ == seq!['\u{1}'],
                "\u{2}"@ == seq!['\u{2}'],
            decreases self.properties@.len() - i,
        {
            s.append(self.properties[i].0.as_str());
            s.append("\u{1}");
            s.append(self.properties[i].1.as_str());
            s.append("\u{2}");
            assert(f.take(i + 1).drop_last() =~= f.take(i as int));
            assert(s@ =~= dump_text(f.take(i + 1)));
            i = i + 1;
        }
        assert(f.take(i as int) =~= f);
        s
    }
}

/// The text of a property list.
pub open spec fn dump_text(f: Seq<(Seq<char>, Seq<char>)>) -> Seq<char>
    decreases f.len(),
{
    if f.len() == 0 {
        Seq::empty()
    } else {
        dump_text(f.drop_last()) + f.last().0 + seq!['\u{1}'] + f.last().1 + seq!['\u{2}']
    }
}

/// One `key \u{1} value` item: exactly one separator, both sides UTF-8.
pub open spec fn parse_item(item: Seq<u8>) -> Option<(Seq<char>, Seq<char>)> {
    let c = first_pos(item, 1u8);
    if c >= item.len() {
        None
    } else {
        let k = item.take(c as int);
        let v = item.skip(c as int + 1);
        if first_pos(v, 1u8) < v.len() || !valid_utf8(k) || !valid_utf8(v) {
            None
        } else {
            Some((decode_utf8(k), decode_utf8(v)))
        }
    }
}

/// The well-formed items of a property text, split at `\u{2}`, in order.
pub open spec fn parse_items(s: Seq<u8>) -> Seq<(Seq<char>, Seq<char>)>
    decreases s.len(),
{
    let k = first_pos(s, 2u8);
    let head = match parse_item(s.take(k as int)) {
        Some(e) => seq![e],
        None => Seq::empty(),
    };
    if k >= s.len() {
        head
    } else {
        head + parse_items(s.skip(k as int + 1))
    }
}

fn parse_one(b: &[u8], from: usize, to: usize) -> (r: Option<(String, String)>)
    requires
        from <= to <= b@.len(),
    ensures
        match parse_item(b@.subrange(from as int, to as int)) {
            Some(e) => r.is_some() && r.unwrap().0@ == e.0 && r.unwrap().1@ == e.1,
            None => r.is_none(),
        },
{
    let ghost item = b@.subrange(from as int, to as int);
    let c = crate::route::find_byte(b, from, to, 1u8);
    proof {
        crate::route::lemma_first_pos_bound(item, 1u8);
    }
    if c >= to {
        return None;
    }
    let ghost v = item.skip(c - from + 1);
    assert(v =~= b@.subrange(c + 1, to as int));
    let e = crate::route::find_byte(b, c + 1, to, 1u8);
    if e < to {
        return None;
    }
    let kb = copy_range(b, from, c);
    let vb = copy_range(b, c + 1, to);
    assert(kb@ =~= item.take(c - from));
    let k = match utf8_text(kb) {
        Some(k) => k,
        None => {
            return None;
        },
    };
    let v = match utf8_text(vb) {
        Some(v) => v,
        None => {
            return None;
        },
    };
    Some((k, v))
}

impl Message {
    /// The properties of a property text; later items win over earlier ones
    /// with the same key, malformed items are skipped.
    pub fn parse_properties(prop_str: &str) -> (r: Fields)
        ensures
            keys_distinct(fields_view(r@)),
            fields_view(r@) == insert_all(parse_items(text_bytes(prop_str@))),
    {
        let b = prop_str.as_bytes();
        let n = b.len();
        let ghost whole = b@;
        let ghost mut acc: Seq<(Seq<char>, Seq<char>)> = Seq::empty();
        let mut props: Fields = Vec::new();
        let mut p: usize = 0;
        assert(whole.skip(0) =~= whole);
        assert(acc + parse_items(whole) =~= parse_items(whole));
        assert(fields_view(props@) =~= insert_all(acc));
        loop
            invariant
                p <= n,
                n == b@.len(),
                whole == b@,
                whole == text_bytes(prop_str@),
                parse_items(whole) == acc + parse_items(whole.skip(p as int)),
                fields_view(props@) == insert_all(acc),
                keys_distinct(fields_view(props@)),
            decreases n - p,
        {
            let ghost tail = whole.skip(p as int);
            let k = crate::route::find_byte(b, p, n, 2u8);
            assert(tail =~= b@.subrange(p as int, n as int));
            assert(tail.take(k - p) =~= b@.subrange(p as int, k as int));
            assert(first_pos(tail, 2u8) == k - p);
            let item = parse_one(b, p, k);
            let ghost head: Seq<(Seq<char>, Seq<char>)> = match parse_item(tail.take(k - p)) {
                Some(e) => seq![e],
                None => Seq::empty(),
            };
            match item {
                Some((key, value)) => {
                    let ghost e = (key@, value@);
                    insert_field(&mut props, key, value);
                    proof {
                        assert(acc.push(e).drop_last() =~= acc);
                        assert(acc + head =~= acc.push(e));
                        acc = acc.push(e);
                    }
                },
                None => {
                    proof {
                        assert(acc + head =~= acc);
                    }
                },
            }
            if k >= n {
                proof {
                    assert(parse_items(tail) == head);
                }
                return props;
            }
            proof {
                assert(tail.skip(k - p + 1) =~= whole.skip(k + 1));
                assert(parse_items(tail) == head + parse_items(whole.skip(k + 1)));
            }
            p = k + 1;
        }
    }
}

/// A message in a batch body: total size, magic, body CRC (both zero here),
/// flag, body size, body, property size, property text.
pub open spec fn message_bytes(m: Message) -> Seq<u8> {
    let props = text_bytes(dump_text(fields_view(m.properties@)));
    be32((20 + m.body@.len() + props.len()) as u32) + be32(0) + be32(0) + be32(m.flag as u32) + be32(
        m.body@.len() as u32,
    ) + m.body@ + be16(props.len() as u16) + props
}

/// The lengths of a message fit its size fields.
pub open spec fn message_fits(m: Message) -> bool {
    let props = text_bytes(dump_text(fields_view(m.properties@)));
    22 + m.body@.len() + props.len() <= u32::MAX && props.len() <= u16::MAX
}

pub open spec fn batch_bytes(ms: Seq<Message>) -> Seq<u8>
    decreases ms.len(),
{
    if ms.len() == 0 {
        Seq::empty()
    } else {
        batch_bytes(ms.drop_last()) + message_bytes(ms.last())
    }
}

/// Copies of the fields of a message list.
fn copy_fields(f: &Fields) -> (r: Fields)
    ensures
        fields_view(r@) == fields_view(f@),
{
    let mut r: Fields = Vec::new();
    let mut i: usize = 0;
    while i < f.len()
        invariant
            i <= f@.len(),
            r@.len() == i,
            forall|j: int| 0 <= j < i ==> (#[trigger] r@[j]).0@ == f@[j].0@ && r@[j].1@ == f@[j].1@,
        decreases f@.len() - i,
    {
        r.push((f[i].0.clone(), f[i].1.clone()));
        i = i + 1;
    }
    assert(fields_view(r@) =~= fields_view(f@));
    r
}

impl Message {
    /// A copy with the same contents.
    pub fn duplicate(&self) -> (r: Message)
        ensures
            r.topic@ == self.topic@,
            r.flag == self.flag,
            r.sys_flag == self.sys_flag,
            fields_view(r.properties@) == fields_view(self.properties@),
            r.body@ == self.body@,
            r.transaction_id@ == self.transaction_id@,
            r.batch == self.batch,
            queue_opt_view(r.queue) == queue_opt_view(self.queue),
    {
        Message {
            topic: self.topic.clone(),
            flag: self.flag,
            sys_flag: self.sys_flag,
            properties: copy_fields(&self.properties),
            body: copy_range(self.body.as_slice(), 0, self.body.len()),
            transaction_id: self.transaction_id.clone(),
            batch: self.batch,
            queue: match &self.queue {
                Some(q) => Some(q.duplicate()),
                None => None,
            },
        }
    }

    /// Appends this message in batch form; `TooLarge` where a size does not
    /// fit its field.
    pub fn encode_into(&self, buf: &mut Vec<u8>) -> (r: Result<(), Error>)
        ensures
            r.is_ok() == message_fits(*self),
            r.is_ok() ==> final(buf)@ == old(buf)@ + message_bytes(*self),
            r.is_err() ==> final(buf)@ == old(buf)@ && r == Err::<(), Error>(Error::TooLarge),
    {
        let properties = self.dump_properties();
        let pb = properties.as_str().as_bytes();
        if pb.len() > 0xffff || self.body.len() > 0xffff_ffff || self.body.len() as u64 + pb.len() as u64 + 22 > 0xffff_ffff {
            return Err(Error::TooLarge);
        }
        let store_size = 20 + self.body.len() + pb.len();
        let ghost start = buf@;
        push_be32(buf, store_size as u32);
        push_be32(buf, 0);
        push_be32(buf, 0);
        push_be32(buf, self.flag as u32);
        push_be32(buf, self.body.len() as u32);
        push_all(buf, self.body.as_slice());
        push_be16(buf, pb.len() as u16);
        push_all(buf, pb);
        assert(buf@ =~= start + message_bytes(*self));
        Ok(())
    }

    /// One message standing for all of `msgs`: the message itself where
    /// there is one, else a batch message with the first message's topic and
    /// queue whose body holds all of them in batch form.
    pub fn encode_batch(msgs: &[Message]) -> (r: Result<Message, Error>)
        ensures
            msgs@.len() == 0 ==> r == Err::<Message, Error>(Error::EmptyBatchMessage),
            msgs@.len() == 1 ==> r.is_ok() && r.unwrap().topic@ == msgs@[0].topic@
                && r.unwrap().body@ == msgs@[0].body@ && r.unwrap().flag == msgs@[0].flag
                && r.unwrap().batch == msgs@[0].batch && fields_view(r.unwrap().properties@)
                == fields_view(msgs@[0].properties@) && r.unwrap().sys_flag == msgs@[0].sys_flag
                && r.unwrap().transaction_id@ == msgs@[0].transaction_id@ && queue_opt_view(
                r.unwrap().queue,
            ) == queue_opt_view(msgs@[0].queue),
            msgs@.len() > 1 ==> (r.is_ok() <==> forall|i: int| 0 <= i < msgs@.len() ==> message_fits(#[trigger] msgs@[i])),
            msgs@.len() > 1 && r.is_ok() ==> ({
                let m = r.unwrap();
                &&& m.topic@ == msgs@[0].topic@
                &&& queue_opt_view(m.queue) == queue_opt_view(msgs@[0].queue)
                &&& m.flag == 0 && m.sys_flag == 0
                &&& m.properties@.len() == 0
                &&& m.body@ == batch_bytes(msgs@)
                &&& m.transaction_id@.len() == 0
                &&& m.batch
            }),
            msgs@.len() > 1 && r.is_err() ==> r == Err::<Message, Error>(Error::TooLarge),
    {
        if msgs.len() == 0 {
            return Err(Error::EmptyBatchMessage);
        }
        if msgs.len() == 1 {
            return Ok(msgs[0].duplicate());
        }
        let mut body: Vec<u8> = Vec::new();
        let mut i: usize = 0;
        while i < msgs.len()
            invariant
                i <= msgs@.len(),
                msgs@.len() > 1,
                body@ == batch_bytes(msgs@.take(i as int)),
                forall|j: int| 0 <= j < i ==> message_fits(#[trigger] msgs@[j]),
            decreases msgs@.len() - i,
        {
            match msgs[i].encode_into(&mut body) {
                Ok(()) => {},
                Err(e) => {
                    return Err(e);
                },
            }
            assert(msgs@.take(i + 1).drop_last() =~= msgs@.take(i as int));
            i = i + 1;
        }
        assert(msgs@.take(i as int) =~= msgs@);
        let first = &msgs[0];
        Ok(
            Message {
                topic: first.topic.clone(),
                queue: match &first.queue {
                    Some(q) => Some(q.duplicate()),
                    None => None,
                },
                flag: 0,
                sys_flag: 0,
                properties: Vec::new(),
                body,
                transaction_id: String::new(),
                batch: true,
            },
        )
    }
}

} // verus!
