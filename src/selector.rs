//! Producer-side choice of one queue per outgoing message.
use crate::fields::{fields_map, fields_view, text_eq};
use crate::message::{queue_opt_view, queues_view, Message, MessageQueue, MessageQueueView};
use crate::protocol::text_bytes;
use std::hash::Hasher;
use vstd::prelude::*;

verus! {

/// Picks a queue for a message among the topic's queues.
pub trait QueueSelect {
    /// The selector's own state is well formed.
    spec fn inv(&self) -> bool;

    fn select(&mut self, msg: &Message, mqs: &[MessageQueue]) -> (r: Option<MessageQueue>)
        requires
            old(self).inv(),
            msg.wf(),
        ensures
            final(self).inv(),
    ;
}

/// The queue that the message names itself.
#[derive(Debug, Clone)]
pub struct ManualQueueSelector;

impl ManualQueueSelector {
    pub fn select_queue(&self, msg: &Message) -> (r: Option<MessageQueue>)
        ensures
            queue_opt_view(r) == queue_opt_view(msg.queue),
    {
        match &msg.queue {
            Some(q) => Some(q.duplicate()),
            None => None,
        }
    }
}

impl QueueSelect for ManualQueueSelector {
    open spec fn inv(&self) -> bool {
        true
    }

    fn select(&mut self, msg: &Message, _mqs: &[MessageQueue]) -> Option<MessageQueue> {
        self.select_queue(msg)
    }
}

/// Queue number `pick` modulo the queue count; `None` without queues.
pub fn queue_at(mqs: &[MessageQueue], pick: usize) -> (r: Option<MessageQueue>)
    ensures
        mqs@.len() == 0 ==> r.is_none(),
        mqs@.len() > 0 ==> r.is_some() && r.unwrap()@ == queues_view(mqs@)[pick as int
            % mqs@.len() as int],
{
    if mqs.len() == 0 {
        return None;
    }
    Some(mqs[pick % mqs.len()].duplicate())
}

/// A queue chosen at random.
#[derive(Debug, Clone)]
pub struct RandomQueueSelector;

impl RandomQueueSelector {
    pub fn select_queue(&self, mqs: &[MessageQueue]) -> (r: Option<MessageQueue>)
        ensures
            mqs@.len() == 0 ==> r.is_none(),
            mqs@.len() > 0 ==> r.is_some() && queues_view(mqs@).contains(r.unwrap()@),
    {
        let pick: usize = rand::random::<usize>();
        let r = queue_at(mqs, pick);
        proof {
            if mqs@.len() > 0 {
                assert(queues_view(mqs@)[pick as int % mqs@.len() as int] == r.unwrap()@);
            }
        }
        r
    }
}

impl QueueSelect for RandomQueueSelector {
    open spec fn inv(&self) -> bool {
        true
    }

    fn select(&mut self, _msg: &Message, mqs: &[MessageQueue]) -> Option<MessageQueue> {
        self.select_queue(mqs)
    }
}

pub open spec fn has_counter(s: Seq<(String, usize)>, t: Seq<char>) -> bool {
    exists|i: int| 0 <= i < s.len() && s[i].0@ == t
}

pub open spec fn counter_index(s: Seq<(String, usize)>, t: Seq<char>) -> int {
    choose|i: int| 0 <= i < s.len() && s[i].0@ == t
}

pub open spec fn counters_map(s: Seq<(String, usize)>) -> Map<Seq<char>, usize> {
    Map::new(|t: Seq<char>| has_counter(s, t), |t: Seq<char>| s[counter_index(s, t)].1)
}

/// The counter of a topic after one more message: 1 on the first, then one
/// more each time, wrapping.
pub open spec fn next_count(m: Map<Seq<char>, usize>, topic: Seq<char>) -> usize {
    if m.contains_key(topic) {
        if m[topic] == usize::MAX {
            0
        } else {
            (m[topic] + 1) as usize
        }
    } else {
        1
    }
}

fn find_counter(s: &Vec<(String, usize)>, t: &str) -> (r: Option<usize>)
    ensures
        match r {
            Some(i) => i < s@.len() && s@[i as int].0@ == t@,
            None => !has_counter(s@, t@),
        },
{
    let mut i: usize = 0;
    while i < s.len()
        invariant
            i <= s@.len(),
            forall|j: int| 0 <= j < i ==> s@[j].0@ != t@,
        decreases s@.len() - i,
    {
        if text_eq(s[i].0.as_str(), t) {
            return Some(i);
        }
        i = i + 1;
    }
    proof {
        if has_counter(s@, t@) {
            let j = counter_index(s@, t@);
            assert(s@[j].0@ != t@);
        }
    }
    None
}

/// Queues in turn, with one counter per topic.
#[derive(Debug, Clone)]
pub struct RoundRobinQueueSelector {
    indexer: Vec<(String, usize)>,
}

impl View for RoundRobinQueueSelector {
    type V = Map<Seq<char>, usize>;

    closed spec fn view(&self) -> Map<Seq<char>, usize> {
        counters_map(self.indexer@)
    }
}

impl RoundRobinQueueSelector {
    pub closed spec fn wf(&self) -> bool {
        forall|i: int, j: int|
            0 <= i < j < self.indexer@.len() ==> self.indexer@[i].0@ != self.indexer@[j].0@
    }

    pub fn new() -> (r: RoundRobinQueueSelector)
        ensures
            r.wf(),
            r@ == Map::<Seq<char>, usize>::empty(),
    {
        let r = RoundRobinQueueSelector { indexer: Vec::new() };
        assert(r@ =~= Map::<Seq<char>, usize>::empty());
        r
    }

    /// Advances the topic's counter and picks the queue at the counter
    /// modulo the queue count.
    pub fn select_queue(&mut self, msg: &Message, mqs: &[MessageQueue]) -> (r: Option<MessageQueue>)
        requires
            old(self).wf(),
        ensures
            final(self).wf(),
            final(self)@ == old(self)@.insert(msg.topic@, next_count(old(self)@, msg.topic@)),
            mqs@.len() == 0 ==> r.is_none(),
            mqs@.len() > 0 ==> r.is_some() && r.unwrap()@ == queues_view(mqs@)[next_count(
                old(self)@,
                msg.topic@,
            ) as int % mqs@.len() as int],
    {
        let ghost old_s = self.indexer@;
        let topic = msg.topic();
        let found = find_counter(&self.indexer, topic);
        let count: usize;
        let pos: usize;
        match found {
            Some(k) => {
                proof {
                    assert(has_counter(old_s, topic@));
                    assert(counter_index(old_s, topic@) == k);
                }
                let c = self.indexer[k].1;
                count = if c == usize::MAX { 0 } else { c + 1 };
                self.indexer.set(k, (topic.to_owned(), count));
                pos = k;
            },
            None => {
                count = 1;
                self.indexer.push((topic.to_owned(), count));
                pos = self.indexer.len() - 1;
            },
        }
        proof {
            let s = self.indexer@;
            assert(s[pos as int].0@ == topic@);
            assert(count == next_count(counters_map(old_s), topic@));
            assert forall|k: Seq<char>| has_counter(s, k) <==> (has_counter(old_s, k) || k == topic@) by {
                if has_counter(s, k) {
                    let j = counter_index(s, k);
                    if k != topic@ {
                        assert(old_s[j].0@ == k);
                    }
                }
                if has_counter(old_s, k) {
                    let j = counter_index(old_s, k);
                    if k != topic@ {
                        assert(s[j].0@ == k);
                    }
                }
            }
            assert forall|k: Seq<char>| has_counter(s, k) implies counters_map(s)[k] == (if k == topic@ {
                count
            } else {
                counters_map(old_s)[k]
            }) by {
                let j = counter_index(s, k);
                if k != topic@ {
                    assert(old_s[j].0@ == k);
                    let j0 = counter_index(old_s, k);
                }
            }
            assert(counters_map(s) =~= counters_map(old_s).insert(topic@, count));
        }
        queue_at(mqs, count)
    }
}

impl QueueSelect for RoundRobinQueueSelector {
    open spec fn inv(&self) -> bool {
        self.wf()
    }

    fn select(&mut self, msg: &Message, mqs: &[MessageQueue]) -> Option<MessageQueue> {
        self.select_queue(msg, mqs)
    }
}

/// The 64-bit FNV-1a hash of a byte string.
pub uninterp spec fn fnv1a_of(b: Seq<u8>) -> u64;

/// Relies on `fnv::FnvHasher`: after `write` of the bytes, `finish` gives
/// their FNV-1a hash, a function of the bytes alone.
#[verifier::external_body]
fn fnv_hash(b: &[u8]) -> (r: u64)
    ensures
        r == fnv1a_of(b@),
{
    let mut hasher = fnv::FnvHasher::default();
    hasher.write(b);
    hasher.finish()
}

/// By the hash of the message's sharding key; at random without one.
#[derive(Debug, Clone)]
pub struct HashQueueSelector {
    pub random: RandomQueueSelector,
}

impl HashQueueSelector {
    pub fn new() -> (r: HashQueueSelector) {
        HashQueueSelector { random: RandomQueueSelector }
    }

    pub fn select_queue(&self, msg: &Message, mqs: &[MessageQueue]) -> (r: Option<MessageQueue>)
        requires
            msg.wf(),
        ensures
            mqs@.len() == 0 ==> r.is_none(),
            mqs@.len() > 0 ==> r.is_some() && queues_view(mqs@).contains(r.unwrap()@),
            mqs@.len() > 0 && msg.props().contains_key("SHARDING_KEY"@) && msg.props()["SHARDING_KEY"@].len() > 0
                ==> r.unwrap()@ == queues_view(mqs@)[(fnv1a_of(text_bytes(msg.props()["SHARDING_KEY"@])) as usize) as int
                % mqs@.len() as int],
    {
        match msg.sharding_key() {
            Some(key) => {
                let h = fnv_hash(key.as_str().as_bytes());
                let r = queue_at(mqs, h as usize);
                proof {
                    if mqs@.len() > 0 {
                        assert(queues_view(mqs@)[(h as usize) as int % mqs@.len() as int] == r.unwrap()@);
                    }
                }
                r
            },
            None => self.random.select_queue(mqs),
        }
    }
}

impl QueueSelect for HashQueueSelector {
    open spec fn inv(&self) -> bool {
        true
    }

    fn select(&mut self, msg: &Message, mqs: &[MessageQueue]) -> Option<MessageQueue> {
        self.select_queue(msg, mqs)
    }
}

/// The producer-side strategies.
#[derive(Debug, Clone)]
pub enum QueueSelector {
    Manual(ManualQueueSelector),
    Random(RandomQueueSelector),
    RoundRobin(RoundRobinQueueSelector),
    Hash(HashQueueSelector),
}

impl QueueSelect for QueueSelector {
    open spec fn inv(&self) -> bool {
        match self {
            QueueSelector::RoundRobin(inner) => inner.wf(),
            _ => true,
        }
    }

    fn select(&mut self, msg: &Message, mqs: &[MessageQueue]) -> Option<MessageQueue> {
        match self {
            QueueSelector::Manual(inner) => inner.select(msg, mqs),
            QueueSelector::Random(inner) => inner.select(msg, mqs),
            QueueSelector::RoundRobin(inner) => inner.select(msg, mqs),
            QueueSelector::Hash(inner) => inner.select(msg, mqs),
        }
    }
}

impl QueueSelector {
    /// Round robin.
    pub fn round_robin() -> (r: QueueSelector)
        ensures
            r matches QueueSelector::RoundRobin(s) && s.wf() && s@ == Map::<Seq<char>, usize>::empty(),
    {
        QueueSelector::RoundRobin(RoundRobinQueueSelector::new())
    }
}

} // verus!
