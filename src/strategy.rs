//! Allocation of a topic's queues among the members of a consumer group.
//! Every strategy is a pure function of the group, the current member id,
//! all queues and all member ids.
use crate::fields::{bytes_eq, text_eq};
use crate::message::{queues_between, queues_view, MessageQueue, MessageQueueView};
use crate::protocol::text_bytes;
use crate::wire::push_all;
use consistent_hash_ring::RingBuilder;
use vstd::prelude::*;

verus! {

pub open spec fn ids_view(s: Seq<&str>) -> Seq<Seq<char>> {
    Seq::new(s.len(), |i: int| s[i]@)
}

/// `i` is the first position of `id` in `ids`.
pub open spec fn is_first_index(ids: Seq<Seq<char>>, id: Seq<char>, i: int) -> bool {
    &&& 0 <= i < ids.len()
    &&& ids[i] == id
    &&& forall|j: int| 0 <= j < i ==> ids[j] != id
}

pub open spec fn first_index(ids: Seq<Seq<char>>, id: Seq<char>) -> int {
    choose|i: int| is_first_index(ids, id, i)
}

/// Allocation takes place: the member id is non-empty, there are queues and
/// members, and the member is one of them. Otherwise the allocation is empty.
pub open spec fn allocation_applies(cid: Seq<char>, n_queues: nat, ids: Seq<Seq<char>>) -> bool {
    &&& cid.len() > 0
    &&& n_queues > 0
    &&& ids.len() > 0
    &&& ids.contains(cid)
}

/// First queue of member `idx` of `m` among `n` queues.
pub open spec fn averagely_start(n: int, m: int, idx: int) -> int {
    idx * (n / m) + if idx < n % m {
        idx
    } else {
        n % m
    }
}

/// Number of queues of member `idx` of `m` among `n` queues.
pub open spec fn averagely_count(n: int, m: int, idx: int) -> int {
    n / m + if idx < n % m {
        1int
    } else {
        0int
    }
}

/// Each member takes a contiguous run of `n / m` queues; the first `n % m`
/// members take one more.
pub open spec fn averagely(qs: Seq<MessageQueueView>, ids: Seq<Seq<char>>, cid: Seq<char>) -> Seq<
    MessageQueueView,
> {
    if !allocation_applies(cid, qs.len(), ids) {
        Seq::empty()
    } else {
        let idx = first_index(ids, cid);
        let start = averagely_start(qs.len() as int, ids.len() as int, idx);
        qs.subrange(start, start + averagely_count(qs.len() as int, ids.len() as int, idx))
    }
}

/// The queues at positions `p` with `p % m == idx`, in order.
pub open spec fn circle_pick(qs: Seq<MessageQueueView>, m: int, idx: int) -> Seq<MessageQueueView>
    decreases qs.len(),
{
    if qs.len() == 0 {
        Seq::empty()
    } else {
        circle_pick(qs.drop_last(), m, idx) + if (qs.len() - 1) % m == idx {
            seq![qs.last()]
        } else {
            Seq::empty()
        }
    }
}

pub open spec fn averagely_by_circle(
    qs: Seq<MessageQueueView>,
    ids: Seq<Seq<char>>,
    cid: Seq<char>,
) -> Seq<MessageQueueView> {
    if !allocation_applies(cid, qs.len(), ids) {
        Seq::empty()
    } else {
        circle_pick(qs, ids.len() as int, first_index(ids, cid))
    }
}

pub proof fn lemma_averagely_bounds(n: int, m: int, idx: int)
    requires
        0 <= idx < m,
        0 <= n,
    ensures
        0 <= averagely_start(n, m, idx),
        averagely_start(n, m, idx) + averagely_count(n, m, idx) <= n,
{
    let base = n / m;
    let rem = n % m;
    assert(n == m * base + rem && 0 <= rem < m && base >= 0) by (nonlinear_arith)
        requires
            base == n / m,
            rem == n % m,
            m > 0,
            n >= 0,
    ;
    assert(idx * base + base <= m * base && idx * base >= 0) by (nonlinear_arith)
        requires
            idx < m,
            0 <= idx,
            base >= 0,
    ;
}

/// The first position of `cid` in `cid_all`.
fn find_member(cid_all: &[&str], cid: &str) -> (r: Option<usize>)
    ensures
        match r {
            Some(i) => is_first_index(ids_view(cid_all@), cid@, i as int) && first_index(
                ids_view(cid_all@),
                cid@,
            ) == i,
            None => !ids_view(cid_all@).contains(cid@),
        },
{
    let ghost ids = ids_view(cid_all@);
    let mut i: usize = 0;
    while i < cid_all.len()
        invariant
            i <= cid_all@.len(),
            ids == ids_view(cid_all@),
            forall|j: int| 0 <= j < i ==> ids[j] != cid@,
        decreases cid_all@.len() - i,
    {
        if text_eq(cid_all[i], cid) {
            proof {
                assert(is_first_index(ids, cid@, i as int));
                let k = first_index(ids, cid@);
                assert(is_first_index(ids, cid@, k));
                if k < i {
                    assert(ids[k] != cid@);
                }
                if k > i {
                    assert(ids[i as int] != cid@);
                }
            }
            return Some(i);
        }
        i = i + 1;
    }
    proof {
        if ids.contains(cid@) {
            let j = choose|j: int| 0 <= j < ids.len() && ids[j] == cid@;
            assert(ids[j] != cid@);
        }
    }
    None
}

/// Member id, queues and member ids as the strategies check them.
fn member_index(current_cid: &str, mq_all: &[MessageQueue], cid_all: &[&str]) -> (r: Option<
    usize,
>)
    ensures
        r.is_some() == allocation_applies(current_cid@, mq_all@.len(), ids_view(cid_all@)),
        r.is_some() ==> r.unwrap() == first_index(ids_view(cid_all@), current_cid@)
            && is_first_index(ids_view(cid_all@), current_cid@, r.unwrap() as int),
{
    if current_cid.is_empty() || mq_all.len() == 0 || cid_all.len() == 0 {
        return None;
    }
    find_member(cid_all, current_cid)
}

#[derive(Debug, Clone)]
pub struct AllocateAveragely;

impl AllocateAveragely {
    pub fn allocate(
        &self,
        consumer_group: &str,
        current_cid: &str,
        mq_all: &[MessageQueue],
        cid_all: &[&str],
    ) -> (r: Vec<MessageQueue>)
        ensures
            queues_view(r@) == averagely(queues_view(mq_all@), ids_view(cid_all@), current_cid@),
    {
        let index = match member_index(current_cid, mq_all, cid_all) {
            Some(i) => i,
            None => {
                return Vec::new();
            },
        };
        let n = mq_all.len();
        let m = cid_all.len();
        proof {
            lemma_averagely_bounds(n as int, m as int, index as int);
        }
        let base = n / m;
        let rem = n % m;
        let start = index * base + if index < rem {
            index
        } else {
            rem
        };
        let count = base + if index < rem {
            1
        } else {
            0
        };
        queues_between(mq_all, start, start + count)
    }
}

#[derive(Debug, Clone)]
pub struct AllocateAveragelyByCircle;

impl AllocateAveragelyByCircle {
    pub fn allocate(
        &self,
        consumer_group: &str,
        current_cid: &str,
        mq_all: &[MessageQueue],
        cid_all: &[&str],
    ) -> (r: Vec<MessageQueue>)
        ensures
            queues_view(r@) == averagely_by_circle(
                queues_view(mq_all@),
                ids_view(cid_all@),
                current_cid@,
            ),
    {
        let index = match member_index(current_cid, mq_all, cid_all) {
            Some(i) => i,
            None => {
                return Vec::new();
            },
        };
        let m = cid_all.len();
        let ghost qs = queues_view(mq_all@);
        let mut r: Vec<MessageQueue> = Vec::new();
        let mut i: usize = 0;
        while i < mq_all.len()
            invariant
                i <= mq_all@.len(),
                m == cid_all@.len(),
                m > 0,
                qs == queues_view(mq_all@),
                queues_view(r@) == circle_pick(qs.take(i as int), m as int, index as int),
            decreases mq_all@.len() - i,
        {
            let ghost prev = r@;
            assert(qs.take(i + 1).drop_last() =~= qs.take(i as int));
            if i % m == index {
                let d = mq_all[i].duplicate();
                r.push(d);
                assert(queues_view(r@) =~= queues_view(prev) + seq![d@]);
            }
            i = i + 1;
        }
        assert(qs.take(i as int) =~= qs);
        r
    }
}

/// The fixed list `cfg` where allocation applies, else nothing.
pub open spec fn by_config(
    cfg: Seq<MessageQueueView>,
    qs: Seq<MessageQueueView>,
    ids: Seq<Seq<char>>,
    cid: Seq<char>,
) -> Seq<MessageQueueView> {
    if !allocation_applies(cid, qs.len(), ids) {
        Seq::empty()
    } else {
        cfg
    }
}

/// A fixed list of queues for every member.
#[derive(Debug, Clone)]
pub struct AllocateByConfig(pub Vec<MessageQueue>);

impl AllocateByConfig {
    pub fn new(mqs: Vec<MessageQueue>) -> (r: Self)
        ensures
            queues_view(r.0@) == queues_view(mqs@),
    {
        Self(mqs)
    }

    /// The configured list where allocation applies, else nothing.
    pub fn allocate(
        &self,
        _consumer_group: &str,
        current_cid: &str,
        mq_all: &[MessageQueue],
        cid_all: &[&str],
    ) -> (r: Vec<MessageQueue>)
        ensures
            queues_view(r@) == by_config(queues_view(self.0@), queues_view(mq_all@), ids_view(cid_all@), current_cid@),
    {
        if member_index(current_cid, mq_all, cid_all).is_none() {
            let r: Vec<MessageQueue> = Vec::new();
            assert(queues_view(r@) =~= Seq::<MessageQueueView>::empty());
            return r;
        }
        crate::message::duplicate_queues(self.0.as_slice())
    }
}

pub open spec fn no_at(b: Seq<u8>) -> bool {
    forall|i: int| 0 <= i < b.len() ==> b[i] != 0x40u8
}

/// The broker name is `idc@broker`, with no other `@` in it.
pub open spec fn room_of(name: Seq<u8>, idc: Seq<u8>) -> bool {
    &&& name.len() > idc.len()
    &&& name.take(idc.len() as int) == idc
    &&& name[idc.len() as int] == 0x40u8
    &&& no_at(idc)
    &&& no_at(name.skip(idc.len() as int + 1))
}

pub open spec fn in_rooms(name: Seq<u8>, idcs: Seq<Seq<u8>>) -> bool {
    exists|j: int| 0 <= j < idcs.len() && room_of(name, idcs[j])
}

pub open spec fn idcs_view(v: Seq<String>) -> Seq<Seq<u8>> {
    Seq::new(v.len(), |i: int| text_bytes(v[i]@))
}

/// The queues whose broker is in one of the rooms, in order.
pub open spec fn room_filter(qs: Seq<MessageQueueView>, idcs: Seq<Seq<u8>>) -> Seq<
    MessageQueueView,
>
    decreases qs.len(),
{
    if qs.len() == 0 {
        Seq::empty()
    } else {
        room_filter(qs.drop_last(), idcs) + if in_rooms(text_bytes(qs.last().broker_name), idcs) {
            seq![qs.last()]
        } else {
            Seq::empty()
        }
    }
}

/// The queues of the allowed rooms, `p / m` to each member, and one more of
/// the remaining `p % m` to each of the first members.
pub open spec fn machine_room(
    qs: Seq<MessageQueueView>,
    ids: Seq<Seq<char>>,
    cid: Seq<char>,
    idcs: Seq<Seq<u8>>,
) -> Seq<MessageQueueView> {
    if !allocation_applies(cid, qs.len(), ids) {
        Seq::empty()
    } else {
        let p = room_filter(qs, idcs);
        let m = ids.len() as int;
        let idx = first_index(ids, cid);
        let base = p.len() as int / m;
        p.subrange(idx * base, idx * base + base) + if idx < p.len() as int % m {
            seq![p[idx + base * m]]
        } else {
            Seq::empty()
        }
    }
}

fn has_no_at(b: &[u8], from: usize) -> (r: bool)
    requires
        from <= b@.len(),
    ensures
        r == no_at(b@.skip(from as int)),
{
    let mut i: usize = from;
    while i < b.len()
        invariant
            from <= i <= b@.len(),
            forall|j: int| from <= j < i ==> b@[j] != 0x40u8,
        decreases b@.len() - i,
    {
        if b[i] == 0x40u8 {
            assert(b@.skip(from as int)[i - from] == 0x40u8);
            return false;
        }
        i = i + 1;
    }
    assert forall|j: int| 0 <= j < b@.skip(from as int).len() implies b@.skip(from as int)[j]
        != 0x40u8 by {
        assert(b@.skip(from as int)[j] == b@[from + j]);
    }
    true
}

fn in_room(name: &str, idc: &str) -> (r: bool)
    ensures
        r == room_of(text_bytes(name@), text_bytes(idc@)),
{
    let nb = name.as_bytes();
    let ib = idc.as_bytes();
    if nb.len() <= ib.len() {
        return false;
    }
    let prefix = crate::wire::copy_range(nb, 0, ib.len());
    assert(prefix@ =~= nb@.take(ib@.len() as int));
    if !bytes_eq(prefix.as_slice(), ib) {
        return false;
    }
    if nb[ib.len()] != 0x40u8 {
        return false;
    }
    assert(ib@.skip(0) =~= ib@);
    has_no_at(ib, 0) && has_no_at(nb, ib.len() + 1)
}

fn in_any_room(name: &str, idcs: &Vec<String>) -> (r: bool)
    ensures
        r == in_rooms(text_bytes(name@), idcs_view(idcs@)),
{
    let mut j: usize = 0;
    while j < idcs.len()
        invariant
            j <= idcs@.len(),
            forall|k: int| 0 <= k < j ==> !room_of(text_bytes(name@), idcs_view(idcs@)[k]),
        decreases idcs@.len() - j,
    {
        if in_room(name, idcs[j].as_str()) {
            assert(room_of(text_bytes(name@), idcs_view(idcs@)[j as int]));
            return true;
        }
        j = j + 1;
    }
    false
}

/// Queues of brokers named `idc@broker` whose `idc` is one of the consumer's
/// machine rooms, split evenly among the members.
#[derive(Debug, Clone)]
pub struct AllocateByMachineRoom {
    pub consumer_idcs: Vec<String>,
}

impl AllocateByMachineRoom {
    pub fn new(consumer_idcs: Vec<String>) -> (r: Self)
        ensures
            r.consumer_idcs@ == consumer_idcs@,
    {
        Self { consumer_idcs }
    }

    pub fn allocate(
        &self,
        consumer_group: &str,
        current_cid: &str,
        mq_all: &[MessageQueue],
        cid_all: &[&str],
    ) -> (r: Vec<MessageQueue>)
        ensures
            queues_view(r@) == machine_room(
                queues_view(mq_all@),
                ids_view(cid_all@),
                current_cid@,
                idcs_view(self.consumer_idcs@),
            ),
    {
        let index = match member_index(current_cid, mq_all, cid_all) {
            Some(i) => i,
            None => {
                return Vec::new();
            },
        };
        let ghost qs = queues_view(mq_all@);
        let ghost idcs = idcs_view(self.consumer_idcs@);
        let mut pre: Vec<MessageQueue> = Vec::new();
        let mut i: usize = 0;
        while i < mq_all.len()
            invariant
                i <= mq_all@.len(),
                qs == queues_view(mq_all@),
                idcs == idcs_view(self.consumer_idcs@),
                queues_view(pre@) == room_filter(qs.take(i as int), idcs),
            decreases mq_all@.len() - i,
        {
            let ghost prev = pre@;
            assert(qs.take(i + 1).drop_last() =~= qs.take(i as int));
            if in_any_room(mq_all[i].broker_name.as_str(), &self.consumer_idcs) {
                let d = mq_all[i].duplicate();
                pre.push(d);
                assert(queues_view(pre@) =~= queues_view(prev) + seq![d@]);
            } else {
                assert(room_filter(qs.take(i + 1), idcs) =~= room_filter(qs.take(i as int), idcs));
            }
            i = i + 1;
        }
        assert(qs.take(i as int) =~= qs);
        let m = cid_all.len();
        let p = pre.len();
        let base = p / m;
        let rem = p % m;
        proof {
            assert(p == m * base + rem && 0 <= rem < m) by (nonlinear_arith)
                requires
                    base == p / m,
                    rem == p % m,
                    m > 0,
            ;
            assert(index * base + base <= m * base) by (nonlinear_arith)
                requires
                    index < m,
                    base >= 0,
            ;
        }
        let mut r = queues_between(pre.as_slice(), index * base, index * base + base);
        if index < rem {
            assert(index + base * m < p) by (nonlinear_arith)
                requires
                    p == m * base + rem,
                    index < rem,
            ;
            let ghost before = r@;
            let d = pre[index + base * m].duplicate();
            r.push(d);
            assert(queues_view(r@) =~= queues_view(before) + seq![d@]);
        }
        r
    }
}

/// The member that a consistent-hash ring over `ids`, taken in in that
/// order with `vnodes` virtual nodes each, assigns to `key`, if any.
pub uninterp spec fn ring_owner_of(ids: Seq<Seq<char>>, vnodes: nat, key: Seq<u8>) -> Option<
    Seq<char>,
>;

pub open spec fn strings_view(v: Seq<String>) -> Seq<Seq<char>> {
    Seq::new(v.len(), |i: int| v[i]@)
}

pub open spec fn opt_text(o: Option<String>) -> Option<Seq<char>> {
    match o {
        Some(s) => Some(s@),
        None => None,
    }
}

/// Relies on `RingBuilder::vnodes`, `RingBuilder::nodes`, `RingBuilder::build`
/// and `Ring::try_get`: the ring is built from the nodes in order with a fixed
/// FNV hasher, so each lookup is a function of the nodes, the vnode count and
/// the key, and what it returns is one of the nodes.
#[verifier::external_body]
fn ring_owners(ids: &[String], vnodes: usize, keys: &Vec<Vec<u8>>) -> (r: Vec<Option<String>>)
    ensures
        r@.len() == keys@.len(),
        forall|i: int|
            0 <= i < r@.len() ==> opt_text(#[trigger] r@[i]) == ring_owner_of(
                strings_view(ids@),
                vnodes as nat,
                keys@[i]@,
            ),
        forall|i: int|
            0 <= i < r@.len() && (#[trigger] r@[i]).is_some() ==> strings_view(ids@).contains(
                r@[i].unwrap()@,
            ),
{
    let ring = RingBuilder::default().vnodes(vnodes).nodes(ids).build();
    keys.iter().map(|k| ring.try_get(k.as_slice()).cloned()).collect()
}

/// Decimal digits of `n`, in ASCII.
pub open spec fn decimal(n: nat) -> Seq<u8>
    decreases n,
{
    if n < 10 {
        seq![(48 + n) as u8]
    } else {
        decimal(n / 10).push((48 + n % 10) as u8)
    }
}

pub fn push_decimal(out: &mut Vec<u8>, n: u64)
    ensures
        final(out)@ == old(out)@ + decimal(n as nat),
    decreases n,
{
    if n >= 10 {
        push_decimal(out, n / 10);
    }
    out.push((48 + n % 10) as u8);
    assert(final(out)@ =~= old(out)@ + decimal(n as nat));
}

/// The key of a queue on the ring: topic, broker and queue id, joined by `@`.
pub open spec fn queue_key(q: MessageQueueView) -> Seq<u8> {
    text_bytes(q.topic) + seq![0x40u8] + text_bytes(q.broker_name) + seq![0x40u8] + decimal(
        q.queue_id as nat,
    )
}

fn queue_key_of(q: &MessageQueue) -> (r: Vec<u8>)
    ensures
        r@ == queue_key(q@),
{
    let mut out: Vec<u8> = Vec::new();
    push_all(&mut out, q.topic.as_str().as_bytes());
    out.push(0x40u8);
    push_all(&mut out, q.broker_name.as_str().as_bytes());
    out.push(0x40u8);
    push_decimal(&mut out, q.queue_id as u64);
    assert(out@ =~= queue_key(q@));
    out
}

/// The queues that the ring over `ids` assigns to `cid`, in order.
pub open spec fn owned_by(
    ids: Seq<Seq<char>>,
    vnodes: nat,
    qs: Seq<MessageQueueView>,
    cid: Seq<char>,
) -> Seq<MessageQueueView>
    decreases qs.len(),
{
    if qs.len() == 0 {
        Seq::empty()
    } else {
        owned_by(ids, vnodes, qs.drop_last(), cid) + if ring_owner_of(
            ids,
            vnodes,
            queue_key(qs.last()),
        ) == Some(cid) {
            seq![qs.last()]
        } else {
            Seq::empty()
        }
    }
}

/// Consistent-hash allocation: nothing where allocation does not apply, else
/// the queues that a ring over all member ids, in their order, with the
/// configured number of virtual nodes, assigns to the member.
pub open spec fn consistent_hash(
    vnodes: nat,
    qs: Seq<MessageQueueView>,
    ids: Seq<Seq<char>>,
    cid: Seq<char>,
) -> Seq<MessageQueueView> {
    if !allocation_applies(cid, qs.len(), ids) {
        Seq::empty()
    } else {
        owned_by(ids, vnodes, qs, cid)
    }
}

/// A queue is in a member's share exactly when it is one of the queues and
/// the ring assigns its key to that member.
pub proof fn lemma_owned_by_exact(
    ids: Seq<Seq<char>>,
    vnodes: nat,
    qs: Seq<MessageQueueView>,
    cid: Seq<char>,
    x: MessageQueueView,
)
    ensures
        owned_by(ids, vnodes, qs, cid).contains(x) <==> (qs.contains(x) && ring_owner_of(
            ids,
            vnodes,
            queue_key(x),
        ) == Some(cid)),
    decreases qs.len(),
{
    if qs.len() > 0 {
        let init = qs.drop_last();
        lemma_owned_by_exact(ids, vnodes, init, cid, x);
        let prev = owned_by(ids, vnodes, init, cid);
        let tail: Seq<MessageQueueView> = if ring_owner_of(ids, vnodes, queue_key(qs.last())) == Some(
            cid,
        ) {
            seq![qs.last()]
        } else {
            Seq::empty()
        };
        let all = prev + tail;
        assert(qs =~= init.push(qs.last()));
        if all.contains(x) {
            let j = choose|j: int| 0 <= j < all.len() && all[j] == x;
            if j < prev.len() {
                assert(prev[j] == x);
                assert(prev.contains(x));
                let k = choose|k: int| 0 <= k < init.len() && init[k] == x;
                assert(qs[k] == x);
            } else {
                assert(qs[qs.len() - 1] == x);
            }
        }
        if qs.contains(x) && ring_owner_of(ids, vnodes, queue_key(x)) == Some(cid) {
            let k = choose|k: int| 0 <= k < qs.len() && qs[k] == x;
            if k < init.len() {
                assert(init[k] == x);
                assert(init.contains(x));
                let j = choose|j: int| 0 <= j < prev.len() && prev[j] == x;
                assert(all[j] == x);
            } else {
                assert(all[prev.len() as int] == x);
            }
        }
    }
}

/// The consistent-hash shares of two different members share no queue, and
/// a queue that the ring assigns to a member is in that member's share:
/// every queue goes to at most one member, and to the one the ring names.
pub proof fn lemma_consistent_hash_partition(
    vnodes: nat,
    qs: Seq<MessageQueueView>,
    ids: Seq<Seq<char>>,
    c1: Seq<char>,
    c2: Seq<char>,
    x: MessageQueueView,
)
    requires
        c1 != c2,
    ensures
        !(consistent_hash(vnodes, qs, ids, c1).contains(x) && consistent_hash(
            vnodes,
            qs,
            ids,
            c2,
        ).contains(x)),
        allocation_applies(c1, qs.len(), ids) && qs.contains(x) && ring_owner_of(
            ids,
            vnodes,
            queue_key(x),
        ) == Some(c1) ==> consistent_hash(vnodes, qs, ids, c1).contains(x),
{
    lemma_owned_by_exact(ids, vnodes, qs, c1, x);
    lemma_owned_by_exact(ids, vnodes, qs, c2, x);
}

/// Each member owns the queues whose key a hash ring over all members, with
/// the configured number of virtual nodes per member, assigns to it.
#[derive(Debug, Clone)]
pub struct AllocateConsistentHash {
    pub virtual_node_count: usize,
}

impl AllocateConsistentHash {
    pub fn new(virtual_node_count: usize) -> (r: Self)
        ensures
            r.virtual_node_count == virtual_node_count,
    {
        Self { virtual_node_count }
    }

    pub fn allocate(
        &self,
        consumer_group: &str,
        current_cid: &str,
        mq_all: &[MessageQueue],
        cid_all: &[&str],
    ) -> (r: Vec<MessageQueue>)
        ensures
            queues_view(r@) == consistent_hash(
                self.virtual_node_count as nat,
                queues_view(mq_all@),
                ids_view(cid_all@),
                current_cid@,
            ),
    {
        if member_index(current_cid, mq_all, cid_all).is_none() {
            let r: Vec<MessageQueue> = Vec::new();
            assert(queues_view(r@) =~= Seq::<MessageQueueView>::empty());
            return r;
        }
        let ghost ids = ids_view(cid_all@);
        let mut names: Vec<String> = Vec::new();
        let mut k: usize = 0;
        while k < cid_all.len()
            invariant
                k <= cid_all@.len(),
                ids == ids_view(cid_all@),
                names@.len() == k,
                strings_view(names@) == ids.take(k as int),
            decreases cid_all@.len() - k,
        {
            let ghost prev = names@;
            let name = cid_all[k].to_owned();
            names.push(name);
            assert(names@ == prev.push(name));
            assert(forall|t: int| 0 <= t < k ==> prev[t]@ == #[trigger] strings_view(prev)[t]);
            assert(strings_view(names@) =~= ids.take(k + 1));
            k = k + 1;
        }
        assert(ids.take(k as int) =~= ids);
        let mut keys: Vec<Vec<u8>> = Vec::new();
        let mut j: usize = 0;
        while j < mq_all.len()
            invariant
                j <= mq_all@.len(),
                keys@.len() == j,
                forall|t: int| 0 <= t < j ==> (#[trigger] keys@[t])@ == queue_key(mq_all@[t]@),
            decreases mq_all@.len() - j,
        {
            keys.push(queue_key_of(&mq_all[j]));
            j = j + 1;
        }
        let owners = ring_owners(names.as_slice(), self.virtual_node_count, &keys);
        let ghost qs = queues_view(mq_all@);
        let ghost v = self.virtual_node_count as nat;
        let mut r: Vec<MessageQueue> = Vec::new();
        let mut i: usize = 0;
        while i < mq_all.len()
            invariant
                i <= mq_all@.len(),
                qs == queues_view(mq_all@),
                owners@.len() == mq_all@.len(),
                keys@.len() == mq_all@.len(),
                forall|t: int| 0 <= t < keys@.len() ==> (#[trigger] keys@[t])@ == queue_key(mq_all@[t]@),
                forall|t: int|
                    0 <= t < owners@.len() ==> opt_text(#[trigger] owners@[t]) == ring_owner_of(
                        ids,
                        v,
                        keys@[t]@,
                    ),
                queues_view(r@) == owned_by(ids, v, qs.take(i as int), current_cid@),
            decreases mq_all@.len() - i,
        {
            let ghost prev = r@;
            assert(qs.take(i + 1).drop_last() =~= qs.take(i as int));
            assert(qs.take(i + 1).last() == mq_all@[i as int]@);
            assert(opt_text(owners@[i as int]) == ring_owner_of(ids, v, queue_key(mq_all@[i as int]@)));
            let mine = match &owners[i] {
                Some(owner) => text_eq(owner.as_str(), current_cid),
                None => false,
            };
            if mine {
                let d = mq_all[i].duplicate();
                r.push(d);
                assert(queues_view(r@) =~= queues_view(prev) + seq![d@]);
            } else {
                assert(owned_by(ids, v, qs.take(i + 1), current_cid@) =~= owned_by(
                    ids,
                    v,
                    qs.take(i as int),
                    current_cid@,
                ));
            }
            i = i + 1;
        }
        assert(qs.take(i as int) =~= qs);
        r
    }
}

/// The allocation strategies of a consumer group.
#[derive(Debug, Clone)]
pub enum AllocateStrategy {
    Averagely(AllocateAveragely),
    AveragelyByCircle(AllocateAveragelyByCircle),
    Config(AllocateByConfig),
    MachineRoom(AllocateByMachineRoom),
    ConsistentHash(AllocateConsistentHash),
}

/// What strategy `s` may return for the given queues, members and member id.
pub open spec fn allocation_result(
    s: AllocateStrategy,
    qs: Seq<MessageQueueView>,
    ids: Seq<Seq<char>>,
    cid: Seq<char>,
    r: Seq<MessageQueueView>,
) -> bool {
    match s {
        AllocateStrategy::Averagely(_) => r == averagely(qs, ids, cid),
        AllocateStrategy::AveragelyByCircle(_) => r == averagely_by_circle(qs, ids, cid),
        AllocateStrategy::Config(c) => r == by_config(queues_view(c.0@), qs, ids, cid),
        AllocateStrategy::MachineRoom(m) => r == machine_room(
            qs,
            ids,
            cid,
            idcs_view(m.consumer_idcs@),
        ),
        AllocateStrategy::ConsistentHash(c) => r == consistent_hash(
            c.virtual_node_count as nat,
            qs,
            ids,
            cid,
        ),
    }
}

impl AllocateStrategy {
    pub fn allocate(
        &self,
        consumer_group: &str,
        current_cid: &str,
        mq_all: &[MessageQueue],
        cid_all: &[&str],
    ) -> (r: Vec<MessageQueue>)
        ensures
            allocation_result(
                *self,
                queues_view(mq_all@),
                ids_view(cid_all@),
                current_cid@,
                queues_view(r@),
            ),
    {
        match self {
            AllocateStrategy::Averagely(s) => s.allocate(
                consumer_group,
                current_cid,
                mq_all,
                cid_all,
            ),
            AllocateStrategy::AveragelyByCircle(s) => s.allocate(
                consumer_group,
                current_cid,
                mq_all,
                cid_all,
            ),
            AllocateStrategy::Config(s) => s.allocate(consumer_group, current_cid, mq_all, cid_all),
            AllocateStrategy::MachineRoom(s) => s.allocate(
                consumer_group,
                current_cid,
                mq_all,
                cid_all,
            ),
            AllocateStrategy::ConsistentHash(s) => s.allocate(
                consumer_group,
                current_cid,
                mq_all,
                cid_all,
            ),
        }
    }
}

/// Defensive contract: with an empty member id, no queues, no members, or a
/// member id that is not among the members, every strategy allocates
/// nothing.
pub proof fn lemma_allocation_defensive(
    s: AllocateStrategy,
    qs: Seq<MessageQueueView>,
    ids: Seq<Seq<char>>,
    cid: Seq<char>,
    r: Seq<MessageQueueView>,
)
    requires
        !allocation_applies(cid, qs.len(), ids),
        allocation_result(s, qs, ids, cid, r),
    ensures
        r == Seq::<MessageQueueView>::empty(),
{
}

/// The averagely shares tile the queue list: the first member starts at the
/// first queue, each member starts where the one before it ends, and the
/// last member ends at the last queue, so shares neither overlap nor leave
/// gaps.
pub proof fn lemma_averagely_tiles(n: int, m: int, idx: int)
    requires
        0 <= n,
        0 <= idx < m,
    ensures
        averagely_start(n, m, 0) == 0,
        idx + 1 < m ==> averagely_start(n, m, idx + 1) == averagely_start(n, m, idx)
            + averagely_count(n, m, idx),
        averagely_start(n, m, m - 1) + averagely_count(n, m, m - 1) == n,
{
    let base = n / m;
    let rem = n % m;
    assert(n == m * base + rem && 0 <= rem < m && base >= 0) by (nonlinear_arith)
        requires
            base == n / m,
            rem == n % m,
            m > 0,
            n >= 0,
    ;
    assert((idx + 1) * base == idx * base + base) by (nonlinear_arith);
    assert((m - 1) * base + base == m * base) by (nonlinear_arith);
    assert(0 * base == 0) by (nonlinear_arith);
}

/// When the members divide the queues evenly, member `idx` of `m` takes the
/// `n / m` queues starting at `idx * (n / m)`.
pub proof fn lemma_averagely_even_share(
    qs: Seq<MessageQueueView>,
    ids: Seq<Seq<char>>,
    cid: Seq<char>,
)
    requires
        allocation_applies(cid, qs.len(), ids),
        qs.len() % ids.len() == 0,
    ensures
        ({
            let k = qs.len() / ids.len();
            let idx = first_index(ids, cid);
            averagely(qs, ids, cid) == qs.subrange(idx * k, idx * k + k)
        }),
{
    let j = choose|j: int| 0 <= j < ids.len() && ids[j] == cid;
    lemma_first_index_exists(ids, cid, j);
}

/// A member present in the list has a first position.
pub proof fn lemma_first_index_exists(ids: Seq<Seq<char>>, id: Seq<char>, j: int)
    requires
        0 <= j < ids.len(),
        ids[j] == id,
    ensures
        is_first_index(ids, id, first_index(ids, id)),
    decreases j,
{
    if exists|i: int| 0 <= i < j && ids[i] == id {
        let i = choose|i: int| 0 <= i < j && ids[i] == id;
        lemma_first_index_exists(ids, id, i);
    } else {
        assert(is_first_index(ids, id, j));
    }
}

} // verus!
