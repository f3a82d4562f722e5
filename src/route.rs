//! Route data of a topic: which brokers host its queues, with what
//! permissions, and where the brokers can be reached.
use crate::fields::text_eq;
use crate::message::{queues_view, MessageQueue, MessageQueueView};
use crate::protocol::utf8_text;
use crate::wire::copy_range;
use vstd::multiset::group_multiset_properties;
use vstd::prelude::*;
use vstd::seq_lib::group_to_multiset_ensures;
use vstd::utf8::{decode_utf8, valid_utf8};

verus! {

broadcast use {group_to_multiset_ensures, group_multiset_properties};

/// Role id of a broker's master.
pub const MASTER_ID: i64 = 0;

/// Permission bits of a topic's queues on one broker.
#[derive(Debug, Clone, Copy, PartialEq, Eq, Structural)]
pub struct Permission {
    pub bits: i32,
}

impl Permission {
    pub const PRIORITY: i32 = 0x8;

    pub const READ: i32 = 0x4;

    pub const WRITE: i32 = 0x2;

    pub const INHERIT: i32 = 0x1;

    pub open spec fn readable(self) -> bool {
        self.bits & 4i32 == 4i32
    }

    pub open spec fn writeable(self) -> bool {
        self.bits & 2i32 == 2i32
    }

    pub open spec fn inherited(self) -> bool {
        self.bits & 1i32 == 1i32
    }

    pub fn from_bits(bits: i32) -> (r: Permission)
        ensures
            r.bits == bits,
    {
        Permission { bits }
    }

    pub fn is_readable(&self) -> (r: bool)
        ensures
            r == self.readable(),
    {
        self.bits & Self::READ == Self::READ
    }

    pub fn is_writeable(&self) -> (r: bool)
        ensures
            r == self.writeable(),
    {
        self.bits & Self::WRITE == Self::WRITE
    }

    pub fn is_inherited(&self) -> (r: bool)
        ensures
            r == self.inherited(),
    {
        self.bits & Self::INHERIT == Self::INHERIT
    }

    /// `R`, `W` and `X` for read, write and inherit, `-` where a bit is clear.
    pub fn flags_text(&self) -> (r: &'static str) {
        match (self.is_readable(), self.is_writeable(), self.is_inherited()) {
            (true, true, true) => "RWX",
            (true, true, false) => "RW-",
            (true, false, true) => "R-X",
            (true, false, false) => "R--",
            (false, true, true) => "-WX",
            (false, true, false) => "-W-",
            (false, false, true) => "--X",
            (false, false, false) => "---",
        }
    }
}

/// Queue configuration of a topic on one broker.
#[derive(Debug, Clone, PartialEq)]
pub struct QueueData {
    pub broker_name: String,
    pub read_queue_nums: i32,
    pub write_queue_nums: i32,
    pub perm: Permission,
    pub topic_sync_flag: i32,
}

pub struct QueueDataView {
    pub broker_name: Seq<char>,
    pub read_queue_nums: i32,
    pub write_queue_nums: i32,
    pub perm: i32,
    pub topic_sync_flag: i32,
}

impl View for QueueData {
    type V = QueueDataView;

    open spec fn view(&self) -> QueueDataView {
        QueueDataView {
            broker_name: self.broker_name@,
            read_queue_nums: self.read_queue_nums,
            write_queue_nums: self.write_queue_nums,
            perm: self.perm.bits,
            topic_sync_flag: self.topic_sync_flag,
        }
    }
}

impl QueueData {
    pub fn same_as(&self, other: &QueueData) -> (r: bool)
        ensures
            r == (self@ == other@),
    {
        self.broker_name == other.broker_name && self.read_queue_nums == other.read_queue_nums
            && self.write_queue_nums == other.write_queue_nums && self.perm.bits == other.perm.bits
            && self.topic_sync_flag == other.topic_sync_flag
    }
}

pub type BrokerAddrs = Vec<(i64, String)>;

pub open spec fn addr_ids_distinct(s: Seq<(i64, String)>) -> bool {
    forall|i: int, j: int| 0 <= i < j < s.len() ==> s[i].0 != s[j].0
}

pub open spec fn has_role(s: Seq<(i64, String)>, id: i64) -> bool {
    exists|i: int| 0 <= i < s.len() && s[i].0 == id
}

pub open spec fn role_index(s: Seq<(i64, String)>, id: i64) -> int {
    choose|i: int| 0 <= i < s.len() && s[i].0 == id
}

/// The map from role id to address that an address list stands for.
pub open spec fn addrs_map(s: Seq<(i64, String)>) -> Map<i64, Seq<char>> {
    Map::new(|id: i64| has_role(s, id), |id: i64| s[role_index(s, id)].1@)
}

/// A broker: its cluster, its name, and its address for each role id
/// (0 for the master); an empty address means the role is vacant.
#[derive(Debug, Clone, PartialEq)]
pub struct BrokerData {
    pub cluster: String,
    pub broker_name: String,
    pub broker_addrs: BrokerAddrs,
}

pub struct BrokerDataView {
    pub cluster: Seq<char>,
    pub broker_name: Seq<char>,
    pub broker_addrs: Map<i64, Seq<char>>,
}

impl View for BrokerData {
    type V = BrokerDataView;

    open spec fn view(&self) -> BrokerDataView {
        BrokerDataView {
            cluster: self.cluster@,
            broker_name: self.broker_name@,
            broker_addrs: addrs_map(self.broker_addrs@),
        }
    }
}

/// The address under role `id`, if the list has that role.
pub fn find_role(s: &BrokerAddrs, id: i64) -> (r: Option<usize>)
    ensures
        match r {
            Some(i) => i < s@.len() && s@[i as int].0 == id,
            None => !has_role(s@, id),
        },
{
    let mut i: usize = 0;
    while i < s.len()
        invariant
            i <= s@.len(),
            forall|j: int| 0 <= j < i ==> s@[j].0 != id,
        decreases s@.len() - i,
    {
        if s[i].0 == id {
            return Some(i);
        }
        i = i + 1;
    }
    proof {
        if has_role(s@, id) {
            let j = role_index(s@, id);
            assert(s@[j].0 != id);
        }
    }
    None
}

/// Every role of `a` is in `b` with the same address.
fn addrs_within(a: &BrokerAddrs, b: &BrokerAddrs) -> (r: bool)
    requires
        addr_ids_distinct(a@),
        addr_ids_distinct(b@),
    ensures
        r == (forall|id: i64| #[trigger]
            has_role(a@, id) ==> has_role(b@, id) && addrs_map(b@)[id] == addrs_map(a@)[id]),
{
    let mut i: usize = 0;
    while i < a.len()
        invariant
            i <= a@.len(),
            addr_ids_distinct(a@),
            addr_ids_distinct(b@),
            forall|j: int|
                0 <= j < i ==> has_role(b@, #[trigger] a@[j].0) && addrs_map(b@)[a@[j].0]
                    == a@[j].1@,
        decreases a@.len() - i,
    {
        match find_role(b, a[i].0) {
            Some(k) => {
                proof {
                    assert(role_index(b@, a@[i as int].0) == k);
                    assert(has_role(a@, a@[i as int].0));
                    assert(role_index(a@, a@[i as int].0) == i);
                }
                if !(a[i].1 == b[k].1) {
                    return false;
                }
            },
            None => {
                proof {
                    assert(has_role(a@, a@[i as int].0));
                }
                return false;
            },
        }
        i = i + 1;
    }
    proof {
        assert forall|id: i64| #[trigger] has_role(a@, id) implies has_role(b@, id) && addrs_map(
            b@,
        )[id] == addrs_map(a@)[id] by {
            let j = role_index(a@, id);
            assert(has_role(b@, a@[j].0));
        }
    }
    true
}

impl BrokerData {
    pub open spec fn wf(&self) -> bool {
        addr_ids_distinct(self.broker_addrs@)
    }

    pub fn same_as(&self, other: &BrokerData) -> (r: bool)
        requires
            self.wf(),
            other.wf(),
        ensures
            r == (self@ == other@),
    {
        let r = self.cluster == other.cluster && self.broker_name == other.broker_name
            && addrs_within(&self.broker_addrs, &other.broker_addrs) && addrs_within(
            &other.broker_addrs,
            &self.broker_addrs,
        );
        proof {
            if r {
                assert(addrs_map(self.broker_addrs@) =~= addrs_map(other.broker_addrs@));
            }
            if self@ == other@ {
                assert forall|id: i64| #[trigger]
                    has_role(self.broker_addrs@, id) implies has_role(other.broker_addrs@, id)
                    && addrs_map(other.broker_addrs@)[id] == addrs_map(self.broker_addrs@)[id] by {
                    assert(addrs_map(self.broker_addrs@).contains_key(id));
                }
                assert forall|id: i64| #[trigger]
                    has_role(other.broker_addrs@, id) implies has_role(self.broker_addrs@, id)
                    && addrs_map(self.broker_addrs@)[id] == addrs_map(other.broker_addrs@)[id] by {
                    assert(addrs_map(other.broker_addrs@).contains_key(id));
                }
            }
        }
        r
    }
}

/// Route data of a topic. The filter-server table is carried along and
/// ignored by the core.
#[derive(Debug, Clone, PartialEq)]
pub struct TopicRouteData {
    pub order_topic_conf: String,
    pub queue_datas: Vec<QueueData>,
    pub broker_datas: Vec<BrokerData>,
    pub filter_server_table: Vec<(String, Vec<String>)>,
}

pub struct TopicRouteView {
    pub order_topic_conf: Seq<char>,
    pub queue_datas: Seq<QueueDataView>,
    pub broker_datas: Seq<BrokerDataView>,
}

pub open spec fn qd_views(s: Seq<QueueData>) -> Seq<QueueDataView> {
    Seq::new(s.len(), |i: int| s[i]@)
}

pub open spec fn bd_views(s: Seq<BrokerData>) -> Seq<BrokerDataView> {
    Seq::new(s.len(), |i: int| s[i]@)
}

impl View for TopicRouteData {
    type V = TopicRouteView;

    open spec fn view(&self) -> TopicRouteView {
        TopicRouteView {
            order_topic_conf: self.order_topic_conf@,
            queue_datas: qd_views(self.queue_datas@),
            broker_datas: bd_views(self.broker_datas@),
        }
    }
}

impl TopicRouteData {
    pub open spec fn wf(&self) -> bool {
        forall|i: int| 0 <= i < self.broker_datas@.len() ==> (#[trigger] self.broker_datas@[i]).wf()
    }
}

/// Two routes are the same when they differ at most in the order of their
/// queue and broker lists.
pub open spec fn same_route(a: TopicRouteView, b: TopicRouteView) -> bool {
    &&& a.order_topic_conf == b.order_topic_conf
    &&& a.queue_datas.to_multiset() == b.queue_datas.to_multiset()
    &&& a.broker_datas.to_multiset() == b.broker_datas.to_multiset()
}

fn count_queue_data(v: &Vec<QueueData>, x: &QueueData) -> (r: usize)
    ensures
        r == qd_views(v@).to_multiset().count(x@),
{
    let ghost s = qd_views(v@);
    let mut r: usize = 0;
    let mut i: usize = 0;
    while i < v.len()
        invariant
            i <= v@.len(),
            s == qd_views(v@),
            r <= i,
            r == s.take(i as int).to_multiset().count(x@),
        decreases v@.len() - i,
    {
        assert(s.take(i + 1) =~= s.take(i as int).push(s[i as int]));
        if v[i].same_as(x) {
            r = r + 1;
        }
        i = i + 1;
    }
    assert(s.take(i as int) =~= s);
    r
}

fn count_broker_data(v: &Vec<BrokerData>, x: &BrokerData) -> (r: usize)
    requires
        x.wf(),
        forall|i: int| 0 <= i < v@.len() ==> (#[trigger] v@[i]).wf(),
    ensures
        r == bd_views(v@).to_multiset().count(x@),
{
    let ghost s = bd_views(v@);
    let mut r: usize = 0;
    let mut i: usize = 0;
    while i < v.len()
        invariant
            i <= v@.len(),
            s == bd_views(v@),
            x.wf(),
            forall|i: int| 0 <= i < v@.len() ==> (#[trigger] v@[i]).wf(),
            r <= i,
            r == s.take(i as int).to_multiset().count(x@),
        decreases v@.len() - i,
    {
        assert(s.take(i + 1) =~= s.take(i as int).push(s[i as int]));
        if v[i].same_as(x) {
            r = r + 1;
        }
        i = i + 1;
    }
    assert(s.take(i as int) =~= s);
    r
}

/// Two multisets agree when each element of either has the same count in both.
proof fn lemma_multiset_by_counts<A>(a: Seq<A>, b: Seq<A>)
    requires
        forall|j: int| 0 <= j < a.len() ==> a.to_multiset().count(a[j]) == b.to_multiset().count(#[trigger] a[j]),
        forall|j: int| 0 <= j < b.len() ==> b.to_multiset().count(b[j]) == a.to_multiset().count(#[trigger] b[j]),
    ensures
        a.to_multiset() == b.to_multiset(),
{
    assert forall|x: A| a.to_multiset().count(x) == b.to_multiset().count(x) by {
        if a.to_multiset().count(x) > 0 {
            assert(a.contains(x));
            let j = choose|j: int| 0 <= j < a.len() && a[j] == x;
        } else if b.to_multiset().count(x) > 0 {
            assert(b.contains(x));
            let j = choose|j: int| 0 <= j < b.len() && b[j] == x;
        }
    }
    assert(a.to_multiset() =~= b.to_multiset());
}

fn queue_datas_within(a: &Vec<QueueData>, b: &Vec<QueueData>) -> (r: bool)
    ensures
        r == (forall|j: int|
            0 <= j < a@.len() ==> qd_views(a@).to_multiset().count(qd_views(a@)[j]) == qd_views(
                b@,
            ).to_multiset().count(#[trigger] qd_views(a@)[j])),
{
    let mut i: usize = 0;
    while i < a.len()
        invariant
            i <= a@.len(),
            forall|j: int|
                0 <= j < i ==> qd_views(a@).to_multiset().count(qd_views(a@)[j]) == qd_views(
                    b@,
                ).to_multiset().count(#[trigger] qd_views(a@)[j]),
        decreases a@.len() - i,
    {
        if count_queue_data(a, &a[i]) != count_queue_data(b, &a[i]) {
            assert(qd_views(a@)[i as int] == a@[i as int]@);
            return false;
        }
        i = i + 1;
    }
    true
}

fn broker_datas_within(a: &Vec<BrokerData>, b: &Vec<BrokerData>) -> (r: bool)
    requires
        forall|i: int| 0 <= i < a@.len() ==> (#[trigger] a@[i]).wf(),
        forall|i: int| 0 <= i < b@.len() ==> (#[trigger] b@[i]).wf(),
    ensures
        r == (forall|j: int|
            0 <= j < a@.len() ==> bd_views(a@).to_multiset().count(bd_views(a@)[j]) == bd_views(
                b@,
            ).to_multiset().count(#[trigger] bd_views(a@)[j])),
{
    let mut i: usize = 0;
    while i < a.len()
        invariant
            i <= a@.len(),
            forall|i: int| 0 <= i < a@.len() ==> (#[trigger] a@[i]).wf(),
            forall|i: int| 0 <= i < b@.len() ==> (#[trigger] b@[i]).wf(),
            forall|j: int|
                0 <= j < i ==> bd_views(a@).to_multiset().count(bd_views(a@)[j]) == bd_views(
                    b@,
                ).to_multiset().count(#[trigger] bd_views(a@)[j]),
        decreases a@.len() - i,
    {
        if count_broker_data(a, &a[i]) != count_broker_data(b, &a[i]) {
            assert(bd_views(a@)[i as int] == a@[i as int]@);
            return false;
        }
        i = i + 1;
    }
    true
}

/// Whether the route changed from `old_data` to `new_data`, ignoring the
/// order of the queue and broker lists.
pub fn is_topic_route_data_changed(old_data: &TopicRouteData, new_data: &TopicRouteData) -> (r:
    bool)
    requires
        old_data.wf(),
        new_data.wf(),
    ensures
        r == !same_route(old_data@, new_data@),
{
    let same = old_data.order_topic_conf == new_data.order_topic_conf && queue_datas_within(
        &old_data.queue_datas,
        &new_data.queue_datas,
    ) && queue_datas_within(&new_data.queue_datas, &old_data.queue_datas) && broker_datas_within(
        &old_data.broker_datas,
        &new_data.broker_datas,
    ) && broker_datas_within(&new_data.broker_datas, &old_data.broker_datas);
    proof {
        let qa = qd_views(old_data.queue_datas@);
        let qb = qd_views(new_data.queue_datas@);
        let ba = bd_views(old_data.broker_datas@);
        let bb = bd_views(new_data.broker_datas@);
        if same {
            lemma_multiset_by_counts(qa, qb);
            lemma_multiset_by_counts(ba, bb);
        }
    }
    !same
}

/// Change detection ignores order: routes whose queue and broker lists are
/// permutations of each other, with the same ordered-topic configuration,
/// are reported unchanged.
pub proof fn lemma_route_change_ignores_order(a: TopicRouteView, b: TopicRouteView)
    requires
        a.order_topic_conf == b.order_topic_conf,
        a.queue_datas.to_multiset() == b.queue_datas.to_multiset(),
        a.broker_datas.to_multiset() == b.broker_datas.to_multiset(),
    ensures
        same_route(a, b),
        same_route(b, a),
{
}

/// Queues `0 .. n` of `topic` on broker `name` (none where `n <= 0`).
pub open spec fn queues_for(topic: Seq<char>, name: Seq<char>, n: int) -> Seq<MessageQueueView> {
    Seq::new(
        if n > 0 {
            n as nat
        } else {
            0
        },
        |i: int| MessageQueueView { topic, broker_name: name, queue_id: i as u32 },
    )
}

/// Appends queues `0 .. n` of `topic` on broker `name`.
fn push_queues(out: &mut Vec<MessageQueue>, topic: &str, name: &String, n: i64)
    ensures
        queues_view(final(out)@) == queues_view(old(out)@) + queues_for(topic@, name@, n as int),
{
    let ghost start = queues_view(out@);
    let mut i: i64 = 0;
    while i < n
        invariant
            0 <= i,
            n > 0 ==> i <= n,
            n <= 0 ==> i == 0,
            queues_view(out@) == start + queues_for(topic@, name@, i as int),
        decreases n - i,
    {
        let ghost prev = out@;
        let q = MessageQueue { topic: topic.to_owned(), broker_name: name.clone(), queue_id: i as u32 };
        out.push(q);
        assert(queues_view(out@) =~= queues_view(prev) + seq![q@]);
        assert(queues_for(topic@, name@, i + 1) =~= queues_for(topic@, name@, i as int).push(q@));
        i = i + 1;
    }
    if n > 0 {
        assert(i == n);
    } else {
        assert(queues_for(topic@, name@, n as int) =~= queues_for(topic@, name@, 0));
    }
}

/// The first broker of the list with the given name.
pub open spec fn first_broker(bs: Seq<BrokerDataView>, name: Seq<char>) -> Option<BrokerDataView>
    decreases bs.len(),
{
    if bs.len() == 0 {
        None
    } else if bs[0].broker_name == name {
        Some(bs[0])
    } else {
        first_broker(bs.skip(1), name)
    }
}

/// The broker of that name has a non-empty master address.
pub open spec fn master_registered(bs: Seq<BrokerDataView>, name: Seq<char>) -> bool {
    match first_broker(bs, name) {
        Some(b) => b.broker_addrs.contains_key(MASTER_ID) && b.broker_addrs[MASTER_ID].len() > 0,
        None => false,
    }
}

/// Publish queues of the unordered layout: queue data in reverse order,
/// skipping entries without write permission or without a registered
/// master, `write_queue_nums` queues for each other entry.
pub open spec fn publish_queues(
    topic: Seq<char>,
    qds: Seq<QueueDataView>,
    bs: Seq<BrokerDataView>,
) -> Seq<MessageQueueView>
    decreases qds.len(),
{
    if qds.len() == 0 {
        Seq::empty()
    } else {
        publish_queues(topic, qds.skip(1), bs) + if (Permission { bits: qds[0].perm }).writeable()
            && master_registered(bs, qds[0].broker_name) {
            queues_for(topic, qds[0].broker_name, qds[0].write_queue_nums as int)
        } else {
            Seq::empty()
        }
    }
}

/// Subscribe queues: for each readable queue data, in order, its
/// `read_queue_nums` queues.
pub open spec fn subscribe_queues(topic: Seq<char>, qds: Seq<QueueDataView>) -> Seq<
    MessageQueueView,
>
    decreases qds.len(),
{
    if qds.len() == 0 {
        Seq::empty()
    } else {
        subscribe_queues(topic, qds.drop_last()) + if (Permission {
            bits: qds.last().perm,
        }).readable() {
            queues_for(topic, qds.last().broker_name, qds.last().read_queue_nums as int)
        } else {
            Seq::empty()
        }
    }
}

fn find_broker(bs: &Vec<BrokerData>, name: &String) -> (r: Option<usize>)
    ensures
        match r {
            Some(i) => i < bs@.len() && first_broker(bd_views(bs@), name@) == Some(bs@[i as int]@),
            None => first_broker(bd_views(bs@), name@) is None,
        },
{
    let ghost v = bd_views(bs@);
    let mut i: usize = 0;
    assert(v.skip(0) =~= v);
    while i < bs.len()
        invariant
            i <= bs@.len(),
            v == bd_views(bs@),
            first_broker(v, name@) == first_broker(v.skip(i as int), name@),
        decreases bs@.len() - i,
    {
        assert(v.skip(i as int)[0] == bs@[i as int]@);
        if bs[i].broker_name == *name {
            return Some(i);
        }
        assert(v.skip(i as int).skip(1) =~= v.skip(i + 1));
        i = i + 1;
    }
    None
}

fn has_master(bs: &Vec<BrokerData>, name: &String) -> (r: bool)
    requires
        forall|i: int| 0 <= i < bs@.len() ==> (#[trigger] bs@[i]).wf(),
    ensures
        r == master_registered(bd_views(bs@), name@),
{
    match find_broker(bs, name) {
        None => false,
        Some(i) => {
            let addrs = &bs[i].broker_addrs;
            match find_role(addrs, MASTER_ID) {
                None => false,
                Some(k) => {
                    proof {
                        let b = bs@[i as int]@;
                        assert(has_role(addrs@, MASTER_ID));
                        let j = role_index(addrs@, MASTER_ID);
                        assert(bs@[i as int].wf());
                        assert(j == k);
                        assert(b.broker_addrs.contains_key(MASTER_ID));
                        assert(addrs_map(addrs@)[MASTER_ID] == addrs@[j].1@);
                    }
                    !addrs[k].1.as_str().is_empty()
                },
            }
        },
    }
}

impl TopicRouteData {
    /// Publish queues of the unordered layout.
    pub fn queue_data_publish_queues(&self, topic: &str) -> (r: Vec<MessageQueue>)
        requires
            self.wf(),
        ensures
            queues_view(r@) == publish_queues(topic@, self@.queue_datas, self@.broker_datas),
    {
        let ghost qds = self@.queue_datas;
        let n = self.queue_datas.len();
        let mut out: Vec<MessageQueue> = Vec::new();
        let mut j: usize = n;
        assert(qds.subrange(n as int, n as int) =~= Seq::<QueueDataView>::empty());
        assert(queues_view(out@) =~= Seq::<MessageQueueView>::empty());
        while j > 0
            invariant
                j <= n,
                n == self.queue_datas@.len(),
                qds == self@.queue_datas,
                self.wf(),
                queues_view(out@) == publish_queues(
                    topic@,
                    qds.subrange(j as int, n as int),
                    self@.broker_datas,
                ),
            decreases j,
        {
            j = j - 1;
            let qd = &self.queue_datas[j];
            assert(qds.subrange(j as int, n as int).skip(1) =~= qds.subrange(j + 1, n as int));
            assert(qds.subrange(j as int, n as int)[0] == qd@);
            if qd.perm.is_writeable() && has_master(&self.broker_datas, &qd.broker_name) {
                push_queues(&mut out, topic, &qd.broker_name, qd.write_queue_nums as i64);
            } else {
                assert(queues_view(out@) =~= publish_queues(
                    topic@,
                    qds.subrange(j + 1, n as int),
                    self@.broker_datas,
                ) + Seq::<MessageQueueView>::empty());
            }
        }
        assert(qds.subrange(0, n as int) =~= qds);
        out
    }

    /// One queue per index below `read_queue_nums` for every readable queue data.
    pub fn subscribe_message_queues(&self, topic: &str) -> (r: Vec<MessageQueue>)
        ensures
            queues_view(r@) == subscribe_queues(topic@, self@.queue_datas),
    {
        let ghost qds = self@.queue_datas;
        let mut out: Vec<MessageQueue> = Vec::new();
        let mut i: usize = 0;
        assert(queues_view(out@) =~= Seq::<MessageQueueView>::empty());
        while i < self.queue_datas.len()
            invariant
                i <= self.queue_datas@.len(),
                qds == self@.queue_datas,
                queues_view(out@) == subscribe_queues(topic@, qds.take(i as int)),
            decreases self.queue_datas@.len() - i,
        {
            let qd = &self.queue_datas[i];
            assert(qds.take(i + 1).drop_last() =~= qds.take(i as int));
            assert(qds.take(i + 1).last() == qd@);
            if qd.perm.is_readable() {
                push_queues(&mut out, topic, &qd.broker_name, qd.read_queue_nums as i64);
            } else {
                assert(queues_view(out@) =~= subscribe_queues(topic@, qds.take(i as int))
                    + Seq::<MessageQueueView>::empty());
            }
            i = i + 1;
        }
        assert(qds.take(i as int) =~= qds);
        out
    }
}

/// Position of the first byte `c` in `s`, or its length.
pub open spec fn first_pos(s: Seq<u8>, c: u8) -> nat
    decreases s.len(),
{
    if s.len() == 0 {
        0
    } else if s[0] == c {
        0
    } else {
        1 + first_pos(s.skip(1), c)
    }
}

pub proof fn lemma_first_pos_bound(s: Seq<u8>, c: u8)
    ensures
        first_pos(s, c) <= s.len(),
        first_pos(s, c) < s.len() ==> s[first_pos(s, c) as int] == c,
    decreases s.len(),
{
    if s.len() > 0 && s[0] != c {
        lemma_first_pos_bound(s.skip(1), c);
    }
}

pub(crate) fn find_byte(b: &[u8], from: usize, to: usize, c: u8) -> (r: usize)
    requires
        from <= to <= b@.len(),
    ensures
        r == from + first_pos(b@.subrange(from as int, to as int), c),
        r <= to,
{
    let mut i: usize = from;
    while i < to
        invariant
            from <= i <= to <= b@.len(),
            first_pos(b@.subrange(from as int, to as int), c) == (i - from) + first_pos(
                b@.subrange(i as int, to as int),
                c,
            ),
        decreases to - i,
    {
        if b[i] == c {
            proof {
                lemma_first_pos_bound(b@.subrange(i as int, to as int), c);
            }
            return i;
        }
        assert(b@.subrange(i as int, to as int).skip(1) =~= b@.subrange(i + 1, to as int));
        i = i + 1;
    }
    i
}

pub open spec fn all_digits(s: Seq<u8>) -> bool {
    forall|i: int| 0 <= i < s.len() ==> 48 <= #[trigger] s[i] <= 57
}

/// The number that ASCII digits stand for.
pub open spec fn digits_value(s: Seq<u8>) -> int
    decreases s.len(),
{
    if s.len() == 0 {
        0
    } else {
        digits_value(s.drop_last()) * 10 + (s.last() - 48)
    }
}

/// The queues of one `brokerName:count` segment.
pub open spec fn segment_queues(topic: Seq<char>, seg: Seq<u8>) -> Option<Seq<MessageQueueView>> {
    let c = first_pos(seg, 0x3au8);
    if c >= seg.len() {
        None
    } else {
        let name = seg.take(c as int);
        let rest = seg.skip(c as int + 1);
        let num = rest.take(first_pos(rest, 0x3au8) as int);
        if num.len() == 0 || !all_digits(num) || digits_value(num) > u32::MAX || !valid_utf8(name) {
            None
        } else {
            Some(queues_for(topic, decode_utf8(name), digits_value(num)))
        }
    }
}

/// The queues of an ordered-topic configuration `brokerName:count;...`, in
/// order; `None` where a segment is malformed.
pub open spec fn order_conf_queues(topic: Seq<char>, conf: Seq<u8>) -> Option<
    Seq<MessageQueueView>,
>
    decreases conf.len(),
{
    let k = first_pos(conf, 0x3bu8);
    match segment_queues(topic, conf.take(k as int)) {
        None => None,
        Some(these) => if k >= conf.len() {
            Some(these)
        } else {
            match order_conf_queues(topic, conf.skip(k as int + 1)) {
                Some(rest) => Some(these + rest),
                None => None,
            }
        },
    }
}

fn segment_into(out: &mut Vec<MessageQueue>, topic: &str, b: &[u8], from: usize, to: usize) -> (r:
    bool)
    requires
        from <= to <= b@.len(),
    ensures
        match segment_queues(topic@, b@.subrange(from as int, to as int)) {
            Some(q) => r && queues_view(final(out)@) == queues_view(old(out)@) + q,
            None => !r,
        },
{
    let ghost seg = b@.subrange(from as int, to as int);
    let c = find_byte(b, from, to, 0x3au8);
    proof {
        lemma_first_pos_bound(seg, 0x3au8);
    }
    if c >= to {
        return false;
    }
    let ghost rest = seg.skip(c - from + 1);
    assert(rest =~= b@.subrange(c + 1, to as int));
    let e = find_byte(b, c + 1, to, 0x3au8);
    assert(rest.take(e - c - 1) =~= b@.subrange(c + 1, e as int));
    let count = match crate::text::parse_digits(b, c + 1, e, 0xffff_ffffu64) {
        Some(v) => v,
        None => {
            return false;
        },
    };
    let name_bytes = copy_range(b, from, c);
    assert(name_bytes@ =~= seg.take(c - from));
    let name = match utf8_text(name_bytes) {
        Some(s) => s,
        None => {
            return false;
        },
    };
    proof {
        let num = b@.subrange(c + 1, e as int);
        crate::text::lemma_digits_nonneg(num);
        assert(count as int == digits_value(num));
    }
    push_queues(out, topic, &name, count as i64);
    true
}

/// The queues of the ordered-topic configuration `conf`.
pub fn order_conf_message_queues(topic: &str, conf: &str) -> (r: Option<Vec<MessageQueue>>)
    ensures
        match order_conf_queues(topic@, crate::protocol::text_bytes(conf@)) {
            Some(q) => r.is_some() && queues_view(r.unwrap()@) == q,
            None => r.is_none(),
        },
{
    let b = conf.as_bytes();
    let n = b.len();
    let ghost whole = b@;
    assert(whole == crate::protocol::text_bytes(conf@));
    let mut out: Vec<MessageQueue> = Vec::new();
    let mut p: usize = 0;
    assert(whole.skip(0) =~= whole);
    assert(queues_view(out@) + Seq::<MessageQueueView>::empty() =~= queues_view(out@));
    loop
        invariant
            p <= n,
            n == b@.len(),
            whole == b@,
            whole == crate::protocol::text_bytes(conf@),
            order_conf_queues(topic@, whole) == match order_conf_queues(topic@, whole.skip(p as int)) {
                Some(rest) => Some(queues_view(out@) + rest),
                None => None::<Seq<MessageQueueView>>,
            },
        decreases n - p,
    {
        let ghost tail = whole.skip(p as int);
        let ghost before = queues_view(out@);
        let k = find_byte(b, p, n, 0x3bu8);
        assert(tail =~= b@.subrange(p as int, n as int));
        assert(tail.take(k - p) =~= b@.subrange(p as int, k as int));
        assert(first_pos(tail, 0x3bu8) == k - p);
        if !segment_into(&mut out, topic, b, p, k) {
            return None;
        }
        if k >= n {
            assert(queues_view(out@) + Seq::<MessageQueueView>::empty() =~= queues_view(out@));
            assert(order_conf_queues(topic@, tail) == Some(queues_view(out@).subrange(
                before.len() as int,
                queues_view(out@).len() as int,
            ))) by {
                assert(queues_view(out@).subrange(before.len() as int, queues_view(out@).len() as int)
                    =~= queues_view(out@).skip(before.len() as int));
            }
            assert(before + queues_view(out@).skip(before.len() as int) =~= queues_view(out@));
            return Some(out);
        }
        proof {
            assert(tail.skip(k - p + 1) =~= whole.skip(k + 1));
            let these = queues_view(out@).skip(before.len() as int);
            assert(before + these =~= queues_view(out@));
            match order_conf_queues(topic@, whole.skip(k + 1)) {
                Some(r2) => {
                    assert(before + (these + r2) =~= queues_view(out@) + r2);
                },
                None => {},
            }
        }
        p = k + 1;
    }
}

/// A topic's publish queues: the ordered layout where a configuration is
/// given, else the layout derived from the queue data.
pub open spec fn publish_info_queues(topic: Seq<char>, r: TopicRouteView) -> Option<
    Seq<MessageQueueView>,
> {
    if r.order_topic_conf.len() > 0 {
        order_conf_queues(topic, crate::protocol::text_bytes(r.order_topic_conf))
    } else {
        Some(publish_queues(topic, r.queue_datas, r.broker_datas))
    }
}

/// Route data of a topic as a producer uses it.
#[derive(Debug, Clone)]
pub struct TopicPublishInfo {
    pub order_topic: bool,
    pub have_topic_router_info: bool,
    pub message_queues: Vec<MessageQueue>,
    pub route_data: TopicRouteData,
    pub queue_index: usize,
}

/// Queue data with each of its read and write counts lowered to `limit`
/// where it exceeds it.
pub open spec fn clamp_queue_data(q: QueueDataView, limit: i32) -> QueueDataView {
    QueueDataView {
        read_queue_nums: if q.read_queue_nums > limit {
            limit
        } else {
            q.read_queue_nums
        },
        write_queue_nums: if q.write_queue_nums > limit {
            limit
        } else {
            q.write_queue_nums
        },
        ..q
    }
}

impl QueueData {
    /// A copy with the same fields.
    pub fn duplicate(&self) -> (r: QueueData)
        ensures
            r@ == self@,
    {
        QueueData {
            broker_name: self.broker_name.clone(),
            read_queue_nums: self.read_queue_nums,
            write_queue_nums: self.write_queue_nums,
            perm: self.perm,
            topic_sync_flag: self.topic_sync_flag,
        }
    }
}

impl TopicRouteData {
    /// A copy with the same configuration, queue data and brokers.
    pub fn duplicate(&self) -> (r: TopicRouteData)
        requires
            self.wf(),
        ensures
            r@ == self@,
            r.wf(),
    {
        let mut qds: Vec<QueueData> = Vec::new();
        let mut i: usize = 0;
        while i < self.queue_datas.len()
            invariant
                i <= self.queue_datas@.len(),
                qds@.len() == i,
                forall|j: int| 0 <= j < i ==> (#[trigger] qds@[j])@ == self.queue_datas@[j]@,
            decreases self.queue_datas@.len() - i,
        {
            qds.push(self.queue_datas[i].duplicate());
            i = i + 1;
        }
        let mut bds: Vec<BrokerData> = Vec::new();
        let mut k: usize = 0;
        while k < self.broker_datas.len()
            invariant
                k <= self.broker_datas@.len(),
                self.wf(),
                bds@.len() == k,
                forall|j: int| 0 <= j < k ==> (#[trigger] bds@[j])@ == self.broker_datas@[j]@ && bds@[j].wf(),
            decreases self.broker_datas@.len() - k,
        {
            assert(self.broker_datas@[k as int].wf());
            bds.push(self.broker_datas[k].duplicate());
            k = k + 1;
        }
        let r = TopicRouteData {
            order_topic_conf: self.order_topic_conf.clone(),
            queue_datas: qds,
            broker_datas: bds,
            filter_server_table: self.filter_server_table.clone(),
        };
        assert(qd_views(r.queue_datas@) =~= qd_views(self.queue_datas@));
        assert(bd_views(r.broker_datas@) =~= bd_views(self.broker_datas@));
        r
    }

    /// The publish view of this route for `topic`; `None` where the
    /// ordered-topic configuration is malformed.
    pub fn to_publish_info(&self, topic: &str) -> (r: Option<TopicPublishInfo>)
        requires
            self.wf(),
        ensures
            match publish_info_queues(topic@, self@) {
                Some(q) => r.is_some() && queues_view(r.unwrap().message_queues@) == q
                    && r.unwrap().order_topic == (self@.order_topic_conf.len() > 0)
                    && !r.unwrap().have_topic_router_info && r.unwrap().queue_index == 0
                    && r.unwrap().route_data@ == self@ && r.unwrap().route_data.wf(),
                None => r.is_none(),
            },
    {
        if !self.order_topic_conf.as_str().is_empty() {
            match order_conf_message_queues(topic, self.order_topic_conf.as_str()) {
                Some(mqs) => Some(
                    TopicPublishInfo {
                        order_topic: true,
                        have_topic_router_info: false,
                        message_queues: mqs,
                        route_data: self.duplicate(),
                        queue_index: 0,
                    },
                ),
                None => None,
            }
        } else {
            Some(
                TopicPublishInfo {
                    order_topic: false,
                    have_topic_router_info: false,
                    message_queues: self.queue_data_publish_queues(topic),
                    route_data: self.duplicate(),
                    queue_index: 0,
                },
            )
        }
    }

    /// Lowers every read and write count above `limit` to `limit`.
    pub fn clamp_queue_nums(&mut self, limit: i32)
        ensures
            final(self)@.order_topic_conf == old(self)@.order_topic_conf,
            final(self)@.broker_datas == old(self)@.broker_datas,
            final(self).broker_datas@ == old(self).broker_datas@,
            final(self)@.queue_datas == Seq::new(
                old(self)@.queue_datas.len(),
                |i: int| clamp_queue_data(old(self)@.queue_datas[i], limit),
            ),
    {
        let mut out: Vec<QueueData> = Vec::new();
        let mut i: usize = 0;
        while i < self.queue_datas.len()
            invariant
                i <= self.queue_datas@.len(),
                out@.len() == i,
                forall|j: int|
                    0 <= j < i ==> (#[trigger] out@[j])@ == clamp_queue_data(
                        self.queue_datas@[j]@,
                        limit,
                    ),
            decreases self.queue_datas@.len() - i,
        {
            let q = &self.queue_datas[i];
            let read = if q.read_queue_nums > limit {
                limit
            } else {
                q.read_queue_nums
            };
            let write = if q.write_queue_nums > limit {
                limit
            } else {
                q.write_queue_nums
            };
            out.push(
                QueueData {
                    broker_name: q.broker_name.clone(),
                    read_queue_nums: read,
                    write_queue_nums: write,
                    perm: q.perm,
                    topic_sync_flag: q.topic_sync_flag,
                },
            );
            i = i + 1;
        }
        self.queue_datas = out;
        assert(qd_views(self.queue_datas@) =~= Seq::new(
            old(self)@.queue_datas.len(),
            |i: int| clamp_queue_data(old(self)@.queue_datas[i], limit),
        ));
    }
}

impl BrokerData {
    /// A copy with the same cluster, name and addresses.
    pub fn duplicate(&self) -> (r: BrokerData)
        requires
            self.wf(),
        ensures
            r@ == self@,
            r.wf(),
    {
        let mut addrs: BrokerAddrs = Vec::new();
        let mut i: usize = 0;
        while i < self.broker_addrs.len()
            invariant
                i <= self.broker_addrs@.len(),
                addrs@.len() == i,
                forall|j: int|
                    0 <= j < i ==> (#[trigger] addrs@[j]).0 == self.broker_addrs@[j].0
                        && addrs@[j].1@ == self.broker_addrs@[j].1@,
            decreases self.broker_addrs@.len() - i,
        {
            addrs.push((self.broker_addrs[i].0, self.broker_addrs[i].1.clone()));
            i = i + 1;
        }
        let r = BrokerData {
            cluster: self.cluster.clone(),
            broker_name: self.broker_name.clone(),
            broker_addrs: addrs,
        };
        proof {
            let a = self.broker_addrs@;
            assert forall|id: i64| has_role(a, id) <==> has_role(addrs@, id) by {
                if has_role(a, id) {
                    let j = role_index(a, id);
                    assert(addrs@[j].0 == id);
                }
                if has_role(addrs@, id) {
                    let j = role_index(addrs@, id);
                    assert(a[j].0 == id);
                }
            }
            assert forall|id: i64| has_role(a, id) implies addrs_map(addrs@)[id] == addrs_map(a)[id] by {
                let j = role_index(a, id);
                let k = role_index(addrs@, id);
                assert(a[k].0 == id);
            }
            assert(addrs_map(addrs@) =~= addrs_map(a));
        }
        r
    }
}

} // verus!
