//! The name-server side of route discovery: the server list with its
//! round-robin cursor, the per-topic route cache, the per-broker cache, and
//! the decisions of a route query. Network calls are made by the caller.
use crate::error::Error;
use crate::fields::text_eq;
use crate::route::{
    bd_views, BrokerAddrs,
    find_role, has_role, is_topic_route_data_changed, role_index, same_route, BrokerData,
    BrokerDataView, TopicRouteData, TopicRouteView, MASTER_ID,
};
use vstd::prelude::*;

verus! {

pub open spec fn servers_view(s: Seq<String>) -> Seq<Seq<char>> {
    Seq::new(s.len(), |i: int| s[i]@)
}

pub open spec fn has_broker(s: Seq<BrokerData>, name: Seq<char>) -> bool {
    exists|i: int| 0 <= i < s.len() && s[i].broker_name@ == name
}

pub open spec fn broker_index(s: Seq<BrokerData>, name: Seq<char>) -> int {
    choose|i: int| 0 <= i < s.len() && s[i].broker_name@ == name
}

pub open spec fn brokers_map(s: Seq<BrokerData>) -> Map<Seq<char>, BrokerDataView> {
    Map::new(|k: Seq<char>| has_broker(s, k), |k: Seq<char>| s[broker_index(s, k)]@)
}

pub open spec fn has_topic(s: Seq<(String, TopicRouteData)>, topic: Seq<char>) -> bool {
    exists|i: int| 0 <= i < s.len() && s[i].0@ == topic
}

pub open spec fn topic_index(s: Seq<(String, TopicRouteData)>, topic: Seq<char>) -> int {
    choose|i: int| 0 <= i < s.len() && s[i].0@ == topic
}

pub open spec fn routes_map(s: Seq<(String, TopicRouteData)>) -> Map<Seq<char>, TopicRouteView> {
    Map::new(|k: Seq<char>| has_topic(s, k), |k: Seq<char>| s[topic_index(s, k)].1@)
}

/// The broker cache after taking in `bs` one after the other.
pub open spec fn insert_brokers(m: Map<Seq<char>, BrokerDataView>, bs: Seq<BrokerDataView>) -> Map<
    Seq<char>,
    BrokerDataView,
>
    decreases bs.len(),
{
    if bs.len() == 0 {
        m
    } else {
        insert_brokers(m, bs.drop_last()).insert(bs.last().broker_name, bs.last())
    }
}

pub struct NameServerView {
    pub servers: Seq<Seq<char>>,
    pub index: nat,
    pub brokers: Map<Seq<char>, BrokerDataView>,
    pub routes: Map<Seq<char>, TopicRouteView>,
}

/// The name-server state of one client.
pub struct NameServerInner {
    servers: Vec<String>,
    index: usize,
    broker_address_map: Vec<BrokerData>,
    route_data_map: Vec<(String, TopicRouteData)>,
}

impl View for NameServerInner {
    type V = NameServerView;

    closed spec fn view(&self) -> NameServerView {
        NameServerView {
            servers: servers_view(self.servers@),
            index: self.index as nat,
            brokers: brokers_map(self.broker_address_map@),
            routes: routes_map(self.route_data_map@),
        }
    }
}

/// One query of a topic's route: each configured server once, starting at
/// the cursor of the moment the query began.
#[derive(Debug, Clone, Copy, PartialEq, Eq, Structural)]
pub struct RouteQuery {
    pub start: usize,
    pub tried: usize,
    pub count: usize,
}

impl RouteQuery {
    pub open spec fn wf(self) -> bool {
        self.start < self.count && self.tried <= self.count
    }

    /// The index of the next server to ask, or `None` when all were asked.
    pub fn next_server(&mut self) -> (r: Option<usize>)
        requires
            old(self).wf(),
        ensures
            final(self).wf(),
            final(self).start == old(self).start,
            final(self).count == old(self).count,
            old(self).tried < old(self).count ==> r == Some(
                ((old(self).start + old(self).tried) % old(self).count as int) as usize,
            ) && final(self).tried == old(self).tried + 1,
            old(self).tried >= old(self).count ==> r.is_none() && final(self).tried == old(
                self,
            ).tried,
    {
        if self.tried < self.count {
            let i = if self.tried < self.count - self.start {
                self.start + self.tried
            } else {
                self.tried - (self.count - self.start)
            };
            proof {
                let c = self.count as int;
                let t = self.start as int + self.tried as int;
                if t < c {
                    vstd::arithmetic::div_mod::lemma_small_mod(t as nat, c as nat);
                } else {
                    vstd::arithmetic::div_mod::lemma_mod_add_multiples_vanish(t - c, c);
                    vstd::arithmetic::div_mod::lemma_small_mod((t - c) as nat, c as nat);
                }
            }
            self.tried = self.tried + 1;
            Some(i)
        } else {
            None
        }
    }
}

/// The outcome of a route response with code `code`: `None` for success,
/// the terminal error otherwise.
pub fn route_response_error(code: i16, remark: &String, topic: &str) -> (r: Option<Error>)
    ensures
        code == 0 ==> r.is_none(),
        code == 17 ==> (r matches Some(Error::TopicNotExist(t)) && t@ == topic@),
        code != 0 && code != 17 ==> (r matches Some(Error::ResponseError { code: c, message: m })
            && c == code && m@ == remark@),
{
    if code == 0 {
        None
    } else if code == 17 {
        Some(Error::TopicNotExist(topic.to_owned()))
    } else {
        Some(Error::ResponseError { code, message: remark.clone() })
    }
}

fn find_broker_index(s: &Vec<BrokerData>, name: &str) -> (r: Option<usize>)
    ensures
        match r {
            Some(i) => i < s@.len() && s@[i as int].broker_name@ == name@,
            None => !has_broker(s@, name@),
        },
{
    let mut i: usize = 0;
    while i < s.len()
        invariant
            i <= s@.len(),
            forall|j: int| 0 <= j < i ==> s@[j].broker_name@ != name@,
        decreases s@.len() - i,
    {
        if text_eq(s[i].broker_name.as_str(), name) {
            return Some(i);
        }
        i = i + 1;
    }
    proof {
        if has_broker(s@, name@) {
            let j = broker_index(s@, name@);
            assert(s@[j].broker_name@ != name@);
        }
    }
    None
}

fn find_topic_index(s: &Vec<(String, TopicRouteData)>, topic: &str) -> (r: Option<usize>)
    ensures
        match r {
            Some(i) => i < s@.len() && s@[i as int].0@ == topic@,
            None => !has_topic(s@, topic@),
        },
{
    let mut i: usize = 0;
    while i < s.len()
        invariant
            i <= s@.len(),
            forall|j: int| 0 <= j < i ==> s@[j].0@ != topic@,
        decreases s@.len() - i,
    {
        if text_eq(s[i].0.as_str(), topic) {
            return Some(i);
        }
        i = i + 1;
    }
    proof {
        if has_topic(s@, topic@) {
            let j = topic_index(s@, topic@);
            assert(s@[j].0@ != topic@);
        }
    }
    None
}

impl NameServerInner {
    /// Broker names and topics are distinct keys; cached data is well formed;
    /// the cursor points at a server unless there is none.
    pub closed spec fn wf(&self) -> bool {
        &&& (self.servers@.len() == 0 ==> self.index == 0)
        &&& (self.servers@.len() > 0 ==> self.index < self.servers@.len())
        &&& forall|i: int, j: int|
            0 <= i < j < self.broker_address_map@.len() ==> self.broker_address_map@[i].broker_name@
                != self.broker_address_map@[j].broker_name@
        &&& forall|i: int, j: int|
            0 <= i < j < self.route_data_map@.len() ==> self.route_data_map@[i].0@
                != self.route_data_map@[j].0@
        &&& forall|i: int|
            0 <= i < self.broker_address_map@.len() ==> (#[trigger] self.broker_address_map@[i]).wf()
        &&& forall|i: int|
            0 <= i < self.route_data_map@.len() ==> (#[trigger] self.route_data_map@[i]).1.wf()
    }

    pub fn new(servers: Vec<String>) -> (r: NameServerInner)
        ensures
            r.wf(),
            r@.servers == servers_view(servers@),
            r@.index == 0,
            r@.brokers == Map::<Seq<char>, BrokerDataView>::empty(),
            r@.routes == Map::<Seq<char>, TopicRouteView>::empty(),
    {
        let r = NameServerInner {
            servers,
            index: 0,
            broker_address_map: Vec::new(),
            route_data_map: Vec::new(),
        };
        assert(r@.brokers =~= Map::<Seq<char>, BrokerDataView>::empty());
        assert(r@.routes =~= Map::<Seq<char>, TopicRouteView>::empty());
        r
    }

    pub fn len(&self) -> (r: usize)
        ensures
            r == self@.servers.len(),
    {
        self.servers.len()
    }

    pub fn is_empty(&self) -> (r: bool)
        ensures
            r == (self@.servers.len() == 0),
    {
        self.servers.len() == 0
    }

    /// The server under the cursor, which then moves on by one, wrapping.
    pub fn get_address(&mut self) -> (r: Option<String>)
        requires
            old(self).wf(),
        ensures
            final(self).wf(),
            old(self)@.servers.len() == 0 ==> r.is_none() && final(self)@ == old(self)@,
            old(self)@.servers.len() > 0 ==> r.is_some() && r.unwrap()@ == old(
                self,
            )@.servers[old(self)@.index as int] && final(self)@ == (NameServerView {
                index: ((old(self)@.index as int + 1) % (old(self)@.servers.len() as int)) as nat,
                ..old(self)@
            }),
    {
        if self.servers.len() == 0 {
            return None;
        }
        let addr = self.servers[self.index].clone();
        self.index = if self.index + 1 == self.servers.len() {
            0
        } else {
            self.index + 1
        };
        proof {
            let n = self.servers@.len() as int;
            let i = old(self).index as int;
            if i + 1 == n {
                vstd::arithmetic::div_mod::lemma_mod_self_0(n);
            } else {
                vstd::arithmetic::div_mod::lemma_small_mod((i + 1) as nat, n as nat);
            }
        }
        Some(addr)
    }

    /// Replaces the server list; the cursor stays where it is if it still
    /// points at a server, else it goes back to the first.
    pub fn update_name_server_address(&mut self, servers: Vec<String>)
        requires
            old(self).wf(),
        ensures
            final(self).wf(),
            final(self)@.servers == servers_view(servers@),
            final(self)@.index == if old(self)@.index < servers@.len() {
                old(self)@.index
            } else {
                0
            },
            final(self)@.brokers == old(self)@.brokers,
            final(self)@.routes == old(self)@.routes,
    {
        if self.index >= servers.len() {
            self.index = 0;
        }
        self.servers = servers;
    }

    /// Begins a route query: `EmptyNameServers` without servers, else a
    /// query that starts at the cursor, which moves on by one.
    pub fn start_route_query(&mut self) -> (r: Result<RouteQuery, Error>)
        requires
            old(self).wf(),
        ensures
            final(self).wf(),
            old(self)@.servers.len() == 0 ==> r == Err::<RouteQuery, Error>(Error::EmptyNameServers)
                && final(self)@ == old(self)@,
            old(self)@.servers.len() > 0 ==> r == Ok::<RouteQuery, Error>(
                RouteQuery {
                    start: old(self)@.index as usize,
                    tried: 0,
                    count: old(self)@.servers.len() as usize,
                },
            ) && final(self)@ == (NameServerView {
                index: ((old(self)@.index as int + 1) % (old(self)@.servers.len() as int)) as nat,
                ..old(self)@
            }),
            r.is_ok() ==> r.unwrap().wf(),
    {
        if self.servers.len() == 0 {
            return Err(Error::EmptyNameServers);
        }
        let q = RouteQuery { start: self.index, tried: 0, count: self.servers.len() };
        let _ = self.get_address();
        Ok(q)
    }

    /// The address of server `i`.
    pub fn server(&self, i: usize) -> (r: String)
        requires
            i < self@.servers.len(),
        ensures
            r@ == self@.servers[i as int],
    {
        self.servers[i].clone()
    }

    /// The cached route of `topic`.
    pub fn cached_route(&self, topic: &str) -> (r: Option<&TopicRouteData>)
        requires
            self.wf(),
        ensures
            r.is_some() == self@.routes.contains_key(topic@),
            r.is_some() ==> r.unwrap()@ == self@.routes[topic@] && r.unwrap().wf(),
    {
        match find_topic_index(&self.route_data_map, topic) {
            Some(i) => {
                proof {
                    let s = self.route_data_map@;
                    assert(has_topic(s, topic@));
                    assert(topic_index(s, topic@) == i);
                }
                Some(&self.route_data_map[i].1)
            },
            None => None,
        }
    }

    fn put_broker(&mut self, b: BrokerData)
        requires
            old(self).wf(),
            b.wf(),
        ensures
            final(self).wf(),
            final(self)@ == (NameServerView {
                brokers: old(self)@.brokers.insert(b@.broker_name, b@),
                ..old(self)@
            }),
    {
        let ghost old_s = self.broker_address_map@;
        let ghost bv = b@;
        let pos = match find_broker_index(&self.broker_address_map, b.broker_name.as_str()) {
            Some(i) => {
                self.broker_address_map.set(i, b);
                i
            },
            None => {
                self.broker_address_map.push(b);
                self.broker_address_map.len() - 1
            },
        };
        proof {
            assert(self.broker_address_map@[pos as int]@ == bv);
            let s = self.broker_address_map@;
            assert forall|k: Seq<char>| has_broker(s, k) <==> (has_broker(old_s, k) || k
                == bv.broker_name) by {
                if has_broker(s, k) {
                    let j = broker_index(s, k);
                    if k != bv.broker_name {
                        assert(old_s[j].broker_name@ == k);
                    }
                }
                if has_broker(old_s, k) {
                    let j = broker_index(old_s, k);
                    if k != bv.broker_name {
                        assert(s[j].broker_name@ == k);
                    }
                }
                if k == bv.broker_name {
                    assert(s[pos as int].broker_name@ == k);
                }
            }
            assert forall|k: Seq<char>| has_broker(s, k) implies brokers_map(s)[k] == (if k
                == bv.broker_name {
                bv
            } else {
                brokers_map(old_s)[k]
            }) by {
                let j = broker_index(s, k);
                if k != bv.broker_name {
                    assert(old_s[j].broker_name@ == k);
                    let j0 = broker_index(old_s, k);
                }
            }
            assert(brokers_map(s) =~= brokers_map(old_s).insert(bv.broker_name, bv));
        }
    }

    fn put_route(&mut self, topic: &str, route: TopicRouteData)
        requires
            old(self).wf(),
            route.wf(),
        ensures
            final(self).wf(),
            final(self)@ == (NameServerView {
                routes: old(self)@.routes.insert(topic@, route@),
                ..old(self)@
            }),
    {
        let ghost old_s = self.route_data_map@;
        let ghost rv = route@;
        let key = topic.to_owned();
        let pos = match find_topic_index(&self.route_data_map, topic) {
            Some(i) => {
                self.route_data_map.set(i, (key, route));
                i
            },
            None => {
                self.route_data_map.push((key, route));
                self.route_data_map.len() - 1
            },
        };
        proof {
            let s = self.route_data_map@;
            assert(s[pos as int].1@ == rv);
            assert forall|k: Seq<char>| has_topic(s, k) <==> (has_topic(old_s, k) || k == topic@) by {
                if has_topic(s, k) {
                    let j = topic_index(s, k);
                    if k != topic@ {
                        assert(old_s[j].0@ == k);
                    }
                }
                if has_topic(old_s, k) {
                    let j = topic_index(old_s, k);
                    if k != topic@ {
                        assert(s[j].0@ == k);
                    }
                }
                if k == topic@ {
                    assert(s[pos as int].0@ == k);
                }
            }
            assert forall|k: Seq<char>| has_topic(s, k) implies routes_map(s)[k] == (if k
                == topic@ {
                rv
            } else {
                routes_map(old_s)[k]
            }) by {
                let j = topic_index(s, k);
                if k != topic@ {
                    assert(old_s[j].0@ == k);
                    let j0 = topic_index(old_s, k);
                }
            }
            assert(routes_map(s) =~= routes_map(old_s).insert(topic@, rv));
        }
    }

    /// Caches `route` for `topic` and takes in all its brokers.
    pub fn store_route(&mut self, topic: &str, route: TopicRouteData)
        requires
            old(self).wf(),
            route.wf(),
        ensures
            final(self).wf(),
            final(self)@ == (NameServerView {
                routes: old(self)@.routes.insert(topic@, route@),
                brokers: insert_brokers(old(self)@.brokers, route@.broker_datas),
                ..old(self)@
            }),
    {
        let ghost bs = route@.broker_datas;
        let mut i: usize = 0;
        while i < route.broker_datas.len()
            invariant
                i <= route.broker_datas@.len(),
                route.wf(),
                bs == route@.broker_datas,
                self.wf(),
                self@ == (NameServerView {
                    brokers: insert_brokers(old(self)@.brokers, bs.take(i as int)),
                    ..old(self)@
                }),
            decreases route.broker_datas@.len() - i,
        {
            assert(route.broker_datas@[i as int].wf());
            let b = route.broker_datas[i].duplicate();
            self.put_broker(b);
            assert(bs.take(i + 1).drop_last() =~= bs.take(i as int));
            assert(bs.take(i + 1).last() == bs[i as int]);
            i = i + 1;
        }
        assert(bs.take(i as int) =~= bs);
        self.put_route(topic, route);
    }

    /// Commits freshly fetched route data of `topic`: where it is new or
    /// differs from the cached route other than in list order, the route is
    /// cached and its brokers taken in. Returns whether it changed.
    pub fn update_topic_route_info(&mut self, topic: &str, route: TopicRouteData) -> (r: bool)
        requires
            old(self).wf(),
            route.wf(),
        ensures
            final(self).wf(),
            r == (!old(self)@.routes.contains_key(topic@) || !same_route(
                old(self)@.routes[topic@],
                route@,
            )),
            r ==> final(self)@ == (NameServerView {
                routes: old(self)@.routes.insert(topic@, route@),
                brokers: insert_brokers(old(self)@.brokers, route@.broker_datas),
                ..old(self)@
            }),
            !r ==> final(self)@ == old(self)@,
    {
        let changed = match self.cached_route(topic) {
            Some(cached) => is_topic_route_data_changed(cached, &route),
            None => true,
        };
        if changed {
            self.store_route(topic, route);
        }
        changed
    }

    /// The master address of the named broker, from the cache only.
    pub fn find_broker_addr_by_name(&self, broker_name: &str) -> (r: Option<String>)
        requires
            self.wf(),
        ensures
            r.is_some() == (self@.brokers.contains_key(broker_name@)
                && self@.brokers[broker_name@].broker_addrs.contains_key(MASTER_ID)),
            r.is_some() ==> r.unwrap()@ == self@.brokers[broker_name@].broker_addrs[MASTER_ID],
    {
        match find_broker_index(&self.broker_address_map, broker_name) {
            None => None,
            Some(i) => {
                proof {
                    let s = self.broker_address_map@;
                    assert(has_broker(s, broker_name@));
                    assert(broker_index(s, broker_name@) == i);
                }
                let addrs = &self.broker_address_map[i].broker_addrs;
                match find_role(addrs, MASTER_ID) {
                    None => None,
                    Some(k) => {
                        proof {
                            assert(self.broker_address_map@[i as int].wf());
                            assert(has_role(addrs@, MASTER_ID));
                            assert(role_index(addrs@, MASTER_ID) == k);
                        }
                        Some(addrs[k].1.clone())
                    },
                }
            },
        }
    }

    /// A broker address of `topic`'s cached route: broker number
    /// `broker_pick` (modulo their count); its master where that address is
    /// non-empty, else its non-master address number `addr_pick` (modulo
    /// their count).
    pub fn find_broker_addr_by_topic_with(&self, topic: &str, broker_pick: usize, addr_pick: usize) -> (r:
        Option<String>)
        requires
            self.wf(),
        ensures
            match r {
                Some(a) => self@.routes.contains_key(topic@) && self@.routes[topic@].broker_datas.len()
                    > 0 && broker_address_of(
                    self@.routes[topic@].broker_datas[broker_pick as int
                        % self@.routes[topic@].broker_datas.len() as int].broker_addrs,
                    a@,
                ),
                None => !self@.routes.contains_key(topic@) || self@.routes[topic@].broker_datas.len()
                    == 0 || no_broker_address(
                    self@.routes[topic@].broker_datas[broker_pick as int
                        % self@.routes[topic@].broker_datas.len() as int].broker_addrs,
                ),
            },
    {
        let route = match self.cached_route(topic) {
            Some(route) => route,
            None => {
                return None;
            },
        };
        let n = route.broker_datas.len();
        if n == 0 {
            return None;
        }
        let b = &route.broker_datas[broker_pick % n];
        assert(bd_views(route.broker_datas@)[(broker_pick % n) as int] == b@);
        assert(b.wf());
        pick_broker_address(&b.broker_addrs, addr_pick)
    }

    /// A broker address of `topic`'s cached route, with the broker and the
    /// fallback address picked at random.
    pub fn find_broker_addr_by_topic(&self, topic: &str) -> (r: Option<String>)
        requires
            self.wf(),
        ensures
            match r {
                Some(a) => self@.routes.contains_key(topic@) && exists|i: int|
                    0 <= i < self@.routes[topic@].broker_datas.len() && broker_address_of(
                        #[trigger] self@.routes[topic@].broker_datas[i].broker_addrs,
                        a@,
                    ),
                None => !self@.routes.contains_key(topic@) || self@.routes[topic@].broker_datas.len()
                    == 0 || exists|i: int|
                    0 <= i < self@.routes[topic@].broker_datas.len() && no_broker_address(
                        #[trigger] self@.routes[topic@].broker_datas[i].broker_addrs,
                    ),
            },
    {
        let broker_pick: usize = rand::random::<usize>();
        let addr_pick: usize = rand::random::<usize>();
        let r = self.find_broker_addr_by_topic_with(topic, broker_pick, addr_pick);
        proof {
            if self@.routes.contains_key(topic@) && self@.routes[topic@].broker_datas.len() > 0 {
                let n = self@.routes[topic@].broker_datas.len() as int;
                let i = broker_pick as int % n;
                assert(0 <= i < n);
                let bi = self@.routes[topic@].broker_datas[i].broker_addrs;
                if r.is_some() {
                    assert(broker_address_of(bi, r.unwrap()@));
                } else {
                    assert(no_broker_address(bi));
                }
            }
        }
        r
    }
}

/// `a` is an address that a lookup of this broker may give: its master
/// where that is non-empty, else one of its non-empty non-master addresses
/// (an empty address is a role nobody holds).
pub open spec fn broker_address_of(addrs: Map<i64, Seq<char>>, a: Seq<char>) -> bool {
    &&& a.len() > 0
    &&& if addrs.contains_key(MASTER_ID) && addrs[MASTER_ID].len() > 0 {
        a == addrs[MASTER_ID]
    } else {
        exists|id: i64| id != MASTER_ID && #[trigger] addrs.contains_key(id) && addrs[id] == a
    }
}

/// The broker has no non-empty address in any role.
pub open spec fn no_broker_address(addrs: Map<i64, Seq<char>>) -> bool {
    &&& !(addrs.contains_key(MASTER_ID) && addrs[MASTER_ID].len() > 0)
    &&& forall|id: i64|
        id != MASTER_ID && #[trigger] addrs.contains_key(id) ==> addrs[id].len() == 0
}

fn pick_broker_address(addrs: &BrokerAddrs, addr_pick: usize) -> (r: Option<String>)
    requires
        crate::route::addr_ids_distinct(addrs@),
    ensures
        match r {
            Some(a) => broker_address_of(crate::route::addrs_map(addrs@), a@),
            None => no_broker_address(crate::route::addrs_map(addrs@)),
        },
{
    let ghost m = crate::route::addrs_map(addrs@);
    match find_role(addrs, MASTER_ID) {
        Some(k) => {
            proof {
                assert(has_role(addrs@, MASTER_ID));
                assert(role_index(addrs@, MASTER_ID) == k);
            }
            if !addrs[k].1.as_str().is_empty() {
                return Some(addrs[k].1.clone());
            }
        },
        None => {},
    }
    let mut others: Vec<usize> = Vec::new();
    let mut i: usize = 0;
    while i < addrs.len()
        invariant
            i <= addrs@.len(),
            forall|j: int| 0 <= j < others@.len() ==> #[trigger] others@[j] < addrs@.len() && addrs@[others@[j] as int].0 != MASTER_ID && addrs@[others@[j] as int].1@.len() > 0,
            forall|j: int| 0 <= j < i && addrs@[j].0 != MASTER_ID && addrs@[j].1@.len() > 0 ==> others@.contains(j as usize),
        decreases addrs@.len() - i,
    {
        let ghost prev = others@;
        if addrs[i].0 != MASTER_ID && !addrs[i].1.as_str().is_empty() {
            others.push(i);
            proof {
                assert(others@[others@.len() - 1] == i);
                assert forall|j: int| 0 <= j < i && addrs@[j].0 != MASTER_ID && addrs@[j].1@.len() > 0 implies others@.contains(
                    j as usize,
                ) by {
                    assert(prev.contains(j as usize));
                    let t = choose|t: int| 0 <= t < prev.len() && prev[t] == j as usize;
                    assert(others@[t] == j as usize);
                }
            }
        }
        i = i + 1;
    }
    if others.len() == 0 {
        proof {
            assert forall|id: i64| id != MASTER_ID && #[trigger] m.contains_key(id) implies m[id].len() == 0 by {
                let j = role_index(addrs@, id);
                if m[id].len() > 0 {
                    assert(others@.contains(j as usize));
                }
            }
        }
        return None;
    }
    let k = others[addr_pick % others.len()];
    proof {
        let id = addrs@[k as int].0;
        assert(has_role(addrs@, id));
        assert(role_index(addrs@, id) == k);
        assert(m.contains_key(id) && m[id] == addrs@[k as int].1@);
    }
    Some(addrs[k].1.clone())
}

/// Nothing can be promised of a random value.
pub assume_specification<T>[ rand::random::<T> ]() -> T
    where
        rand::distributions::Standard: rand::distributions::Distribution<T>,
;

} // verus!
