//! The bookkeeping of the connection multiplexer: per-address connection
//! state with deduplicated connect attempts, the per-connection table of
//! pending requests, and the opaque-id counter. The tasks that own sockets
//! and completion handles run outside and follow these decisions.
use crate::fields::text_eq;
use crate::protocol::{is_response_flag, RemotingCommand};
use vstd::prelude::*;

verus! {

/// The state of the connection to one address.
#[derive(Debug, Clone, Copy, PartialEq, Eq, Structural)]
pub enum ConnectionStatus {
    /// A connect attempt is running; `waiters` callers wait for its outcome.
    Connecting { waiters: usize },
    /// The connection with this handle id is established.
    Connected { id: u64 },
}

/// What a caller asking for a connection must do.
#[derive(Debug, Clone, Copy, PartialEq, Eq, Structural)]
pub enum ConnectAction {
    /// Use the established connection with this handle id.
    Ready(u64),
    /// Make the one connect attempt for this address.
    Connect,
    /// Wait for the outcome of the attempt already running.
    Wait,
}

pub open spec fn has_addr(s: Seq<(String, ConnectionStatus)>, a: Seq<char>) -> bool {
    exists|i: int| 0 <= i < s.len() && s[i].0@ == a
}

pub open spec fn addr_index(s: Seq<(String, ConnectionStatus)>, a: Seq<char>) -> int {
    choose|i: int| 0 <= i < s.len() && s[i].0@ == a
}

pub open spec fn status_map(s: Seq<(String, ConnectionStatus)>) -> Map<Seq<char>, ConnectionStatus> {
    Map::new(|a: Seq<char>| has_addr(s, a), |a: Seq<char>| s[addr_index(s, a)].1)
}

/// The effect of one request for a connection to `addr`.
pub open spec fn connect_step(m: Map<Seq<char>, ConnectionStatus>, addr: Seq<char>) -> (
    Map<Seq<char>, ConnectionStatus>,
    ConnectAction,
) {
    if !m.contains_key(addr) {
        (m.insert(addr, ConnectionStatus::Connecting { waiters: 0 }), ConnectAction::Connect)
    } else {
        match m[addr] {
            ConnectionStatus::Connected { id } => (m, ConnectAction::Ready(id)),
            ConnectionStatus::Connecting { waiters } => (
                m.insert(addr, ConnectionStatus::Connecting { waiters: (waiters + 1) as usize }),
                ConnectAction::Wait,
            ),
        }
    }
}

/// The effect of the end of the connect attempt for `addr` with `outcome`:
/// the new states, and how many waiting callers are released with it.
pub open spec fn finish_step(
    m: Map<Seq<char>, ConnectionStatus>,
    addr: Seq<char>,
    outcome: Option<u64>,
) -> (Map<Seq<char>, ConnectionStatus>, usize) {
    (
        match outcome {
            Some(id) => m.insert(addr, ConnectionStatus::Connected { id }),
            None => m.remove(addr),
        },
        match m.get(addr) {
            Some(ConnectionStatus::Connecting { waiters }) => waiters,
            _ => 0,
        },
    )
}

/// The states and actions of `n` requests in a row for `addr`.
pub open spec fn connect_steps(m: Map<Seq<char>, ConnectionStatus>, addr: Seq<char>, n: nat) -> (
    Map<Seq<char>, ConnectionStatus>,
    Seq<ConnectAction>,
)
    decreases n,
{
    if n == 0 {
        (m, Seq::empty())
    } else {
        let (m1, acts) = connect_steps(m, addr, (n - 1) as nat);
        let (m2, a) = connect_step(m1, addr);
        (m2, acts.push(a))
    }
}

/// Connection states by address.
pub struct ConnectionTable {
    entries: Vec<(String, ConnectionStatus)>,
}

impl View for ConnectionTable {
    type V = Map<Seq<char>, ConnectionStatus>;

    closed spec fn view(&self) -> Map<Seq<char>, ConnectionStatus> {
        status_map(self.entries@)
    }
}

impl ConnectionTable {
    pub closed spec fn wf(&self) -> bool {
        forall|i: int, j: int|
            0 <= i < j < self.entries@.len() ==> self.entries@[i].0@ != self.entries@[j].0@
    }

    pub fn new() -> (r: ConnectionTable)
        ensures
            r.wf(),
            r@ == Map::<Seq<char>, ConnectionStatus>::empty(),
    {
        let r = ConnectionTable { entries: Vec::new() };
        assert(r@ =~= Map::<Seq<char>, ConnectionStatus>::empty());
        r
    }

    fn find(&self, addr: &str) -> (r: Option<usize>)
        requires
            self.wf(),
        ensures
            match r {
                Some(i) => i < self.entries@.len() && self.entries@[i as int].0@ == addr@
                    && self@.contains_key(addr@) && self@[addr@] == self.entries@[i as int].1,
                None => !self@.contains_key(addr@),
            },
    {
        let mut i: usize = 0;
        while i < self.entries.len()
            invariant
                i <= self.entries@.len(),
                self.wf(),
                forall|j: int| 0 <= j < i ==> self.entries@[j].0@ != addr@,
            decreases self.entries@.len() - i,
        {
            if text_eq(self.entries[i].0.as_str(), addr) {
                proof {
                    assert(has_addr(self.entries@, addr@));
                    assert(addr_index(self.entries@, addr@) == i);
                }
                return Some(i);
            }
            i = i + 1;
        }
        proof {
            if has_addr(self.entries@, addr@) {
                let j = addr_index(self.entries@, addr@);
                assert(self.entries@[j].0@ != addr@);
            }
        }
        None
    }

    fn put(&mut self, addr: &str, st: ConnectionStatus)
        requires
            old(self).wf(),
        ensures
            final(self).wf(),
            final(self)@ == old(self)@.insert(addr@, st),
    {
        let ghost old_s = self.entries@;
        let pos = match self.find(addr) {
            Some(i) => {
                self.entries.set(i, (addr.to_owned(), st));
                i
            },
            None => {
                self.entries.push((addr.to_owned(), st));
                self.entries.len() - 1
            },
        };
        proof {
            let s = self.entries@;
            assert(s[pos as int].0@ == addr@);
            assert forall|k: Seq<char>| has_addr(s, k) <==> (has_addr(old_s, k) || k == addr@) by {
                if has_addr(s, k) {
                    let j = addr_index(s, k);
                    if k != addr@ {
                        assert(old_s[j].0@ == k);
                    }
                }
                if has_addr(old_s, k) {
                    let j = addr_index(old_s, k);
                    if k != addr@ {
                        assert(s[j].0@ == k);
                    }
                }
            }
            assert forall|k: Seq<char>| has_addr(s, k) implies status_map(s)[k] == (if k == addr@ {
                st
            } else {
                status_map(old_s)[k]
            }) by {
                let j = addr_index(s, k);
                if k != addr@ {
                    assert(old_s[j].0@ == k);
                    let j0 = addr_index(old_s, k);
                }
            }
            assert(status_map(s) =~= status_map(old_s).insert(addr@, st));
        }
    }

    /// The state of the connection to `addr`.
    pub fn status(&self, addr: &str) -> (r: Option<ConnectionStatus>)
        requires
            self.wf(),
        ensures
            r == self@.get(addr@),
    {
        match self.find(addr) {
            Some(i) => Some(self.entries[i].1),
            None => None,
        }
    }

    /// Forgets the connection state of `addr`.
    pub fn remove(&mut self, addr: &str)
        requires
            old(self).wf(),
        ensures
            final(self).wf(),
            final(self)@ == old(self)@.remove(addr@),
    {
        let ghost old_s = self.entries@;
        match self.find(addr) {
            Some(i) => {
                self.entries.remove(i);
                proof {
                    let s = self.entries@;
                    assert forall|k: Seq<char>| has_addr(s, k) <==> (has_addr(old_s, k) && k != addr@) by {
                        if has_addr(s, k) {
                            let j = addr_index(s, k);
                            if j < i {
                                assert(old_s[j].0@ == k);
                            } else {
                                assert(old_s[j + 1].0@ == k);
                            }
                        }
                        if has_addr(old_s, k) && k != addr@ {
                            let j = addr_index(old_s, k);
                            if j < i {
                                assert(s[j].0@ == k);
                            } else {
                                assert(s[j - 1].0@ == k);
                            }
                        }
                    }
                    assert forall|k: Seq<char>| has_addr(s, k) implies status_map(s)[k] == status_map(old_s)[k] by {
                        let j = addr_index(s, k);
                        let j0 = addr_index(old_s, k);
                        if j < i {
                            assert(old_s[j].0@ == k);
                        } else {
                            assert(old_s[j + 1].0@ == k);
                        }
                    }
                    assert(status_map(s) =~= status_map(old_s).remove(addr@));
                }
            },
            None => {
                assert(self@ =~= old(self)@.remove(addr@));
            },
        }
    }

    /// A caller asks for a connection to `addr`: the first caller for an
    /// address without state makes the connect attempt, callers during the
    /// attempt wait, callers after it use the established connection.
    pub fn get_or_create(&mut self, addr: &str) -> (r: ConnectAction)
        requires
            old(self).wf(),
            old(self)@.contains_key(addr@) ==> (old(self)@[addr@] matches ConnectionStatus::Connecting { waiters } ==> waiters < usize::MAX),
        ensures
            final(self).wf(),
            (final(self)@, r) == connect_step(old(self)@, addr@),
    {
        match self.find(addr) {
            None => {
                self.put(addr, ConnectionStatus::Connecting { waiters: 0 });
                ConnectAction::Connect
            },
            Some(i) => match self.entries[i].1 {
                ConnectionStatus::Connected { id } => ConnectAction::Ready(id),
                ConnectionStatus::Connecting { waiters } => {
                    self.put(addr, ConnectionStatus::Connecting { waiters: waiters + 1 });
                    ConnectAction::Wait
                },
            },
        }
    }

    /// The connect attempt for `addr` ended with the connection `outcome`
    /// (`None` on failure). On success the address is connected; on failure
    /// its state is dropped so that a later call tries again. Returns how many
    /// waiting callers are to be released with this same outcome.
    pub fn connect_finished(&mut self, addr: &str, outcome: Option<u64>) -> (r: usize)
        requires
            old(self).wf(),
        ensures
            final(self).wf(),
            (final(self)@, r) == finish_step(old(self)@, addr@, outcome),
    {
        let waiters = match self.find(addr) {
            Some(i) => match self.entries[i].1 {
                ConnectionStatus::Connecting { waiters } => waiters,
                ConnectionStatus::Connected { .. } => 0,
            },
            None => 0,
        };
        match outcome {
            Some(id) => self.put(addr, ConnectionStatus::Connected { id }),
            None => self.remove(addr),
        }
        waiters
    }

    /// Forgets every connection; doing it twice is the same as once.
    pub fn shutdown(&mut self)
        ensures
            final(self).wf(),
            final(self)@ == Map::<Seq<char>, ConnectionStatus>::empty(),
    {
        self.entries = Vec::new();
        assert(self@ =~= Map::<Seq<char>, ConnectionStatus>::empty());
    }
}

/// Connection dedup: when `n` callers ask for a connection to an address
/// that has no state, exactly the first makes the connect attempt and the
/// other `n - 1` wait for it; when the attempt ends, all `n - 1` waiters are
/// released with its one outcome, which the first caller holds as well. A
/// failed attempt leaves no state behind, so the next caller tries again.
pub proof fn lemma_connect_dedup(
    m: Map<Seq<char>, ConnectionStatus>,
    addr: Seq<char>,
    n: nat,
    outcome: Option<u64>,
)
    requires
        !m.contains_key(addr),
        n >= 1,
        n <= usize::MAX,
    ensures
        ({
            let (m2, acts) = connect_steps(m, addr, n);
            let (m3, released) = finish_step(m2, addr, outcome);
            &&& acts.len() == n
            &&& acts[0] == ConnectAction::Connect
            &&& forall|i: int| 1 <= i < n ==> acts[i] == ConnectAction::Wait
            &&& m2 == m.insert(addr, ConnectionStatus::Connecting { waiters: (n - 1) as usize })
            &&& released == n - 1
            &&& outcome is None ==> connect_step(m3, addr).1 == ConnectAction::Connect
            &&& outcome matches Some(id) ==> connect_step(m3, addr).1 == ConnectAction::Ready(id)
        }),
{
    lemma_connect_dedup_steps(m, addr, n);
}

proof fn lemma_connect_dedup_steps(m: Map<Seq<char>, ConnectionStatus>, addr: Seq<char>, n: nat)
    requires
        !m.contains_key(addr),
        n >= 1,
        n <= usize::MAX,
    ensures
        ({
            let (m2, acts) = connect_steps(m, addr, n);
            &&& acts.len() == n
            &&& acts[0] == ConnectAction::Connect
            &&& forall|i: int| 1 <= i < n ==> acts[i] == ConnectAction::Wait
            &&& m2 == m.insert(addr, ConnectionStatus::Connecting { waiters: (n - 1) as usize })
        }),
    decreases n,
{
    if n > 1 {
        lemma_connect_dedup_steps(m, addr, (n - 1) as nat);
        let (m1, acts1) = connect_steps(m, addr, (n - 1) as nat);
        assert(m1.contains_key(addr));
        assert(m.insert(addr, ConnectionStatus::Connecting { waiters: (n - 1) as usize }) =~= m1.insert(
            addr,
            ConnectionStatus::Connecting { waiters: (n - 1) as usize },
        ));
    } else {
        let (m2, acts) = connect_steps(m, addr, n);
        assert(connect_steps(m, addr, 0).1 =~= Seq::<ConnectAction>::empty());
    }
}

pub open spec fn has_opaque(s: Seq<(i32, u64)>, o: i32) -> bool {
    exists|i: int| 0 <= i < s.len() && s[i].0 == o
}

pub open spec fn opaque_index(s: Seq<(i32, u64)>, o: i32) -> int {
    choose|i: int| 0 <= i < s.len() && s[i].0 == o
}

pub open spec fn pending_map(s: Seq<(i32, u64)>) -> Map<i32, u64> {
    Map::new(|o: i32| has_opaque(s, o), |o: i32| s[opaque_index(s, o)].1)
}

/// The requests of one connection that await a response: opaque id to the
/// id of the completion handle of the waiting caller.
pub struct PendingRequests {
    entries: Vec<(i32, u64)>,
}

impl View for PendingRequests {
    type V = Map<i32, u64>;

    closed spec fn view(&self) -> Map<i32, u64> {
        pending_map(self.entries@)
    }
}

impl PendingRequests {
    pub closed spec fn wf(&self) -> bool {
        forall|i: int, j: int|
            0 <= i < j < self.entries@.len() ==> self.entries@[i].0 != self.entries@[j].0
    }

    pub fn new() -> (r: PendingRequests)
        ensures
            r.wf(),
            r@ == Map::<i32, u64>::empty(),
    {
        let r = PendingRequests { entries: Vec::new() };
        assert(r@ =~= Map::<i32, u64>::empty());
        r
    }

    pub fn len(&self) -> (r: usize)
        requires
            self.wf(),
        ensures
            r == self@.dom().len(),
    {
        proof {
            self.lemma_dom_len();
        }
        self.entries.len()
    }

    proof fn lemma_dom_len(&self)
        requires
            self.wf(),
        ensures
            self@.dom().finite(),
            self@.dom().len() == self.entries@.len(),
    {
        lemma_pending_dom(self.entries@);
    }

    fn find(&self, opaque: i32) -> (r: Option<usize>)
        requires
            self.wf(),
        ensures
            match r {
                Some(i) => i < self.entries@.len() && self.entries@[i as int].0 == opaque
                    && self@.contains_key(opaque) && self@[opaque] == self.entries@[i as int].1,
                None => !self@.contains_key(opaque),
            },
    {
        let mut i: usize = 0;
        while i < self.entries.len()
            invariant
                i <= self.entries@.len(),
                self.wf(),
                forall|j: int| 0 <= j < i ==> self.entries@[j].0 != opaque,
            decreases self.entries@.len() - i,
        {
            if self.entries[i].0 == opaque {
                proof {
                    assert(has_opaque(self.entries@, opaque));
                    assert(opaque_index(self.entries@, opaque) == i);
                }
                return Some(i);
            }
            i = i + 1;
        }
        proof {
            if has_opaque(self.entries@, opaque) {
                let j = opaque_index(self.entries@, opaque);
                assert(self.entries@[j].0 != opaque);
            }
        }
        None
    }

    /// Registers the waiting caller of request `opaque`; this happens before
    /// the request's frame is handed to the writer.
    pub fn register(&mut self, opaque: i32, handle: u64)
        requires
            old(self).wf(),
        ensures
            final(self).wf(),
            final(self)@ == old(self)@.insert(opaque, handle),
    {
        let _ = self.complete(opaque);
        let ghost mid = self.entries@;
        assert(!pending_map(mid).contains_key(opaque));
        assert forall|j: int| 0 <= j < mid.len() implies mid[j].0 != opaque by {
            if mid[j].0 == opaque {
                assert(has_opaque(mid, opaque));
            }
        }
        self.entries.push((opaque, handle));
        proof {
            let s = self.entries@;
            assert forall|o: i32| #[trigger] has_opaque(s, o) <==> (has_opaque(mid, o) || o == opaque) by {
                if has_opaque(s, o) && o != opaque {
                    let j = opaque_index(s, o);
                    assert(mid[j].0 == o);
                }
                if has_opaque(mid, o) {
                    let j = opaque_index(mid, o);
                    assert(s[j].0 == o);
                }
                if o == opaque {
                    assert(s[s.len() - 1].0 == o);
                }
            }
            assert forall|o: i32| has_opaque(s, o) implies pending_map(s)[o] == (if o == opaque {
                handle
            } else {
                pending_map(mid)[o]
            }) by {
                let j = opaque_index(s, o);
                if o != opaque {
                    assert(mid[j].0 == o);
                    let j0 = opaque_index(mid, o);
                } else {
                    assert(!has_opaque(mid, opaque));
                    if j < mid.len() {
                        assert(mid[j].0 == opaque);
                    }
                }
            }
            assert(pending_map(s) =~= pending_map(mid).insert(opaque, handle));
            assert(pending_map(mid).insert(opaque, handle) =~= old(self)@.insert(opaque, handle));
        }
    }

    /// Takes out the entry of `opaque`: when its response arrives, or when
    /// its caller gave up on it (a timeout or a cancellation).
    pub fn complete(&mut self, opaque: i32) -> (r: Option<u64>)
        requires
            old(self).wf(),
        ensures
            final(self).wf(),
            r == old(self)@.get(opaque),
            final(self)@ == old(self)@.remove(opaque),
    {
        let ghost old_s = self.entries@;
        match self.find(opaque) {
            Some(i) => {
                let h = self.entries[i].1;
                self.entries.remove(i);
                proof {
                    let s = self.entries@;
                    assert forall|k: i32| #[trigger] has_opaque(s, k) <==> (has_opaque(old_s, k) && k != opaque) by {
                        if has_opaque(s, k) {
                            let j = opaque_index(s, k);
                            if j < i {
                                assert(old_s[j].0 == k);
                            } else {
                                assert(old_s[j + 1].0 == k);
                            }
                        }
                        if has_opaque(old_s, k) && k != opaque {
                            let j = opaque_index(old_s, k);
                            if j < i {
                                assert(s[j].0 == k);
                            } else {
                                assert(s[j - 1].0 == k);
                            }
                        }
                    }
                    assert forall|k: i32| has_opaque(s, k) implies pending_map(s)[k] == pending_map(old_s)[k] by {
                        let j = opaque_index(s, k);
                        let j0 = opaque_index(old_s, k);
                        if j < i {
                            assert(old_s[j].0 == k);
                        } else {
                            assert(old_s[j + 1].0 == k);
                        }
                    }
                    assert(pending_map(s) =~= pending_map(old_s).remove(opaque));
                }
                Some(h)
            },
            None => {
                assert(self@ =~= old(self)@.remove(opaque));
                None
            },
        }
    }

    /// Empties the table when the connection ends, handing out every waiting
    /// caller, to be completed with a disconnection error.
    pub fn drain(&mut self) -> (r: Vec<u64>)
        requires
            old(self).wf(),
        ensures
            final(self).wf(),
            final(self)@ == Map::<i32, u64>::empty(),
            forall|o: i32| #[trigger] old(self)@.contains_key(o) ==> r@.contains(old(self)@[o]),
            forall|i: int| 0 <= i < r@.len() ==> old(self)@.values().contains(#[trigger] r@[i]),
    {
        let mut r: Vec<u64> = Vec::new();
        let mut i: usize = 0;
        while i < self.entries.len()
            invariant
                i <= self.entries@.len(),
                r@.len() == i,
                forall|j: int| 0 <= j < i ==> r@[j] == self.entries@[j].1,
            decreases self.entries@.len() - i,
        {
            r.push(self.entries[i].1);
            i = i + 1;
        }
        proof {
            let s = self.entries@;
            assert(old(self)@ == pending_map(s));
            assert forall|o: i32| #[trigger] old(self)@.contains_key(o) implies r@.contains(old(self)@[o]) by {
                let j = opaque_index(s, o);
                assert(r@[j] == s[j].1);
            }
            assert forall|j: int| 0 <= j < r@.len() implies old(self)@.values().contains(#[trigger] r@[j]) by {
                let o = s[j].0;
                assert(has_opaque(s, o));
                let k = opaque_index(s, o);
                assert(k == j);
                assert(old(self)@.contains_key(o) && old(self)@[o] == r@[j]);
            }
        }
        self.entries = Vec::new();
        assert(self@ =~= Map::<i32, u64>::empty());
        r
    }
}

proof fn lemma_pending_dom(s: Seq<(i32, u64)>)
    requires
        forall|i: int, j: int| 0 <= i < j < s.len() ==> s[i].0 != s[j].0,
    ensures
        pending_map(s).dom().finite(),
        pending_map(s).dom().len() == s.len(),
    decreases s.len(),
{
    if s.len() == 0 {
        assert(pending_map(s).dom() =~= Set::<i32>::empty());
    } else {
        let t = s.drop_last();
        lemma_pending_dom(t);
        let o = s.last().0;
        assert forall|k: i32| #[trigger] has_opaque(s, k) <==> (has_opaque(t, k) || k == o) by {
            if has_opaque(s, k) && k != o {
                let j = opaque_index(s, k);
                assert(t[j].0 == k);
            }
            if has_opaque(t, k) {
                let j = opaque_index(t, k);
                assert(s[j].0 == k);
            }
            if k == o {
                assert(s[s.len() - 1].0 == k);
            }
        }
        assert(!has_opaque(t, o)) by {
            if has_opaque(t, o) {
                let j = opaque_index(t, o);
                assert(s[j].0 == s[s.len() - 1].0);
            }
        }
        assert(pending_map(s).dom() =~= pending_map(t).dom().insert(o));
    }
}

/// No stale completions: once the entry of an opaque id is taken out (its
/// caller timed out, or its response arrived), the id is no longer pending,
/// and a later request that reuses the id is the one its next response
/// completes.
pub proof fn lemma_pending_no_stale(m: Map<i32, u64>, opaque: i32, stale: u64, fresh: u64)
    ensures
        !m.insert(opaque, stale).remove(opaque).contains_key(opaque),
        m.insert(opaque, stale).remove(opaque).insert(opaque, fresh).get(opaque) == Some(fresh),
        m.insert(opaque, stale).remove(opaque).insert(opaque, fresh).remove(opaque) == m.remove(
            opaque,
        ),
{
    assert(m.insert(opaque, stale).remove(opaque).insert(opaque, fresh).remove(opaque) =~= m.remove(
        opaque,
    ));
}

/// The per-connection counter of opaque ids: it starts at 1 and wraps
/// around at the end of the `i32` range.
pub struct OpaqueCounter {
    pub next: i32,
}

pub open spec fn wrapping_next(x: i32) -> i32 {
    if x == i32::MAX {
        i32::MIN
    } else {
        (x + 1) as i32
    }
}

impl OpaqueCounter {
    pub fn new() -> (r: OpaqueCounter)
        ensures
            r.next == 1,
    {
        OpaqueCounter { next: 1 }
    }

    /// A fresh opaque id.
    pub fn next_opaque(&mut self) -> (r: i32)
        ensures
            r == old(self).next,
            final(self).next == wrapping_next(old(self).next),
    {
        let r = self.next;
        self.next = if r == i32::MAX {
            i32::MIN
        } else {
            r + 1
        };
        r
    }
}

/// What the reader of a connection does with an inbound command: a
/// response completes the caller waiting under its opaque id, if any; a
/// command the server initiated completes nothing.
pub fn route_inbound(pending: &mut PendingRequests, cmd: &RemotingCommand) -> (r: Option<u64>)
    requires
        old(pending).wf(),
    ensures
        final(pending).wf(),
        is_response_flag(cmd.header.flag) ==> r == old(pending)@.get(cmd.header.opaque),
        is_response_flag(cmd.header.flag) ==> final(pending)@ == old(pending)@.remove(cmd.header.opaque),
        !is_response_flag(cmd.header.flag) ==> r.is_none() && final(pending)@ == old(pending)@,
{
    if cmd.is_response_type() {
        pending.complete(cmd.header.opaque)
    } else {
        None
    }
}

} // verus!
