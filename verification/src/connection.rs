//! The connection pool: per-endpoint LIFO free-lists of idle connections with
//! a bounded size, idle eviction, dynamic endpoint registration and shutdown.
//!
//! The pool is a pure state machine over any transport type `S`: it stores and
//! hands out connections and decides when one must be opened, but never opens
//! one itself. `get` either returns an idle fresh connection or directs the
//! caller to connect to a named endpoint; the caller supplies the clock as a
//! millisecond timestamp.

use vstd::prelude::*;

use crate::errors::FastDFSError;
use crate::protocol::str_eq;

verus! {

/// One connection to a server: the transport, the endpoint it is connected
/// to, and when it was last used, in the caller's millisecond clock.
pub struct Connection<S> {
    /// The transport the connection owns exclusively.
    pub stream: S,
    /// The endpoint the transport is connected to, as `host:port`.
    pub addr: String,
    /// When the connection was last used, in milliseconds.
    pub last_used: u64,
}

impl<S> Connection<S> {
    /// A connection around a freshly established transport, last used now.
    pub fn new(stream: S, addr: String, now_ms: u64) -> (c: Self)
        ensures
            c.stream == stream,
            c.addr == addr,
            c.last_used == now_ms,
    {
        Connection { stream, addr, last_used: now_ms }
    }

    /// When the connection was last used.
    pub fn last_used(&self) -> (t: u64)
        ensures
            t == self.last_used,
    {
        self.last_used
    }

    /// The endpoint the connection is connected to.
    pub fn addr(&self) -> (a: &str)
        ensures
            a@ == self.addr@,
    {
        self.addr.as_str()
    }

    /// Marks the connection as used now; callers do so after a completed read
    /// or write.
    pub fn touch(&mut self, now_ms: u64)
        ensures
            final(self).stream == old(self).stream,
            final(self).addr == old(self).addr,
            final(self).last_used == now_ms,
    {
        self.last_used = now_ms;
    }
}

/// How old a connection is at `now`: zero when the clock ran backwards.
pub open spec fn spec_conn_age(last_used: u64, now: u64) -> u64 {
    if last_used > now {
        0
    } else {
        (now - last_used) as u64
    }
}

/// Fresh enough to hand out: strictly younger than the idle threshold.
pub open spec fn spec_conn_fresh<S>(c: Connection<S>, now: u64, idle: u64) -> bool {
    spec_conn_age(c.last_used, now) < idle
}

/// Fresh enough to keep in a free-list: at most the idle threshold old.
pub open spec fn spec_conn_keep<S>(c: Connection<S>, now: u64, idle: u64) -> bool {
    spec_conn_age(c.last_used, now) <= idle
}

fn conn_age(last_used: u64, now_ms: u64) -> (a: u64)
    ensures
        a == spec_conn_age(last_used, now_ms),
{
    if last_used > now_ms {
        0
    } else {
        now_ms - last_used
    }
}

/// The index of the first free-list keyed by `a`; the length when none is.
pub open spec fn spec_pool_find<S>(
    ls: Seq<(Seq<char>, Seq<Connection<S>>)>,
    a: Seq<char>,
) -> int
    decreases ls.len(),
{
    if ls.len() == 0 {
        0
    } else if ls[0].0 == a {
        0
    } else {
        1 + spec_pool_find(ls.drop_first(), a)
    }
}

pub(crate) proof fn lemma_pool_find_from_scan<S>(
    ls: Seq<(Seq<char>, Seq<Connection<S>>)>,
    a: Seq<char>,
    i: int,
)
    requires
        0 <= i <= ls.len(),
        forall|j: int| 0 <= j < i ==> ls[j].0 != a,
        i < ls.len() ==> ls[i].0 == a,
    ensures
        spec_pool_find(ls, a) == i,
    decreases ls.len(),
{
    if ls.len() > 0 && ls[0].0 != a {
        lemma_pool_find_from_scan(ls.drop_first(), a, i - 1);
    }
}

/// A free-list with the endpoint added: unchanged when a list for it exists,
/// extended by an empty list otherwise.
pub open spec fn spec_pool_register<S>(
    ls: Seq<(Seq<char>, Seq<Connection<S>>)>,
    a: Seq<char>,
) -> Seq<(Seq<char>, Seq<Connection<S>>)> {
    if spec_pool_find(ls, a) < ls.len() {
        ls
    } else {
        ls.push((a, Seq::empty()))
    }
}

/// The index of the youngest-position fresh connection, scanning from the top
/// of the LIFO; -1 when every entry is stale or the list is empty.
pub open spec fn spec_fresh_top<S>(l: Seq<Connection<S>>, now: u64, idle: u64) -> int
    decreases l.len(),
{
    if l.len() == 0 {
        -1
    } else if spec_conn_fresh(l.last(), now, idle) {
        l.len() - 1
    } else {
        spec_fresh_top(l.drop_last(), now, idle)
    }
}

pub(crate) proof fn lemma_fresh_top_from_scan<S>(
    l: Seq<Connection<S>>,
    now: u64,
    idle: u64,
    k: int,
)
    requires
        -1 <= k < l.len(),
        forall|j: int| k < j < l.len() ==> !spec_conn_fresh(l[j], now, idle),
        k >= 0 ==> spec_conn_fresh(l[k], now, idle),
    ensures
        spec_fresh_top(l, now, idle) == k,
    decreases l.len(),
{
    if l.len() > 0 {
        if spec_conn_fresh(l.last(), now, idle) {
            assert(k == l.len() - 1);
        } else {
            assert(k < l.len() - 1);
            lemma_fresh_top_from_scan(l.drop_last(), now, idle, k);
        }
    }
}

/// The connections of a free-list worth keeping at `now`, oldest first.
pub open spec fn spec_clean_list<S>(
    l: Seq<Connection<S>>,
    now: u64,
    idle: u64,
) -> Seq<Connection<S>>
    decreases l.len(),
{
    if l.len() == 0 {
        Seq::empty()
    } else if spec_conn_keep(l.last(), now, idle) {
        spec_clean_list(l.drop_last(), now, idle).push(l.last())
    } else {
        spec_clean_list(l.drop_last(), now, idle)
    }
}

/// No two free-lists share an endpoint.
pub open spec fn spec_pool_wf<S>(ls: Seq<(Seq<char>, Seq<Connection<S>>)>) -> bool {
    forall|i: int, j: int| 0 <= i < j < ls.len() ==> ls[i].0 != ls[j].0
}

/// Two distinct free-lists of a well-formed pool have distinct endpoints.
proof fn lemma_pool_wf_pair<S>(ls: Seq<(Seq<char>, Seq<Connection<S>>)>, p: int, q: int)
    requires
        spec_pool_wf(ls),
        0 <= p < q < ls.len(),
    ensures
        ls[p].0 != ls[q].0,
{
}

/// Whether `get` falls back to the default endpoint: no endpoint given, or
/// an empty one.
pub open spec fn spec_wants_default(addr: Option<&str>) -> bool {
    match addr {
        Some(s) => s@.len() == 0,
        None => true,
    }
}

/// What acquiring from the pool yields: an idle connection taken from a
/// free-list, or the endpoint a new connection must be opened to.
pub enum PoolAcquire<S> {
    /// An idle fresh connection, now owned exclusively by the caller.
    Reused(Connection<S>),
    /// No idle fresh connection exists: connect to this endpoint.
    Connect(String),
}

/// A pool of idle connections, one LIFO free-list per endpoint.
pub struct ConnectionPool<S> {
    addrs: Vec<String>,
    max_conns: usize,
    connect_timeout: u64,
    idle_timeout: u64,
    pools: Vec<(String, Vec<Connection<S>>)>,
    closed: bool,
}

impl<S> ConnectionPool<S> {
    /// The free-lists: endpoint and idle connections, oldest first.
    pub closed spec fn lists(&self) -> Seq<(Seq<char>, Seq<Connection<S>>)> {
        Seq::new(self.pools@.len(), |i: int| (self.pools@[i].0@, self.pools@[i].1@))
    }

    /// Whether the pool has been shut down.
    pub closed spec fn spec_closed(&self) -> bool {
        self.closed
    }

    /// The configured endpoints, first one default.
    pub closed spec fn spec_addrs(&self) -> Seq<Seq<char>> {
        Seq::new(self.addrs@.len(), |i: int| self.addrs@[i]@)
    }

    /// The idle cap per endpoint.
    pub closed spec fn spec_max_conns(&self) -> usize {
        self.max_conns
    }

    /// The connect deadline in milliseconds.
    pub closed spec fn spec_connect_timeout(&self) -> u64 {
        self.connect_timeout
    }

    /// The idle threshold in milliseconds.
    pub closed spec fn spec_idle_timeout(&self) -> u64 {
        self.idle_timeout
    }

    /// No two free-lists share an endpoint.
    pub open spec fn wf(&self) -> bool {
        spec_pool_wf(self.lists())
    }

    /// The settings and the closed flag of both pools agree.
    pub open spec fn same_settings(&self, other: &Self) -> bool {
        &&& self.spec_addrs() == other.spec_addrs()
        &&& self.spec_max_conns() == other.spec_max_conns()
        &&& self.spec_connect_timeout() == other.spec_connect_timeout()
        &&& self.spec_idle_timeout() == other.spec_idle_timeout()
        &&& self.spec_closed() == other.spec_closed()
    }

    /// An open pool for the given endpoints, every free-list empty.
    pub fn new(addrs: Vec<String>, max_conns: usize, connect_timeout: u64, idle_timeout: u64) -> (p:
        Self)
        ensures
            p.wf(),
            !p.spec_closed(),
            p.spec_addrs() == Seq::new(addrs@.len(), |i: int| addrs@[i]@),
            p.spec_max_conns() == max_conns,
            p.spec_connect_timeout() == connect_timeout,
            p.spec_idle_timeout() == idle_timeout,
            forall|k: int| 0 <= k < p.lists().len() ==> p.lists()[k].1.len() == 0,
            p.lists().len() <= addrs@.len(),
    {
        let n = addrs.len();
        let mut pools: Vec<(String, Vec<Connection<S>>)> = Vec::new();
        let mut i: usize = 0;
        while i < n
            invariant
                0 <= i <= n,
                n == addrs@.len(),
                pools@.len() <= i,
                forall|p: int, q: int|
                    0 <= p < q < pools@.len() ==> pools@[p].0@ != pools@[q].0@,
                forall|k: int| 0 <= k < pools@.len() ==> pools@[k].1@.len() == 0,
            decreases n - i,
        {
            let m = pools.len();
            let mut k: usize = 0;
            let mut found = false;
            while k < m && !found
                invariant
                    0 <= k <= m,
                    m == pools@.len(),
                    i < n,
                    n == addrs@.len(),
                    !found ==> forall|j: int| 0 <= j < k ==> pools@[j].0@ != addrs@[i as int]@,
                decreases m - k + (if found {
                    0int
                } else {
                    1int
                }),
            {
                if str_eq(pools[k].0.as_str(), addrs[i].as_str()) {
                    found = true;
                } else {
                    k = k + 1;
                }
            }
            if !found {
                let ghost old_pools = pools@;
                pools.push((addrs[i].clone(), Vec::new()));
                proof {
                    assert forall|p: int, q: int|
                        0 <= p < q < pools@.len() implies pools@[p].0@ != pools@[q].0@ by {
                        if q < pools@.len() - 1 {
                            assert(old_pools[p].0@ != old_pools[q].0@);
                        } else {
                            assert(pools@[p].0@ == old_pools[p].0@);
                            assert(old_pools[p].0@ != addrs@[i as int]@);
                        }
                    }
                }
            }
            i = i + 1;
        }
        let p = ConnectionPool {
            addrs,
            max_conns,
            connect_timeout,
            idle_timeout,
            pools,
            closed: false,
        };
        p
    }
}

impl<S> ConnectionPool<S> {
    /// Takes a connection for `addr`, the first configured endpoint when none
    /// is given. Fails when the pool is closed, or when no endpoint is given
    /// and none is configured. Otherwise the endpoint is registered, its LIFO
    /// is popped with stale entries discarded, and the first fresh connection
    /// is returned; when none is left the caller is directed to open a new
    /// connection to exactly that endpoint.
    pub fn get(&mut self, addr: Option<&str>, now_ms: u64) -> (r: Result<
        PoolAcquire<S>,
        FastDFSError,
    >)
        requires
            old(self).wf(),
        ensures
            final(self).wf(),
            old(self).spec_closed() ==> (r matches Err(FastDFSError::ClientClosed) && *final(self)
                == *old(self)),
            (!old(self).spec_closed() && spec_wants_default(addr) && old(self).spec_addrs().len()
                == 0) ==> (r matches Err(FastDFSError::InvalidArgument(_)) && *final(self) == *old(
            self)),
            (!old(self).spec_closed() && (!spec_wants_default(addr) || old(self).spec_addrs().len()
                > 0)) ==> ({
                let a = if spec_wants_default(addr) {
                    old(self).spec_addrs()[0]
                } else {
                    addr.unwrap()@
                };
                let ls1 = spec_pool_register(old(self).lists(), a);
                let f = spec_pool_find(ls1, a);
                let top = spec_fresh_top(ls1[f].1, now_ms, old(self).spec_idle_timeout());
                &&& final(self).same_settings(old(self))
                &&& (top >= 0 ==> (r matches Ok(PoolAcquire::Reused(c)) && c == ls1[f].1[top]
                    && final(self).lists() == ls1.update(f, (a, ls1[f].1.take(top)))))
                &&& (top < 0 ==> (r matches Ok(PoolAcquire::Connect(s2)) && s2@ == a
                    && final(self).lists() == ls1.update(f, (a, Seq::<Connection<S>>::empty()))))
            }),
    {
        if self.closed {
            return Err(FastDFSError::ClientClosed);
        }
        let wants_default = match addr {
            Some(s) => s.as_bytes().len() == 0,
            None => true,
        };
        let a: String;
        if wants_default {
            if self.addrs.len() == 0 {
                return Err(
                    FastDFSError::InvalidArgument(String::from_str("No addresses available")),
                );
            }
            a = self.addrs[0].clone();
        } else {
            a = match addr {
                Some(s) => s.to_owned(),
                None => String::new(),
            };
        }
        let ghost av = a@;
        let ghost ls0 = self.lists();
        // Find the endpoint's free-list, creating it when absent.
        let n = self.pools.len();
        let mut idx: usize = 0;
        let mut found = false;
        while idx < n && !found
            invariant
                0 <= idx <= n,
                n == self.pools@.len(),
                *self == *old(self),
                av == a@,
                !found ==> forall|j: int| 0 <= j < idx ==> self.lists()[j].0 != av,
                found ==> idx < n && self.lists()[idx as int].0 == av,
            decreases n - idx + (if found {
                0int
            } else {
                1int
            }),
        {
            if str_eq(self.pools[idx].0.as_str(), a.as_str()) {
                found = true;
            } else {
                idx = idx + 1;
            }
        }
        let ghost ls1 = spec_pool_register(ls0, av);
        if !found {
            proof {
                lemma_pool_find_from_scan(ls0, av, n as int);
            }
            self.pools.push((a.clone(), Vec::new()));
            proof {
                assert(self.lists() =~= ls1);
            }
        } else {
            proof {
                lemma_pool_find_from_scan(ls0, av, idx as int);
                assert(ls1 == ls0);
            }
        }
        proof {
            lemma_pool_find_from_scan(ls1, av, idx as int);
            assert forall|p: int, q: int|
                0 <= p < q < ls1.len() implies ls1[p].0 != ls1[q].0 by {
                if q < ls0.len() {
                    lemma_pool_wf_pair(ls0, p, q);
                } else if ls1.len() > ls0.len() {
                    assert(ls1[p].0 == ls0[p].0);
                }
            }
        }
        let ghost idle = self.idle_timeout;
        let (key, mut list) = self.pools.remove(idx);
        let ghost pools_rm = self.pools@;
        let ghost lfull = list@;
        proof {
            assert(list@ == lfull.take(list@.len() as int));
        }
        let mut taken: Option<Connection<S>> = None;
        while taken.is_none() && list.len() > 0
            invariant
                list@.len() <= lfull.len(),
                taken is None ==> list@ == lfull.take(list@.len() as int),
                taken is None ==> forall|j: int|
                    list@.len() <= j < lfull.len() ==> !spec_conn_fresh(lfull[j], now_ms, idle),
                taken matches Some(c) ==> ({
                    let top = spec_fresh_top(lfull, now_ms, idle);
                    &&& top >= 0
                    &&& c == lfull[top]
                    &&& list@ == lfull.take(top)
                }),
                idle == self.idle_timeout,
            decreases list@.len(),
        {
            match list.pop() {
                None => {
                },
                Some(conn) => {
                    let ghost k = list@.len() as int;
                    proof {
                        assert(lfull.take(k + 1).drop_last() =~= lfull.take(k));
                        assert(conn == lfull[k]);
                    }
                    let age = conn_age(conn.last_used, now_ms);
                    if age < self.idle_timeout {
                        proof {
                            lemma_fresh_top_from_scan(lfull, now_ms, idle, k);
                        }
                        taken = Some(conn);
                    }
                },
            }
        }
        proof {
            if taken is None {
                lemma_fresh_top_from_scan(lfull, now_ms, idle, -1);
                assert(list@ =~= Seq::<Connection<S>>::empty());
            }
        }
        self.pools.insert(idx, (key, list));
        proof {
            let ghost top = spec_fresh_top(lfull, now_ms, idle);
            if taken is Some {
                assert(self.lists() =~= ls1.update(idx as int, (av, lfull.take(top))));
                lemma_pool_wf_update(ls1, idx as int, lfull.take(top));
            } else {
                assert(self.lists() =~= ls1.update(
                    idx as int,
                    (av, Seq::<Connection<S>>::empty()),
                ));
                lemma_pool_wf_update(ls1, idx as int, Seq::<Connection<S>>::empty());
            }
        }
        match taken {
            Some(conn) => Ok(PoolAcquire::Reused(conn)),
            None => Ok(PoolAcquire::Connect(a)),
        }
    }

    /// Returns a connection to its endpoint's free-list. The connection is
    /// dropped instead when the pool is closed, the endpoint is unknown, the
    /// list is full, or the connection has gone stale; and pushing it evicts
    /// the stale entries of the list.
    pub fn put(&mut self, conn: Connection<S>, now_ms: u64)
        requires
            old(self).wf(),
        ensures
            final(self).wf(),
            old(self).spec_closed() ==> *final(self) == *old(self),
            !old(self).spec_closed() ==> ({
                let ls = old(self).lists();
                let f = spec_pool_find(ls, conn.addr@);
                let idle = old(self).spec_idle_timeout();
                &&& (f == ls.len() ==> *final(self) == *old(self))
                &&& (f < ls.len() && ls[f].1.len() >= old(self).spec_max_conns() ==> *final(self)
                    == *old(self))
                &&& (f < ls.len() && ls[f].1.len() < old(self).spec_max_conns() && !spec_conn_keep(
                    conn,
                    now_ms,
                    idle,
                ) ==> *final(self) == *old(self))
                &&& (f < ls.len() && ls[f].1.len() < old(self).spec_max_conns() && spec_conn_keep(
                    conn,
                    now_ms,
                    idle,
                ) ==> (final(self).same_settings(old(self)) && final(self).lists() == ls.update(
                    f,
                    (ls[f].0, spec_clean_list(ls[f].1, now_ms, idle).push(conn)),
                )))
            }),
    {
        if self.closed {
            return ;
        }
        let ghost ls0 = self.lists();
        let n = self.pools.len();
        let mut idx: usize = 0;
        let mut found = false;
        while idx < n && !found
            invariant
                0 <= idx <= n,
                n == self.pools@.len(),
                *self == *old(self),
                !found ==> forall|j: int| 0 <= j < idx ==> self.lists()[j].0 != conn.addr@,
                found ==> idx < n && self.lists()[idx as int].0 == conn.addr@,
            decreases n - idx + (if found {
                0int
            } else {
                1int
            }),
        {
            if str_eq(self.pools[idx].0.as_str(), conn.addr.as_str()) {
                found = true;
            } else {
                idx = idx + 1;
            }
        }
        if !found {
            proof {
                lemma_pool_find_from_scan(ls0, conn.addr@, n as int);
            }
            return ;
        }
        proof {
            lemma_pool_find_from_scan(ls0, conn.addr@, idx as int);
        }
        if self.pools[idx].1.len() >= self.max_conns {
            return ;
        }
        let age = conn_age(conn.last_used, now_ms);
        if age > self.idle_timeout {
            return ;
        }
        let ghost idle = self.idle_timeout;
        let (key, mut list) = self.pools.remove(idx);
        let ghost lfull = list@;
        let mut kept: Vec<Connection<S>> = Vec::new();
        let ghost mut i: int = 0;
        proof {
            assert(lfull.take(0) =~= Seq::<Connection<S>>::empty());
        }
        while list.len() > 0
            invariant
                0 <= i <= lfull.len(),
                idle == self.idle_timeout,
                list@ == lfull.skip(i),
                kept@ == spec_clean_list(lfull.take(i), now_ms, idle),
            decreases list@.len(),
        {
            let c = list.remove(0);
            proof {
                assert(c == lfull[i]);
                assert(list@ =~= lfull.skip(i + 1));
                assert(lfull.take(i + 1).drop_last() =~= lfull.take(i));
                assert(lfull.take(i + 1).last() == lfull[i]);
            }
            let age_c = conn_age(c.last_used, now_ms);
            if age_c <= self.idle_timeout {
                kept.push(c);
            }
            proof {
                i = i + 1;
            }
        }
        proof {
            assert(lfull.take(i) =~= lfull);
        }
        kept.push(conn);
        self.pools.insert(idx, (key, kept));
        proof {
            assert(self.lists() =~= ls0.update(
                idx as int,
                (ls0[idx as int].0, spec_clean_list(lfull, now_ms, idle).push(conn)),
            ));
            lemma_pool_wf_update(ls0, idx as int, spec_clean_list(lfull, now_ms, idle).push(conn));
        }
    }

    /// Registers an endpoint discovered at runtime: gives it an empty
    /// free-list when it has none; does nothing on a closed pool.
    pub fn add_addr(&mut self, addr: String)
        requires
            old(self).wf(),
        ensures
            final(self).wf(),
            old(self).spec_closed() ==> *final(self) == *old(self),
            !old(self).spec_closed() ==> (final(self).same_settings(old(self))
                && final(self).lists() == spec_pool_register(old(self).lists(), addr@)),
    {
        if self.closed {
            return ;
        }
        let ghost ls0 = self.lists();
        let n = self.pools.len();
        let mut idx: usize = 0;
        let mut found = false;
        while idx < n && !found
            invariant
                0 <= idx <= n,
                n == self.pools@.len(),
                *self == *old(self),
                !found ==> forall|j: int| 0 <= j < idx ==> self.lists()[j].0 != addr@,
                found ==> idx < n && self.lists()[idx as int].0 == addr@,
            decreases n - idx + (if found {
                0int
            } else {
                1int
            }),
        {
            if str_eq(self.pools[idx].0.as_str(), addr.as_str()) {
                found = true;
            } else {
                idx = idx + 1;
            }
        }
        if found {
            proof {
                lemma_pool_find_from_scan(ls0, addr@, idx as int);
            }
            return ;
        }
        proof {
            lemma_pool_find_from_scan(ls0, addr@, n as int);
        }
        let ghost av = addr@;
        self.pools.push((addr, Vec::new()));
        proof {
            assert(self.lists() =~= spec_pool_register(ls0, av));
            assert forall|p: int, q: int|
                0 <= p < q < self.lists().len() implies self.lists()[p].0 != self.lists()[q].0 by {
                if q < ls0.len() {
                    lemma_pool_wf_pair(ls0, p, q);
                    assert(self.lists()[p].0 == ls0[p].0);
                    assert(self.lists()[q].0 == ls0[q].0);
                } else {
                    assert(self.lists()[p].0 == ls0[p].0);
                }
            }
        }
    }

    /// Shuts the pool down: every free-list is dropped and every later `get`
    /// fails with `ClientClosed`. Safe to call more than once.
    pub fn close(&mut self)
        ensures
            final(self).wf(),
            final(self).spec_closed(),
            final(self).lists().len() == 0,
            final(self).spec_addrs() == old(self).spec_addrs(),
            final(self).spec_max_conns() == old(self).spec_max_conns(),
            final(self).spec_connect_timeout() == old(self).spec_connect_timeout(),
            final(self).spec_idle_timeout() == old(self).spec_idle_timeout(),
    {
        self.closed = true;
        self.pools = Vec::new();
    }
}

/// Replacing the connections of one free-list keeps the endpoints distinct.
proof fn lemma_pool_wf_update<S>(
    ls: Seq<(Seq<char>, Seq<Connection<S>>)>,
    f: int,
    l2: Seq<Connection<S>>,
)
    requires
        spec_pool_wf(ls),
        0 <= f < ls.len(),
    ensures
        spec_pool_wf(ls.update(f, (ls[f].0, l2))),
{
    let ls2 = ls.update(f, (ls[f].0, l2));
    assert forall|p: int, q: int| 0 <= p < q < ls2.len() implies ls2[p].0 != ls2[q].0 by {
        lemma_pool_wf_pair(ls, p, q);
        assert(ls2[p].0 == ls[p].0);
        assert(ls2[q].0 == ls[q].0);
    }
}

/// No connection appears twice across the free-lists.
pub open spec fn spec_pool_conns_distinct<S>(ls: Seq<(Seq<char>, Seq<Connection<S>>)>) -> bool {
    forall|i: int, j: int, p: int, q: int|
        0 <= i < ls.len() && 0 <= j < ls.len() && 0 <= p < ls[i].1.len() && 0 <= q < ls[j].1.len()
            && (i != j || p != q) ==> ls[i].1[p] != ls[j].1[q]
}

/// The fresh-top index stays within the list and points at a fresh entry.
pub proof fn lemma_fresh_top_bounds<S>(l: Seq<Connection<S>>, now: u64, idle: u64)
    ensures
        -1 <= spec_fresh_top(l, now, idle) < l.len(),
        spec_fresh_top(l, now, idle) >= 0 ==> spec_conn_fresh(
            l[spec_fresh_top(l, now, idle)],
            now,
            idle,
        ),
    decreases l.len(),
{
    if l.len() > 0 && !spec_conn_fresh(l.last(), now, idle) {
        lemma_fresh_top_bounds(l.drop_last(), now, idle);
    }
}

/// Law: when the free-lists hold pairwise distinct connections, the one that
/// `get` hands out is in no free-list of the pool afterwards.
pub proof fn lemma_acquired_not_pooled<S>(
    ls: Seq<(Seq<char>, Seq<Connection<S>>)>,
    f: int,
    now: u64,
    idle: u64,
)
    requires
        spec_pool_conns_distinct(ls),
        0 <= f < ls.len(),
        spec_fresh_top(ls[f].1, now, idle) >= 0,
    ensures
        ({
            let top = spec_fresh_top(ls[f].1, now, idle);
            let c = ls[f].1[top];
            let ls2 = ls.update(f, (ls[f].0, ls[f].1.take(top)));
            forall|i: int, p: int|
                0 <= i < ls2.len() && 0 <= p < ls2[i].1.len() ==> ls2[i].1[p] != c
        }),
{
    let top = spec_fresh_top(ls[f].1, now, idle);
    lemma_fresh_top_bounds(ls[f].1, now, idle);
    let c = ls[f].1[top];
    let ls2 = ls.update(f, (ls[f].0, ls[f].1.take(top)));
    assert forall|i: int, p: int|
        0 <= i < ls2.len() && 0 <= p < ls2[i].1.len() implies ls2[i].1[p] != c by {
        if i == f {
            assert(ls2[i].1[p] == ls[f].1[p]);
            assert(p != top);
        } else {
            assert(ls2[i].1[p] == ls[i].1[p]);
        }
    }
}

/// Law: releasing a fresh connection to an open pool whose free-list is not
/// full and holds no stale entries grows that list by exactly one, and the
/// released connection sits on top of the LIFO.
pub proof fn lemma_release_grows<S>(
    l: Seq<Connection<S>>,
    conn: Connection<S>,
    now: u64,
    idle: u64,
)
    requires
        forall|j: int| 0 <= j < l.len() ==> spec_conn_keep(l[j], now, idle),
    ensures
        spec_clean_list(l, now, idle) == l,
        spec_clean_list(l, now, idle).push(conn).len() == l.len() + 1,
        spec_clean_list(l, now, idle).push(conn).last() == conn,
    decreases l.len(),
{
    if l.len() == 0 {
        assert(spec_clean_list(l, now, idle) =~= l);
    } else {
        let d = l.drop_last();
        assert forall|j: int| 0 <= j < d.len() implies spec_conn_keep(d[j], now, idle) by {
            assert(d[j] == l[j]);
        }
        lemma_release_grows(d, conn, now, idle);
        assert(spec_clean_list(l, now, idle) =~= l);
    }
}

} // verus!
