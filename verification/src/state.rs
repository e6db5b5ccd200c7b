//! Server-side tenant state: the per-subdomain pool of idle tunnel sockets
//! and the registry that maps subdomains to tenants.
//!
//! Sockets are known here by opaque identifiers; the network layer owns the
//! actual TCP streams and hands in liveness-probe results and clock readings
//! as plain values. Time is a monotonic reading in milliseconds.

use vstd::prelude::*;
use crate::text::str_eq;
use crate::CLEANUP_TIMEOUT_MS;

verus! {

/// One tenant: the state behind one registered subdomain.
///
/// `available_sockets` is a LIFO pool: the most recently accepted socket sits
/// at the end and is handed out first, being the most likely to still be
/// alive.
pub struct Client {
    /// Identifiers of the idle tunnel sockets, oldest first.
    pub available_sockets: Vec<u64>,
    /// The ephemeral port the tenant's ingress listener was bound to.
    pub port: Option<u16>,
    /// Upper bound on the pool; excess accepted sockets are discarded.
    pub max_sockets: u8,
    /// When a socket was last borrowed from the pool, in milliseconds.
    pub last_connection_time: u64,
}

/// The survivors of a liveness sweep over `pool`, where `alive[i]` reports the
/// writable-readiness probe of `pool[i]`: every socket is popped, the live
/// ones are kept in pop order, so the sweep reverses the pool.
pub open spec fn surviving(pool: Seq<u64>, alive: Seq<bool>) -> Seq<u64>
    recommends
        pool.len() == alive.len(),
    decreases pool.len(),
{
    if pool.len() == 0 {
        Seq::<u64>::empty()
    } else if alive.last() {
        seq![pool.last()] + surviving(pool.drop_last(), alive.drop_last())
    } else {
        surviving(pool.drop_last(), alive.drop_last())
    }
}

/// A sweep never grows the pool.
pub proof fn lemma_surviving_len(pool: Seq<u64>, alive: Seq<bool>)
    ensures
        surviving(pool, alive).len() <= pool.len(),
    decreases pool.len(),
{
    if pool.len() > 0 {
        lemma_surviving_len(pool.drop_last(), alive.drop_last());
    }
}

/// How one borrow attempt relates the tenant's state before and after:
/// sockets are popped newest-first, dead ones are discarded, and the first
/// live one is returned; `alive[i]` reports the probe of `pool[i]`. The
/// borrow time is recorded even when the pool turns out to be empty.
pub open spec fn take_relation(
    pre: Client,
    post: Client,
    alive: Seq<bool>,
    r: Option<u64>,
    now: u64,
) -> bool {
    &&& post.max_sockets == pre.max_sockets
    &&& post.port == pre.port
    &&& post.last_connection_time == now
    &&& match alive.index_of_last(true) {
        Some(k) => {
            &&& alive[k]
            &&& r == Some(pre.available_sockets@[k])
            &&& post.available_sockets@ == pre.available_sockets@.take(k)
        },
        None => r is None && post.available_sockets@.len() == 0,
    }
    &&& r is Some ==> post.available_sockets@.len() < pre.available_sockets@.len()
}

/// Whether the tenant is ripe for eviction at time `now`: its pool is empty
/// and no borrow has happened within the cleanup timeout.
pub open spec fn spec_should_cleanup(c: Client, now: u64) -> bool {
    &&& c.available_sockets@.len() == 0
    &&& now >= c.last_connection_time
    &&& now - c.last_connection_time > CLEANUP_TIMEOUT_MS
}

impl Client {
    /// The pool never holds more than `max_sockets` sockets.
    pub open spec fn wf(&self) -> bool {
        self.available_sockets@.len() <= self.max_sockets as int
    }

    /// Creates a tenant with an empty pool; `now` is the creation time.
    pub fn new(max_sockets: u8, now: u64) -> (c: Client)
        ensures
            c.wf(),
            c.available_sockets@.len() == 0,
            c.port is None,
            c.max_sockets == max_sockets,
            c.last_connection_time == now,
    {
        Client {
            available_sockets: Vec::new(),
            port: None,
            max_sockets,
            last_connection_time: now,
        }
    }

    /// Records the ephemeral port the tenant's ingress listener was bound to.
    pub fn set_port(&mut self, port: u16)
        ensures
            final(self).port == Some(port),
            final(self).available_sockets@ == old(self).available_sockets@,
            final(self).max_sockets == old(self).max_sockets,
            final(self).last_connection_time == old(self).last_connection_time,
    {
        self.port = Some(port);
    }

    /// The acceptor's decision on one freshly accepted socket: keep it iff
    /// the pool is below its bound, else discard it. With `max_sockets == 0`
    /// every socket is discarded.
    pub fn offer_socket(&mut self, socket: u64) -> (accepted: bool)
        requires
            old(self).wf(),
        ensures
            final(self).wf(),
            accepted == (old(self).available_sockets@.len() < old(self).max_sockets as int),
            accepted ==> final(self).available_sockets@ == old(self).available_sockets@.push(
                socket,
            ),
            !accepted ==> final(self).available_sockets@ == old(self).available_sockets@,
            final(self).port == old(self).port,
            final(self).max_sockets == old(self).max_sockets,
            final(self).last_connection_time == old(self).last_connection_time,
    {
        if self.available_sockets.len() < self.max_sockets as usize {
            self.available_sockets.push(socket);
            true
        } else {
            false
        }
    }

    /// The acceptor's liveness sweep, run when no socket arrives within the
    /// accept timeout: pops every socket and keeps exactly those whose
    /// writable-readiness probe (`alive[i]`, for `pool[i]`) did not report
    /// write-closed, in pop order.
    pub fn sweep(&mut self, alive: &Vec<bool>)
        requires
            old(self).wf(),
            alive@.len() == old(self).available_sockets@.len(),
        ensures
            final(self).wf(),
            final(self).available_sockets@ == surviving(old(self).available_sockets@, alive@),
            final(self).port == old(self).port,
            final(self).max_sockets == old(self).max_sockets,
            final(self).last_connection_time == old(self).last_connection_time,
    {
        let ghost p0 = self.available_sockets@;
        let mut kept: Vec<u64> = Vec::new();
        let mut i: usize = self.available_sockets.len();
        proof {
            assert(p0.take(i as int) =~= p0);
            assert(alive@.take(i as int) =~= alive@);
            assert(kept@ + surviving(p0, alive@) =~= surviving(p0, alive@));
        }
        while i > 0
            invariant
                i == self.available_sockets@.len(),
                i <= p0.len(),
                p0.len() == alive@.len(),
                p0 == old(self).available_sockets@,
                self.available_sockets@ == p0.take(i as int),
                kept@ + surviving(p0.take(i as int), alive@.take(i as int)) == surviving(
                    p0,
                    alive@,
                ),
                self.port == old(self).port,
                self.max_sockets == old(self).max_sockets,
                self.last_connection_time == old(self).last_connection_time,
            decreases i,
        {
            i = i - 1;
            let ghost k0 = kept@;
            let s = self.available_sockets.pop().unwrap();
            proof {
                let hi = (i + 1) as int;
                assert(p0.take(hi).drop_last() =~= p0.take(i as int));
                assert(alive@.take(hi).drop_last() =~= alive@.take(i as int));
                assert(self.available_sockets@ =~= p0.take(i as int));
                assert(p0.take(hi).last() == p0[i as int]);
                assert(alive@.take(hi).last() == alive@[i as int]);
            }
            if alive[i] {
                kept.push(s);
                proof {
                    let hi = (i + 1) as int;
                    let tail = surviving(p0.take(i as int), alive@.take(i as int));
                    assert(surviving(p0.take(hi), alive@.take(hi)) =~= seq![p0[i as int]] + tail);
                    assert(kept@ =~= k0 + seq![s]);
                    assert((k0 + seq![s]) + tail =~= k0 + (seq![s] + tail));
                }
            }
        }
        proof {
            assert(p0.take(0) =~= Seq::<u64>::empty());
            assert(alive@.take(0) =~= Seq::<bool>::empty());
            assert(kept@ + surviving(p0.take(0), alive@.take(0)) =~= kept@);
            lemma_surviving_len(p0, alive@);
        }
        self.available_sockets = kept;
    }

    /// Borrows the most recently added socket that is still writable.
    ///
    /// `alive[i]` reports the writable-readiness probe of `pool[i]`. Sockets
    /// are popped newest-first; dead ones are discarded; the first live one
    /// is returned. A returned socket's probe did not report write-closed,
    /// and a successful borrow strictly shrinks the pool, so a tenant with
    /// `max_sockets == 1` is drained by a single borrow.
    pub fn take(&mut self, alive: &Vec<bool>, now: u64) -> (r: Option<u64>)
        requires
            old(self).wf(),
            alive@.len() == old(self).available_sockets@.len(),
        ensures
            final(self).wf(),
            take_relation(*old(self), *final(self), alive@, r, now),
    {
        self.last_connection_time = now;
        let ghost p0 = self.available_sockets@;
        let mut i: usize = self.available_sockets.len();
        proof {
            assert(p0.take(i as int) =~= p0);
        }
        while i > 0
            invariant
                i == self.available_sockets@.len(),
                i <= p0.len(),
                p0.len() == alive@.len(),
                p0 == old(self).available_sockets@,
                p0.len() <= old(self).max_sockets as int,
                self.available_sockets@ == p0.take(i as int),
                forall|j: int| i <= j < alive@.len() ==> !alive@[j],
                self.port == old(self).port,
                self.max_sockets == old(self).max_sockets,
                self.last_connection_time == now,
            decreases i,
        {
            i = i - 1;
            let s = self.available_sockets.pop().unwrap();
            proof {
                assert(p0.take((i + 1) as int).drop_last() =~= p0.take(i as int));
                assert(self.available_sockets@ =~= p0.take(i as int));
                assert(s == p0[i as int]);
            }
            if alive[i] {
                proof {
                    alive@.index_of_last_ensures(true);
                    match alive@.index_of_last(true) {
                        Some(k) => {
                            if k < i {
                                assert(alive@[i as int] != true);
                                assert(false);
                            }
                            if k > i {
                                assert(!alive@[k]);
                                assert(false);
                            }
                        },
                        None => {
                            assert(alive@[i as int] == true);
                            assert(alive@.contains(true));
                            assert(false);
                        },
                    }
                }
                return Some(s);
            }
        }
        proof {
            alive@.index_of_last_ensures(true);
            match alive@.index_of_last(true) {
                Some(k) => {
                    assert(!alive@[k]);
                    assert(false);
                },
                None => {},
            }
        }
        None
    }

    /// Whether the tenant should be evicted: the pool is empty and no borrow
    /// has happened within the cleanup timeout.
    pub fn should_cleanup(&self, now: u64) -> (r: bool)
        ensures
            r == spec_should_cleanup(*self, now),
    {
        self.available_sockets.is_empty() && now >= self.last_connection_time && now
            - self.last_connection_time > CLEANUP_TIMEOUT_MS
    }
}

/// Law: at any observation of a well-formed tenant, the idle pool holds at
/// most `max_sockets` sockets.
pub proof fn lemma_pool_within_limit(c: &Client)
    requires
        c.wf(),
    ensures
        c.available_sockets@.len() <= c.max_sockets as int,
{
}

/// Law: a tenant with `max_sockets == 0` never holds a socket — every offer
/// is discarded and the pool is empty at any observation.
pub proof fn lemma_zero_max_sockets(c: &Client)
    requires
        c.wf(),
        c.max_sockets == 0,
    ensures
        c.available_sockets@.len() == 0,
{
}

/// Law: a tenant with `max_sockets == 1` serves at most one borrow — a
/// successful `take` leaves its pool empty, so the next borrow comes up
/// empty until the client connects another tunnel socket.
pub proof fn lemma_single_socket_drained(
    pre: Client,
    post: Client,
    alive: Seq<bool>,
    r: Option<u64>,
    now: u64,
)
    requires
        pre.wf(),
        pre.max_sockets == 1,
        take_relation(pre, post, alive, r, now),
        r is Some,
    ensures
        post.available_sockets@.len() == 0,
{
}

/// One registry entry: a subdomain and its tenant.
pub struct ClientEntry {
    pub name: String,
    pub client: Client,
}

/// The tenant registry: subdomain-keyed, with a default pool bound for newly
/// created tenants.
pub struct ClientManager {
    pub clients: Vec<ClientEntry>,
    pub default_max_sockets: u8,
}

/// The subdomains of the registry's entries, in entry order.
pub open spec fn entry_names(s: Seq<ClientEntry>) -> Seq<Seq<char>> {
    s.map_values(|e: ClientEntry| e.name@)
}

/// The position of the entry registered under `name`, if any.
pub open spec fn lookup_idx(s: Seq<ClientEntry>, name: Seq<char>) -> Option<int> {
    entry_names(s).index_of_first(name)
}

/// A fresh tenant as `put` creates it: empty pool, the given ingress port,
/// the registry's default pool bound, created at `now`.
pub open spec fn is_fresh_client(c: Client, port: u16, max_sockets: u8, now: u64) -> bool {
    &&& c.available_sockets@.len() == 0
    &&& c.port == Some(port)
    &&& c.max_sockets == max_sockets
    &&& c.last_connection_time == now
}

/// The entries that a cleanup sweep at time `now` keeps, in order.
pub open spec fn retain_live(s: Seq<ClientEntry>, now: u64) -> Seq<ClientEntry>
    decreases s.len(),
{
    if s.len() == 0 {
        Seq::<ClientEntry>::empty()
    } else if spec_should_cleanup(s.last().client, now) {
        retain_live(s.drop_last(), now)
    } else {
        retain_live(s.drop_last(), now).push(s.last())
    }
}

/// Every entry the cleanup sweep keeps is an entry of the registry it swept.
pub proof fn lemma_retain_live_membership(s: Seq<ClientEntry>, now: u64)
    ensures
        forall|i: int|
            0 <= i < retain_live(s, now).len() ==> s.contains(#[trigger] retain_live(s, now)[i]),
        retain_live(s, now).len() <= s.len(),
    decreases s.len(),
{
    if s.len() > 0 {
        lemma_retain_live_membership(s.drop_last(), now);
        assert forall|i: int| 0 <= i < retain_live(s, now).len() implies s.contains(
            #[trigger] retain_live(s, now)[i],
        ) by {
            let kept = retain_live(s, now);
            if i < retain_live(s.drop_last(), now).len() {
                assert(kept[i] == retain_live(s.drop_last(), now)[i]);
                let j = choose|j: int|
                    0 <= j < s.drop_last().len() && s.drop_last()[j] == kept[i];
                assert(s[j] == kept[i]);
            } else {
                assert(kept[i] == s.last());
            }
        }
    }
}

/// Law: the cleanup sweep evicts exactly the ripe tenants — every kept entry
/// is not ripe for eviction at `now`, and every entry not ripe at `now` is
/// kept.
pub proof fn lemma_cleanup_eviction(s: Seq<ClientEntry>, now: u64)
    ensures
        forall|i: int|
            0 <= i < retain_live(s, now).len() ==> !spec_should_cleanup(
                (#[trigger] retain_live(s, now)[i]).client,
                now,
            ),
        forall|j: int|
            0 <= j < s.len() && !spec_should_cleanup((#[trigger] s[j]).client, now)
                ==> retain_live(s, now).contains(s[j]),
    decreases s.len(),
{
    if s.len() > 0 {
        lemma_cleanup_eviction(s.drop_last(), now);
        assert forall|j: int|
            0 <= j < s.len() && !spec_should_cleanup((#[trigger] s[j]).client, now) implies
            retain_live(s, now).contains(s[j]) by {
            if j < s.len() - 1 {
                assert(s.drop_last()[j] == s[j]);
                let kept = retain_live(s.drop_last(), now);
                let i = choose|i: int| 0 <= i < kept.len() && kept[i] == s[j];
                assert(retain_live(s, now)[i] == s[j]);
            } else {
                assert(retain_live(s, now).last() == s[j]);
            }
        }
    }
}

/// The sweep keeps the registry's keys pairwise distinct.
pub proof fn lemma_retain_live_unique(s: Seq<ClientEntry>, now: u64)
    requires
        forall|i: int, j: int| 0 <= i < j < s.len() ==> s[i].name@ != s[j].name@,
    ensures
        forall|i: int, j: int|
            0 <= i < j < retain_live(s, now).len() ==> retain_live(s, now)[i].name@ != retain_live(
                s,
                now,
            )[j].name@,
    decreases s.len(),
{
    if s.len() > 0 {
        lemma_retain_live_unique(s.drop_last(), now);
        lemma_retain_live_membership(s.drop_last(), now);
        let kept = retain_live(s, now);
        let rest = retain_live(s.drop_last(), now);
        assert forall|i: int, j: int| 0 <= i < j < kept.len() implies kept[i].name@
            != kept[j].name@ by {
            if j < rest.len() {
                assert(kept[i] == rest[i] && kept[j] == rest[j]);
            } else if j == rest.len() && kept.len() == rest.len() + 1 {
                assert(kept[i] == rest[i]);
                let m = choose|m: int|
                    0 <= m < s.drop_last().len() && s.drop_last()[m] == rest[i];
                assert(s[m] == rest[i]);
                assert(s[m].name@ != s.last().name@);
            }
        }
    }
}

impl ClientManager {
    /// Keys are pairwise distinct and every tenant is well formed.
    pub open spec fn wf(&self) -> bool {
        &&& forall|i: int, j: int|
            0 <= i < j < self.clients@.len() ==> self.clients@[i].name@ != self.clients@[j].name@
        &&& forall|i: int|
            0 <= i < self.clients@.len() ==> (#[trigger] self.clients@[i]).client.wf()
    }

    /// The tenant registered under `name`, if any.
    pub open spec fn spec_get(&self, name: Seq<char>) -> Option<Client> {
        match lookup_idx(self.clients@, name) {
            Some(i) => Some(self.clients@[i].client),
            None => None,
        }
    }

    /// An empty registry whose tenants will be created with the given pool
    /// bound.
    pub fn new(max_sockets: u8) -> (m: ClientManager)
        ensures
            m.wf(),
            m.clients@.len() == 0,
            m.default_max_sockets == max_sockets,
    {
        ClientManager { clients: Vec::new(), default_max_sockets: max_sockets }
    }

    /// Finds the position of the entry registered under `endpoint`.
    pub fn find(&self, endpoint: &str) -> (r: Option<usize>)
        ensures
            match r {
                Some(i) => {
                    &&& lookup_idx(self.clients@, endpoint@) == Some(i as int)
                    &&& i < self.clients@.len()
                    &&& self.clients@[i as int].name@ == endpoint@
                },
                None => lookup_idx(self.clients@, endpoint@) is None,
            },
    {
        let n = self.clients.len();
        let mut i: usize = 0;
        while i < n
            invariant
                n == self.clients@.len(),
                i <= n,
                forall|j: int| 0 <= j < i ==> self.clients@[j].name@ != endpoint@,
            decreases n - i,
        {
            if str_eq(self.clients[i].name.as_str(), endpoint) {
                proof {
                    let names = entry_names(self.clients@);
                    names.index_of_first_ensures(endpoint@);
                    match names.index_of_first(endpoint@) {
                        Some(k) => {
                            if k < i {
                                assert(names[k] == endpoint@);
                                assert(false);
                            }
                            if k > i {
                                assert(names[i as int] != endpoint@);
                                assert(false);
                            }
                        },
                        None => {
                            assert(names[i as int] == endpoint@);
                            assert(names.contains(endpoint@));
                            assert(false);
                        },
                    }
                }
                return Some(i);
            }
            i = i + 1;
        }
        proof {
            let names = entry_names(self.clients@);
            names.index_of_first_ensures(endpoint@);
            match names.index_of_first(endpoint@) {
                Some(k) => {
                    assert(names[k] == endpoint@);
                    assert(self.clients@[k].name@ == endpoint@);
                    assert(false);
                },
                None => {},
            }
        }
        None
    }

    /// Registers `url`, binding it to a fresh tenant that listens on `port`.
    ///
    /// Creation is unconditional: if the subdomain is already registered its
    /// tenant is replaced by the fresh one (its acceptor and sockets are torn
    /// down by the caller dropping the old state). Registration is
    /// sequentially consistent: once `put` returns, a lookup of `url` sees
    /// the fresh tenant.
    pub fn put(&mut self, url: String, port: u16, now: u64)
        requires
            old(self).wf(),
        ensures
            final(self).wf(),
            final(self).default_max_sockets == old(self).default_max_sockets,
            final(self).spec_get(url@) matches Some(c) && is_fresh_client(
                c,
                port,
                old(self).default_max_sockets,
                now,
            ),
            ({
                let pre = old(self).clients@;
                let post = final(self).clients@;
                let max = old(self).default_max_sockets;
                match lookup_idx(pre, url@) {
                    Some(i) => {
                        &&& post.len() == pre.len()
                        &&& forall|j: int| 0 <= j < pre.len() && j != i ==> post[j] == pre[j]
                        &&& post[i].name@ == url@
                        &&& is_fresh_client(post[i].client, port, max, now)
                    },
                    None => {
                        &&& post.len() == pre.len() + 1
                        &&& forall|j: int| 0 <= j < pre.len() ==> post[j] == pre[j]
                        &&& post.last().name@ == url@
                        &&& is_fresh_client(post.last().client, port, max, now)
                    },
                }
            }),
    {
        let mut fresh = Client::new(self.default_max_sockets, now);
        fresh.set_port(port);
        let found = self.find(url.as_str());
        match found {
            Some(i) => {
                let e = &mut self.clients[i];
                e.client = fresh;
                proof {
                    assert(entry_names(self.clients@) =~= entry_names(old(self).clients@));
                }
            },
            None => {
                proof {
                    let names = entry_names(self.clients@);
                    names.index_of_first_ensures(url@);
                    assert forall|j: int|
                        0 <= j < self.clients@.len() implies self.clients@[j].name@ != url@ by {
                        assert(names[j] == self.clients@[j].name@);
                    }
                }
                self.clients.push(ClientEntry { name: url, client: fresh });
                proof {
                    let pre_names = entry_names(old(self).clients@);
                    pre_names.index_of_first_ensures(url@);
                    let names = entry_names(self.clients@);
                    names.index_of_first_ensures(url@);
                    assert(names[names.len() - 1] == url@);
                    match names.index_of_first(url@) {
                        Some(k) => {
                            if k < names.len() - 1 {
                                assert(names[k] == self.clients@[k].name@);
                                assert(self.clients@[k] == old(self).clients@[k]);
                                assert(pre_names[k] == old(self).clients@[k].name@);
                                assert(pre_names.contains(url@));
                                assert(false);
                            }
                        },
                        None => {
                            assert(names.contains(url@));
                            assert(false);
                        },
                    }
                }
            },
        }
    }

    /// Borrows a socket from the tenant at position `i`, as `Client::take`
    /// does; the rest of the registry is untouched.
    pub fn take_socket(&mut self, i: usize, alive: &Vec<bool>, now: u64) -> (r: Option<u64>)
        requires
            old(self).wf(),
            i < old(self).clients@.len(),
            alive@.len() == old(self).clients@[i as int].client.available_sockets@.len(),
        ensures
            final(self).wf(),
            final(self).default_max_sockets == old(self).default_max_sockets,
            final(self).clients@.len() == old(self).clients@.len(),
            forall|j: int|
                0 <= j < old(self).clients@.len() && j != i
                    ==> final(self).clients@[j] == old(self).clients@[j],
            final(self).clients@[i as int].name@ == old(self).clients@[i as int].name@,
            take_relation(
                old(self).clients@[i as int].client,
                final(self).clients@[i as int].client,
                alive@,
                r,
                now,
            ),
    {
        proof {
            assert(old(self).clients@[i as int].client.wf());
        }
        let e = &mut self.clients[i];
        e.client.take(alive, now)
    }

    /// Evicts every tenant that is ripe for cleanup at `now`: pool empty and
    /// no borrow within the cleanup timeout. The survivors keep their order.
    pub fn cleanup(&mut self, now: u64)
        requires
            old(self).wf(),
        ensures
            final(self).wf(),
            final(self).default_max_sockets == old(self).default_max_sockets,
            final(self).clients@ == retain_live(old(self).clients@, now),
    {
        let ghost s0 = self.clients@;
        let mut kept: Vec<ClientEntry> = Vec::new();
        let mut i: usize = self.clients.len();
        proof {
            assert(s0.take(i as int) =~= s0);
            assert(retain_live(s0, now) + kept@ =~= retain_live(s0, now));
        }
        while i > 0
            invariant
                i == self.clients@.len(),
                i <= s0.len(),
                s0 == old(self).clients@,
                old(self).wf(),
                self.clients@ == s0.take(i as int),
                retain_live(s0, now) == retain_live(s0.take(i as int), now) + kept@,
                self.default_max_sockets == old(self).default_max_sockets,
            decreases i,
        {
            i = i - 1;
            let ghost k0 = kept@;
            let e = self.clients.pop().unwrap();
            proof {
                assert(s0.take((i + 1) as int).drop_last() =~= s0.take(i as int));
                assert(self.clients@ =~= s0.take(i as int));
                assert(s0.take((i + 1) as int).last() == s0[i as int]);
            }
            if !e.client.should_cleanup(now) {
                proof {
                    assert(retain_live(s0.take((i + 1) as int), now) =~= retain_live(
                        s0.take(i as int),
                        now,
                    ).push(s0[i as int]));
                }
                kept.insert(0, e);
                proof {
                    let head = retain_live(s0.take(i as int), now);
                    assert(kept@ =~= seq![e] + k0);
                    assert(head.push(e) =~= head + seq![e]);
                    assert((head + seq![e]) + k0 =~= head + (seq![e] + k0));
                }
            }
        }
        proof {
            assert(s0.take(0) =~= Seq::<ClientEntry>::empty());
            assert(retain_live(s0.take(0), now) + kept@ =~= kept@);
            lemma_retain_live_unique(s0, now);
            lemma_retain_live_membership(s0, now);
            assert forall|k: int|
                0 <= k < retain_live(s0, now).len() implies (#[trigger] retain_live(
                s0,
                now,
            )[k]).client.wf() by {
                let j = choose|j: int| 0 <= j < s0.len() && s0[j] == retain_live(s0, now)[k];
            }
        }
        self.clients = kept;
    }
}

/// Application-wide server state shared by the registration API and the
/// proxy handler.
pub struct State {
    pub manager: ClientManager,
    pub max_sockets: u8,
    pub require_auth: bool,
    pub secure: bool,
    pub domain: String,
}

} // verus!
