//! The client connections of a session server and their heartbeats.
use vstd::prelude::*;
use crate::clock::{later, now_millis};
use crate::keyed::{kdel, kfind, kget, kinsert, kput, kremove, kunique, kviews, lemma_kpos, lemma_kput_kdel};
use crate::strings::strs;

verus! {

/// One client connection. Times are wall-clock milliseconds.
#[derive(Debug)]
pub struct ConnectionInfo {
    pub client_id: String,
    pub address: String,
    pub connected_at: i64,
    pub last_heartbeat: i64,
}

/// The model of a connection.
pub struct ConnectionView {
    pub client_id: Seq<char>,
    pub address: Seq<char>,
    pub connected_at: i64,
    pub last_heartbeat: i64,
}

/// A connection whose last heartbeat came at `now`.
pub open spec fn heartbeat_at(c: ConnectionView, now: i64) -> ConnectionView {
    ConnectionView { last_heartbeat: now, ..c }
}

impl View for ConnectionInfo {
    type V = ConnectionView;

    open spec fn view(&self) -> ConnectionView {
        ConnectionView {
            client_id: self.client_id@,
            address: self.address@,
            connected_at: self.connected_at,
            last_heartbeat: self.last_heartbeat,
        }
    }
}

impl ConnectionInfo {
    /// A copy of this connection.
    pub fn copy(&self) -> (c: ConnectionInfo)
        ensures
            c@ == self@,
    {
        ConnectionInfo {
            client_id: self.client_id.clone(),
            address: self.address.clone(),
            connected_at: self.connected_at,
            last_heartbeat: self.last_heartbeat,
        }
    }
}

impl Clone for ConnectionInfo {
    fn clone(&self) -> (c: Self)
        ensures
            c@ == self@,
    {
        self.copy()
    }
}

/// A connection of `client_id` from `address` made at `now`.
pub open spec fn new_connection(client_id: Seq<char>, address: Seq<char>, now: i64) -> ConnectionView {
    ConnectionView { client_id, address, connected_at: now, last_heartbeat: now }
}

/// The connections that have sent a heartbeat at or after `cutoff`, in order.
pub open spec fn fresh(s: Seq<(Seq<char>, ConnectionView)>, cutoff: int) -> Seq<(Seq<char>, ConnectionView)>
    decreases s.len(),
{
    if s.len() == 0 {
        s
    } else if s.last().1.last_heartbeat < cutoff {
        fresh(s.drop_last(), cutoff)
    } else {
        fresh(s.drop_last(), cutoff).push(s.last())
    }
}

/// The client ids whose last heartbeat is before `cutoff`, in order.
pub open spec fn idle(s: Seq<(Seq<char>, ConnectionView)>, cutoff: int) -> Seq<Seq<char>>
    decreases s.len(),
{
    if s.len() == 0 {
        Seq::empty()
    } else if s.last().1.last_heartbeat < cutoff {
        idle(s.drop_last(), cutoff).push(s.last().0)
    } else {
        idle(s.drop_last(), cutoff)
    }
}

/// The idle cutoff `timeout_ms` before `now`, or the earliest time when that
/// falls before it.
pub open spec fn cutoff_at(now: i64, timeout_ms: int) -> int {
    if now - timeout_ms < i64::MIN {
        i64::MIN as int
    } else {
        now - timeout_ms
    }
}

proof fn lemma_fresh_unique(s: Seq<(Seq<char>, ConnectionView)>, cutoff: int)
    requires
        kunique(s),
    ensures
        kunique(fresh(s, cutoff)),
        forall|k: int| 0 <= k < fresh(s, cutoff).len() ==> s.contains(#[trigger] fresh(s, cutoff)[k]),
    decreases s.len(),
{
    if s.len() > 0 {
        let d = s.drop_last();
        assert(kunique(d));
        lemma_fresh_unique(d, cutoff);
        let p = fresh(d, cutoff);
        assert forall|k: int| 0 <= k < p.len() implies s.contains(#[trigger] p[k]) by {
            let j = choose|j: int| 0 <= j < d.len() && d[j] == p[k];
            assert(s[j] == p[k]);
        }
        assert(s[s.len() - 1] == s.last());
        if s.last().1.last_heartbeat >= cutoff {
            assert forall|k: int| 0 <= k < p.len() implies p[k].0 != s.last().0 by {
                let j = choose|j: int| 0 <= j < d.len() && d[j] == p[k];
                assert(s[j] == p[k]);
            }
        }
    }
}

/// What is left of a client's connection after idle ones, those whose last
/// heartbeat is before `cutoff`, are removed.
pub open spec fn kept_after_eviction(c: Option<ConnectionView>, cutoff: int) -> Option<ConnectionView> {
    match c {
        Some(v) => if v.last_heartbeat >= cutoff {
            Some(v)
        } else {
            None
        },
        None => None,
    }
}

proof fn lemma_kget_drop_last<V>(s: Seq<(Seq<char>, V)>, key: Seq<char>)
    requires
        kunique(s),
        s.len() > 0,
    ensures
        s.last().0 != key ==> kget(s, key) == kget(s.drop_last(), key),
        s.last().0 == key ==> kget(s, key) == Some(s.last().1) && kget(s.drop_last(), key) is None,
{
    let d = s.drop_last();
    assert(kunique(d));
    lemma_kpos(d, key);
    assert forall|k: int| 0 <= k < d.len() implies d[k] == s[k] by {}
    if s.last().0 == key {
        assert forall|k: int| 0 <= k < d.len() implies d[k].0 != key by {
            assert(s[k].0 != s[s.len() - 1].0);
        }
    }
}

/// Idle eviction splits the connections by their last heartbeat: a client
/// is evicted exactly when it is connected and its last heartbeat is before
/// the cutoff; every other client keeps its connection unchanged, an
/// evicted client has none left, no client is evicted twice, and the kept
/// and evicted counts add up to the count before.
pub proof fn lemma_eviction_partitions_connections(
    s: Seq<(Seq<char>, ConnectionView)>,
    cutoff: int,
    id: Seq<char>,
)
    requires
        kunique(s),
    ensures
        idle(s, cutoff).contains(id) <==> (kget(s, id) matches Some(c) && c.last_heartbeat < cutoff),
        kget(fresh(s, cutoff), id) == kept_after_eviction(kget(s, id), cutoff),
        fresh(s, cutoff).len() + idle(s, cutoff).len() == s.len(),
        idle(s, cutoff).no_duplicates(),
    decreases s.len(),
{
    if s.len() > 0 {
        let d = s.drop_last();
        let last = s.last();
        assert(kunique(d));
        lemma_eviction_partitions_connections(d, cutoff, id);
        lemma_eviction_partitions_connections(d, cutoff, last.0);
        lemma_kget_drop_last(s, id);
        lemma_kget_drop_last(s, last.0);
        lemma_fresh_unique(d, cutoff);
        let fd = fresh(d, cutoff);
        if last.1.last_heartbeat >= cutoff {
            assert(fresh(s, cutoff) == fd.push(last));
            let f = fd.push(last);
            assert(f.drop_last() =~= fd);
            assert(kunique(f)) by {
                assert forall|i: int, j: int| 0 <= i < j < f.len() implies #[trigger] f[i].0 != #[trigger] f[j].0 by {
                    if j == f.len() - 1 {
                        assert(f[i] == fd[i]);
                        if fd[i].0 == last.0 {
                            lemma_kpos(fd, last.0);
                        }
                    } else {
                        assert(f[i] == fd[i] && f[j] == fd[j]);
                    }
                }
            }
            lemma_kget_drop_last(f, id);
        } else {
            let ix = idle(d, cutoff);
            assert(idle(s, cutoff) == ix.push(last.0));
            assert(ix.push(last.0).contains(id) <==> (ix.contains(id) || id == last.0)) by {
                if ix.push(last.0).contains(id) {
                    let k = choose|k: int| 0 <= k < ix.push(last.0).len() && ix.push(last.0)[k] == id;
                    if k < ix.len() {
                        assert(ix[k] == id);
                    }
                }
                if ix.contains(id) {
                    let k = choose|k: int| 0 <= k < ix.len() && ix[k] == id;
                    assert(ix.push(last.0)[k] == id);
                }
                if id == last.0 {
                    assert(ix.push(last.0)[ix.len() as int] == id);
                }
            }
            assert(ix.push(last.0).no_duplicates()) by {
                assert forall|i: int, j: int| 0 <= i < ix.push(last.0).len() && 0 <= j < ix.push(last.0).len() && i != j
                    implies ix.push(last.0)[i] != ix.push(last.0)[j] by {
                    if i == ix.len() {
                        assert(ix.push(last.0)[j] == ix[j]);
                        assert(ix.contains(ix[j]));
                    } else if j == ix.len() {
                        assert(ix.push(last.0)[i] == ix[i]);
                        assert(ix.contains(ix[i]));
                    } else {
                        assert(ix.push(last.0)[i] == ix[i] && ix.push(last.0)[j] == ix[j]);
                    }
                }
            }
        }
    }
}

/// Eviction judged at a clock reading no earlier than `latest` evicts every
/// client that was already idle at `latest`: its id is returned and no
/// connection is left for it.
pub proof fn lemma_idle_at_latest_is_evicted(
    s: Seq<(Seq<char>, ConnectionView)>,
    latest: i64,
    now: i64,
    timeout_ms: int,
    id: Seq<char>,
)
    requires
        kunique(s),
        latest <= now,
        kget(s, id) matches Some(c) && c.last_heartbeat < cutoff_at(latest, timeout_ms),
    ensures
        idle(s, cutoff_at(now, timeout_ms)).contains(id),
        kget(fresh(s, cutoff_at(now, timeout_ms)), id) is None,
{
    lemma_eviction_partitions_connections(s, cutoff_at(now, timeout_ms), id);
}

/// A heartbeat at `t` keeps the client connected through any eviction
/// judged at a time no more than the timeout after `t`.
pub proof fn lemma_heartbeat_keeps_connection(
    s: Seq<(Seq<char>, ConnectionView)>,
    id: Seq<char>,
    t: i64,
    now: i64,
    timeout_ms: int,
)
    requires
        kunique(s),
        kget(s, id) is Some,
        timeout_ms >= 0,
        now - timeout_ms <= t,
    ensures
        ({
            let after = kput(s, id, heartbeat_at(kget(s, id).unwrap(), t));
            &&& kget(fresh(after, cutoff_at(now, timeout_ms)), id) == Some(heartbeat_at(kget(s, id).unwrap(), t))
            &&& !idle(after, cutoff_at(now, timeout_ms)).contains(id)
        }),
{
    let c = heartbeat_at(kget(s, id).unwrap(), t);
    lemma_kput_kdel(s, id, c, id);
    let after = kput(s, id, c);
    lemma_eviction_partitions_connections(after, cutoff_at(now, timeout_ms), id);
}

/// The client connections of a session server, one per client id.
pub struct ConnectionService {
    connections: Vec<(String, ConnectionInfo)>,
    latest: i64,
}

impl ConnectionService {
    #[verifier::type_invariant]
    spec fn one_connection_per_client(self) -> bool {
        kunique(kviews(self.connections@))
    }

    /// The connections, keyed by client id, in the order the clients first
    /// connected.
    pub closed spec fn connections(&self) -> Seq<(Seq<char>, ConnectionView)> {
        kviews(self.connections@)
    }

    /// The latest time this service has been told or has read from the
    /// wall clock; a reading of the clock is never earlier.
    pub closed spec fn latest_reading(&self) -> i64 {
        self.latest
    }

    fn read_clock(&self) -> (now: i64)
        ensures
            now >= self.latest_reading(),
    {
        let r = now_millis();
        if r > self.latest {
            r
        } else {
            self.latest
        }
    }

    /// No connections.
    pub fn new() -> (s: ConnectionService)
        ensures
            s.connections().len() == 0,
            s.latest_reading() == i64::MIN,
    {
        let s = ConnectionService { connections: Vec::new(), latest: i64::MIN };
        assert(s.connections() =~= Seq::<(Seq<char>, ConnectionView)>::empty());
        s
    }

    /// Records a connection of `client_id` from `address` at `now`,
    /// replacing an earlier one.
    pub fn connect_at(&mut self, client_id: String, address: String, now: i64)
        ensures
            final(self).connections() == kput(
                old(self).connections(),
                client_id@,
                new_connection(client_id@, address@, now),
            ),
            final(self).latest_reading() == later(old(self).latest_reading(), now),
    {
        proof {
            use_type_invariant(&*self);
        }
        let info = ConnectionInfo { client_id: client_id.clone(), address, connected_at: now, last_heartbeat: now };
        let mut v: Vec<(String, ConnectionInfo)> = Vec::new();
        std::mem::swap(&mut v, &mut self.connections);
        kinsert(&mut v, client_id, info);
        self.connections = v;
        if now > self.latest {
            self.latest = now;
        }
    }

    /// Records a connection of `client_id` from `address` now.
    pub fn connect(&mut self, client_id: String, address: String)
        ensures
            exists|now: i64|
                final(self).connections() == kput(
                    old(self).connections(),
                    client_id@,
                    #[trigger] new_connection(client_id@, address@, now),
                ),
            final(self).latest_reading() >= old(self).latest_reading(),
            final(self).connections() == kput(
                old(self).connections(),
                client_id@,
                new_connection(client_id@, address@, final(self).latest_reading()),
            ),
    {
        let now = self.read_clock();
        self.connect_at(client_id, address, now);
    }

    /// Removes the connection of `client_id`, returning it.
    pub fn disconnect(&mut self, client_id: &str) -> (r: Option<ConnectionInfo>)
        ensures
            final(self).connections() == kdel(old(self).connections(), client_id@),
            match r {
                Some(c) => kget(old(self).connections(), client_id@) == Some(c@),
                None => kget(old(self).connections(), client_id@) is None,
            },
            final(self).latest_reading() == old(self).latest_reading(),
    {
        proof {
            use_type_invariant(&*self);
        }
        let mut v: Vec<(String, ConnectionInfo)> = Vec::new();
        std::mem::swap(&mut v, &mut self.connections);
        let r = kremove(&mut v, client_id);
        self.connections = v;
        r
    }

    /// Whether `client_id` is connected.
    pub fn is_connected(&self, client_id: &str) -> (r: bool)
        ensures
            r == (kget(self.connections(), client_id@) is Some),
    {
        proof {
            use_type_invariant(self);
        }
        kfind(&self.connections, client_id).is_some()
    }

    /// Sets the last heartbeat of `client_id` to `now`, if it is connected.
    pub fn touch_heartbeat_at(&mut self, client_id: &str, now: i64)
        ensures
            match kget(old(self).connections(), client_id@) {
                Some(c) => final(self).connections() == kput(
                    old(self).connections(),
                    client_id@,
                    heartbeat_at(c, now),
                ),
                None => final(self).connections() == old(self).connections(),
            },
            final(self).latest_reading() == later(old(self).latest_reading(), now),
    {
        proof {
            use_type_invariant(&*self);
            lemma_kpos(self.connections(), client_id@);
        }
        if now > self.latest {
            self.latest = now;
        }
        let ghost before = self.connections();
        match kfind(&self.connections, client_id) {
            Some(i) => {
                let mut v: Vec<(String, ConnectionInfo)> = Vec::new();
                std::mem::swap(&mut v, &mut self.connections);
                let (k, mut info) = v.remove(i);
                info.last_heartbeat = now;
                v.insert(i, (k, info));
                assert(kviews(v@) =~= before.update(i as int, (client_id@, info@)));
                assert(kunique(kviews(v@))) by {
                    assert forall|p: int, q: int| 0 <= p < q < kviews(v@).len() implies #[trigger] kviews(
                        v@,
                    )[p].0 != #[trigger] kviews(v@)[q].0 by {
                        assert(kviews(v@)[p].0 == before[p].0 && kviews(v@)[q].0 == before[q].0);
                    }
                }
                self.connections = v;
            },
            None => {},
        }
    }

    /// Sets the last heartbeat of `client_id` to now, if it is connected.
    pub fn touch_heartbeat(&mut self, client_id: &str)
        ensures
            match kget(old(self).connections(), client_id@) {
                Some(c) => exists|now: i64|
                    final(self).connections() == kput(
                        old(self).connections(),
                        client_id@,
                        #[trigger] heartbeat_at(c, now),
                    ),
                None => final(self).connections() == old(self).connections(),
            },
            final(self).latest_reading() >= old(self).latest_reading(),
            match kget(old(self).connections(), client_id@) {
                Some(c) => final(self).connections() == kput(
                    old(self).connections(),
                    client_id@,
                    heartbeat_at(c, final(self).latest_reading()),
                ),
                None => true,
            },
            match kget(old(self).connections(), client_id@) {
                Some(c) => forall|later_now: i64, timeout_ms: int|
                    0 <= timeout_ms && later_now - timeout_ms <= final(self).latest_reading() ==> kget(
                        fresh(final(self).connections(), #[trigger] cutoff_at(later_now, timeout_ms)),
                        client_id@,
                    ) == Some(heartbeat_at(c, final(self).latest_reading())),
                None => true,
            },
    {
        proof {
            use_type_invariant(&*self);
        }
        let now = self.read_clock();
        self.touch_heartbeat_at(client_id, now);
        proof {
            if kget(old(self).connections(), client_id@) is Some {
                assert forall|later_now: i64, timeout_ms: int|
                    0 <= timeout_ms && later_now - timeout_ms <= now implies kget(
                        fresh(final(self).connections(), #[trigger] cutoff_at(later_now, timeout_ms)),
                        client_id@,
                    ) == Some(heartbeat_at(kget(old(self).connections(), client_id@).unwrap(), now)) by {
                    lemma_heartbeat_keeps_connection(old(self).connections(), client_id@, now, later_now, timeout_ms);
                }
            }
        }
        proof {
            match kget(old(self).connections(), client_id@) {
                Some(c) => {
                    assert(final(self).connections() == kput(
                        old(self).connections(),
                        client_id@,
                        heartbeat_at(c, now),
                    ));
                },
                None => {},
            }
        }
    }

    /// Removes the connections whose last heartbeat is more than
    /// `timeout_secs` before `now`, returning their client ids in order.
    pub fn evict_idle_at(&mut self, timeout_secs: u64, now: i64) -> (evicted: Vec<String>)
        requires
            timeout_secs <= i64::MAX / 1000,
        ensures
            final(self).connections() == fresh(old(self).connections(), cutoff_at(now, timeout_secs * 1000)),
            strs(evicted@) == idle(old(self).connections(), cutoff_at(now, timeout_secs * 1000)),
            forall|id: Seq<char>|
                #![trigger strs(evicted@).contains(id)]
                strs(evicted@).contains(id) <==> (kget(old(self).connections(), id) matches Some(c)
                    && c.last_heartbeat < cutoff_at(now, timeout_secs * 1000)),
            forall|id: Seq<char>|
                #[trigger] kget(final(self).connections(), id) == kept_after_eviction(
                    kget(old(self).connections(), id),
                    cutoff_at(now, timeout_secs * 1000),
                ),
            final(self).connections().len() + evicted@.len() == old(self).connections().len(),
            strs(evicted@).no_duplicates(),
            final(self).latest_reading() == later(old(self).latest_reading(), now),
    {
        proof {
            use_type_invariant(&*self);
            let c = cutoff_at(now, timeout_secs * 1000);
            assert forall|id: Seq<char>| #[trigger] kget(fresh(self.connections(), c), id) == kept_after_eviction(kget(self.connections(), id), c) by {
                lemma_eviction_partitions_connections(self.connections(), c, id);
            }
            assert forall|id: Seq<char>| #[trigger] idle(self.connections(), c).contains(id) <==> (kget(self.connections(), id) matches Some(v) && v.last_heartbeat < c) by {
                lemma_eviction_partitions_connections(self.connections(), c, id);
            }
            lemma_eviction_partitions_connections(self.connections(), c, Seq::empty());
        }
        let timeout_ms: i64 = (timeout_secs * 1000) as i64;
        let cutoff: i64 = if now < i64::MIN + timeout_ms {
            i64::MIN
        } else {
            now - timeout_ms
        };
        let ghost c = cutoff_at(now, timeout_secs * 1000);
        assert(cutoff as int == c);
        let ghost orig = self.connections();
        let mut rest: Vec<(String, ConnectionInfo)> = Vec::new();
        std::mem::swap(&mut rest, &mut self.connections);
        let ghost all = rest@;
        let total = rest.len();
        let mut kept: Vec<(String, ConnectionInfo)> = Vec::new();
        let mut evicted: Vec<String> = Vec::new();
        let mut i: usize = 0;
        assert(orig.take(0) =~= Seq::<(Seq<char>, ConnectionView)>::empty());
        assert(kviews(kept@) =~= Seq::<(Seq<char>, ConnectionView)>::empty());
        assert(strs(evicted@) =~= Seq::<Seq<char>>::empty());
        assert(rest@ =~= all.skip(0));
        while rest.len() > 0
            invariant
                i + rest@.len() == all.len(),
                all.len() == total,
                rest@ == all.skip(i as int),
                orig == kviews(all),
                kviews(kept@) == fresh(orig.take(i as int), c),
                strs(evicted@) == idle(orig.take(i as int), c),
                cutoff as int == c,
            decreases rest@.len(),
        {
            let entry = rest.remove(0);
            assert(entry == all[i as int]);
            assert(orig.take(i + 1).drop_last() =~= orig.take(i as int));
            assert(orig.take(i + 1).last() == (entry.0@, entry.1@));
            assert(rest@ =~= all.skip(i + 1));
            if entry.1.last_heartbeat < cutoff {
                let ghost before = strs(evicted@);
                evicted.push(entry.0);
                assert(strs(evicted@) =~= before.push(orig[i as int].0));
            } else {
                let ghost before = kviews(kept@);
                let ghost ev = (entry.0@, entry.1@);
                kept.push(entry);
                assert(kviews(kept@) =~= before.push(ev));
            }
            i = i + 1;
        }
        assert(orig.take(i as int) =~= orig);
        proof {
            lemma_fresh_unique(orig, c);
        }
        self.connections = kept;
        if now > self.latest {
            self.latest = now;
        }
        evicted
    }

    /// Removes the connections idle for more than `timeout_secs` now,
    /// returning their client ids.
    pub fn evict_idle(&mut self, timeout_secs: u64) -> (evicted: Vec<String>)
        requires
            timeout_secs <= i64::MAX / 1000,
        ensures
            exists|now: i64|
                final(self).connections() == #[trigger] fresh(
                    old(self).connections(),
                    cutoff_at(now, timeout_secs * 1000),
                ) && strs(evicted@) == idle(old(self).connections(), cutoff_at(now, timeout_secs * 1000)),
            final(self).latest_reading() >= old(self).latest_reading(),
            final(self).connections() == fresh(
                old(self).connections(),
                cutoff_at(final(self).latest_reading(), timeout_secs * 1000),
            ),
            strs(evicted@) == idle(old(self).connections(), cutoff_at(final(self).latest_reading(), timeout_secs * 1000)),
            forall|id: Seq<char>|
                (#[trigger] kget(old(self).connections(), id) matches Some(c) && c.last_heartbeat < cutoff_at(
                    old(self).latest_reading(),
                    timeout_secs * 1000,
                )) ==> strs(evicted@).contains(id) && kget(final(self).connections(), id) is None,
    {
        let now = self.read_clock();
        self.evict_idle_at(timeout_secs, now)
    }

    /// A copy of the connection of `client_id`.
    pub fn get(&self, client_id: &str) -> (r: Option<ConnectionInfo>)
        ensures
            match r {
                Some(c) => kget(self.connections(), client_id@) == Some(c@),
                None => kget(self.connections(), client_id@) is None,
            },
    {
        proof {
            use_type_invariant(self);
            lemma_kpos(self.connections(), client_id@);
        }
        match kfind(&self.connections, client_id) {
            Some(i) => Some(self.connections[i].1.copy()),
            None => None,
        }
    }

    /// Number of connections.
    pub fn count(&self) -> (n: usize)
        ensures
            n == self.connections().len(),
    {
        self.connections.len()
    }

    /// Copies of all connections, in order.
    pub fn get_all(&self) -> (r: Vec<ConnectionInfo>)
        ensures
            r@.len() == self.connections().len(),
            forall|k: int| 0 <= k < r@.len() ==> #[trigger] r@[k]@ == self.connections()[k].1,
    {
        let mut out: Vec<ConnectionInfo> = Vec::new();
        let mut i: usize = 0;
        while i < self.connections.len()
            invariant
                i <= self.connections.len(),
                out@.len() == i,
                forall|k: int| 0 <= k < i ==> #[trigger] out@[k]@ == self.connections()[k].1,
            decreases self.connections.len() - i,
        {
            out.push(self.connections[i].1.copy());
            i = i + 1;
        }
        out
    }
}

impl Default for ConnectionService {
    fn default() -> (s: Self)
        ensures
            s.connections().len() == 0,
    {
        Self::new()
    }
}

} // verus!
