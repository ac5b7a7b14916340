//! A data server's leases of the session servers that talk to it.
use vstd::prelude::*;
use crate::clock::{later, now_millis};
use crate::strings::{str_eq, strs};

verus! {

/// The lease of one session server. Times are wall-clock milliseconds.
pub struct SessionLease {
    pub address: String,
    pub process_id: String,
    pub last_renew_timestamp: i64,
    pub expire_timestamp: i64,
}

/// The model of a session lease.
pub struct SessionLeaseView {
    pub address: Seq<char>,
    pub process_id: Seq<char>,
    pub last_renew_timestamp: i64,
    pub expire_timestamp: i64,
}

impl View for SessionLease {
    type V = SessionLeaseView;

    open spec fn view(&self) -> SessionLeaseView {
        SessionLeaseView {
            address: self.address@,
            process_id: self.process_id@,
            last_renew_timestamp: self.last_renew_timestamp,
            expire_timestamp: self.expire_timestamp,
        }
    }
}

/// The models of a list of leases.
pub open spec fn lease_views(v: Seq<SessionLease>) -> Seq<SessionLeaseView> {
    v.map_values(|l: SessionLease| l@)
}

/// The addresses of a list of leases, in order.
pub open spec fn addresses(s: Seq<SessionLeaseView>) -> Seq<Seq<char>> {
    s.map_values(|l: SessionLeaseView| l.address)
}

/// No address has two leases.
pub open spec fn addresses_unique(s: Seq<SessionLeaseView>) -> bool {
    forall|i: int, j: int| 0 <= i < j < s.len() ==> #[trigger] s[i].address != #[trigger] s[j].address
}

/// Position of the lease of `address`, or -1.
pub open spec fn index_of(s: Seq<SessionLeaseView>, address: Seq<char>) -> int
    decreases s.len(),
{
    if s.len() == 0 {
        -1
    } else if s.last().address == address {
        s.len() - 1
    } else {
        index_of(s.drop_last(), address)
    }
}

/// The leases after renewing `l`: the lease of its address is replaced in
/// place, or `l` is appended.
pub open spec fn renewed(s: Seq<SessionLeaseView>, l: SessionLeaseView) -> Seq<SessionLeaseView> {
    let p = index_of(s, l.address);
    if p >= 0 {
        s.update(p, l)
    } else {
        s.push(l)
    }
}

/// When a lease renewed at `now` for `duration_ms` ends: their sum, or the
/// largest time when the sum does not fit.
pub open spec fn expiry(now: i64, duration_ms: i64) -> i64 {
    if now + duration_ms > i64::MAX {
        i64::MAX
    } else if now + duration_ms < i64::MIN {
        i64::MIN
    } else {
        (now + duration_ms) as i64
    }
}

/// The leases still running at `now` (ending after it), in order.
pub open spec fn live(s: Seq<SessionLeaseView>, now: int) -> Seq<SessionLeaseView>
    decreases s.len(),
{
    if s.len() == 0 {
        s
    } else if s.last().expire_timestamp > now {
        live(s.drop_last(), now).push(s.last())
    } else {
        live(s.drop_last(), now)
    }
}

/// The addresses whose lease has ended at `now`, in order.
pub open spec fn lapsed(s: Seq<SessionLeaseView>, now: int) -> Seq<Seq<char>>
    decreases s.len(),
{
    if s.len() == 0 {
        Seq::empty()
    } else if s.last().expire_timestamp > now {
        lapsed(s.drop_last(), now)
    } else {
        lapsed(s.drop_last(), now).push(s.last().address)
    }
}

/// Whether `address` holds a lease still running at `now`.
pub open spec fn active_in(s: Seq<SessionLeaseView>, address: Seq<char>, now: int) -> bool {
    index_of(s, address) >= 0 && s[index_of(s, address)].expire_timestamp > now
}

/// With one lease per address, the index of an address is where its lease
/// stands, or -1 when it has none.
pub proof fn lemma_index_of(s: Seq<SessionLeaseView>, address: Seq<char>)
    requires
        addresses_unique(s),
    ensures
        index_of(s, address) == -1 <==> (forall|k: int| 0 <= k < s.len() ==> s[k].address != address),
        index_of(s, address) >= 0 ==> index_of(s, address) < s.len() && s[index_of(
            s,
            address,
        )].address == address,
        forall|k: int| 0 <= k < s.len() && s[k].address == address ==> index_of(s, address) == k,
    decreases s.len(),
{
    if s.len() > 0 {
        lemma_index_of(s.drop_last(), address);
        assert forall|k: int| 0 <= k < s.len() - 1 implies s.drop_last()[k] == s[k] by {}
    }
}

proof fn lemma_renewed_unique(s: Seq<SessionLeaseView>, l: SessionLeaseView)
    requires
        addresses_unique(s),
    ensures
        addresses_unique(renewed(s, l)),
{
    lemma_index_of(s, l.address);
}

proof fn lemma_live_members(s: Seq<SessionLeaseView>, now: int)
    ensures
        forall|x: SessionLeaseView|
            #[trigger] live(s, now).contains(x) <==> s.contains(x) && x.expire_timestamp > now,
        addresses_unique(s) ==> addresses_unique(live(s, now)),
        live(s, now).len() + lapsed(s, now).len() == s.len(),
    decreases s.len(),
{
    if s.len() > 0 {
        let d = s.drop_last();
        lemma_live_members(d, now);
        assert forall|x: SessionLeaseView|
            #[trigger] live(s, now).contains(x) <==> s.contains(x) && x.expire_timestamp > now by {
            if s.contains(x) && x.expire_timestamp > now {
                let k = choose|k: int| 0 <= k < s.len() && s[k] == x;
                if k < s.len() - 1 {
                    assert(d[k] == x);
                    assert(d.contains(x));
                    assert(live(d, now).contains(x));
                    let j = choose|j: int| 0 <= j < live(d, now).len() && live(d, now)[j] == x;
                    assert(live(s, now)[j] == x);
                } else {
                    assert(live(s, now)[live(d, now).len() as int] == x);
                }
            }
            if live(s, now).contains(x) {
                let j = choose|j: int| 0 <= j < live(s, now).len() && live(s, now)[j] == x;
                if s.last().expire_timestamp > now && j == live(d, now).len() {
                    assert(s[s.len() - 1] == x);
                } else {
                    assert(live(d, now)[j] == x);
                    assert(live(d, now).contains(x));
                    let k = choose|k: int| 0 <= k < d.len() && d[k] == x;
                    assert(s[k] == x);
                }
            }
        }
        if addresses_unique(s) {
            assert(addresses_unique(d));
            if s.last().expire_timestamp > now {
                let p = live(d, now);
                assert forall|i: int| 0 <= i < p.len() implies p[i].address != s.last().address by {
                    assert(p.contains(p[i]));
                    let k = choose|k: int| 0 <= k < d.len() && d[k] == p[i];
                    assert(s[k] == d[k]);
                }
            }
        }
    }
}

/// Renewal makes the address active: after renewing at `now` with a lease
/// that ends later than `now`, the address holds exactly that lease and
/// every other address keeps its lease.
pub proof fn lemma_renew_then_active(
    s: Seq<SessionLeaseView>,
    l: SessionLeaseView,
    now: int,
    other: Seq<char>,
)
    requires
        addresses_unique(s),
        l.expire_timestamp > now,
    ensures
        active_in(renewed(s, l), l.address, now),
        renewed(s, l)[index_of(renewed(s, l), l.address)] == l,
        other != l.address ==> active_in(renewed(s, l), other, now) == active_in(s, other, now),
        renewed(s, l).len() == s.len() + (if index_of(s, l.address) >= 0 {
            0int
        } else {
            1int
        }),
{
    lemma_index_of(s, l.address);
    lemma_index_of(s, other);
    lemma_renewed_unique(s, l);
    let r = renewed(s, l);
    lemma_index_of(r, l.address);
    lemma_index_of(r, other);
    if index_of(s, l.address) >= 0 {
        assert(r[index_of(s, l.address)].address == l.address);
    } else {
        assert(r[s.len() as int].address == l.address);
    }
    if other != l.address {
        if index_of(s, other) >= 0 {
            assert(r[index_of(s, other)] == s[index_of(s, other)]);
        }
        if index_of(r, other) >= 0 {
            let q = index_of(r, other);
            assert(r[q].address == other);
            assert(q < s.len() && r[q] == s[q]);
        }
    }
}

/// Eviction at `now` does not change which addresses are active at `now`:
/// it removes only leases that have ended, and the kept and evicted counts
/// add up.
pub proof fn lemma_evict_keeps_active(s: Seq<SessionLeaseView>, now: int, address: Seq<char>)
    requires
        addresses_unique(s),
    ensures
        active_in(live(s, now), address, now) == active_in(s, address, now),
        live(s, now).len() + lapsed(s, now).len() == s.len(),
        addresses_unique(live(s, now)),
{
    lemma_live_members(s, now);
    lemma_index_of(s, address);
    lemma_index_of(live(s, now), address);
    let v = live(s, now);
    if active_in(s, address, now) {
        let k = index_of(s, address);
        assert(s.contains(s[k]));
        assert(v.contains(s[k]));
        let j = choose|j: int| 0 <= j < v.len() && v[j] == s[k];
        assert(index_of(v, address) == j);
    }
    if active_in(v, address, now) {
        let j = index_of(v, address);
        assert(v.contains(v[j]));
        let k = choose|k: int| 0 <= k < s.len() && s[k] == v[j];
        assert(index_of(s, address) == k);
    }
}

proof fn lemma_lapsed_members(s: Seq<SessionLeaseView>, now: int)
    ensures
        forall|a: Seq<char>|
            #[trigger] lapsed(s, now).contains(a) <==> exists|k: int|
                0 <= k < s.len() && s[k].address == a && s[k].expire_timestamp <= now,
    decreases s.len(),
{
    if s.len() > 0 {
        let d = s.drop_last();
        lemma_lapsed_members(d, now);
        assert forall|a: Seq<char>|
            #[trigger] lapsed(s, now).contains(a) <==> exists|k: int|
                0 <= k < s.len() && s[k].address == a && s[k].expire_timestamp <= now by {
            if lapsed(s, now).contains(a) {
                let j = choose|j: int| 0 <= j < lapsed(s, now).len() && lapsed(s, now)[j] == a;
                if s.last().expire_timestamp <= now && j == lapsed(d, now).len() {
                    assert(s[s.len() - 1].address == a);
                } else {
                    assert(lapsed(d, now)[j] == a);
                    assert(lapsed(d, now).contains(a));
                    let k = choose|k: int| 0 <= k < d.len() && d[k].address == a && d[k].expire_timestamp <= now;
                    assert(s[k] == d[k]);
                }
            }
            if exists|k: int| 0 <= k < s.len() && s[k].address == a && s[k].expire_timestamp <= now {
                let k = choose|k: int| 0 <= k < s.len() && s[k].address == a && s[k].expire_timestamp <= now;
                if k < s.len() - 1 {
                    assert(d[k] == s[k]);
                    assert(lapsed(d, now).contains(a));
                    let j = choose|j: int| 0 <= j < lapsed(d, now).len() && lapsed(d, now)[j] == a;
                    assert(lapsed(s, now)[j] == a);
                } else {
                    assert(lapsed(s, now)[lapsed(d, now).len() as int] == a);
                }
            }
        }
    }
}

/// Eviction at `now` splits the leases: what stays is exactly the leases
/// running at `now`, unchanged; what is evicted is exactly the addresses
/// whose lease has ended at `now`; and the two counts add up.
pub proof fn lemma_eviction_splits_leases(s: Seq<SessionLeaseView>, now: int)
    ensures
        forall|x: SessionLeaseView| #[trigger] live(s, now).contains(x) <==> s.contains(x) && x.expire_timestamp > now,
        forall|a: Seq<char>|
            #[trigger] lapsed(s, now).contains(a) <==> exists|k: int|
                0 <= k < s.len() && s[k].address == a && s[k].expire_timestamp <= now,
        live(s, now).len() + lapsed(s, now).len() == s.len(),
{
    lemma_live_members(s, now);
    lemma_lapsed_members(s, now);
}

/// A lapse is for good: a session server whose lease is not running at
/// some time is not active at any later time, and an eviction judged no
/// earlier than `latest` keeps only leases that run past `latest`.
pub proof fn lemma_lapsed_session_stays_inactive(s: Seq<SessionLeaseView>, address: Seq<char>, latest: int, now: int)
    requires
        latest <= now,
    ensures
        active_in(s, address, now) ==> active_in(s, address, latest),
        forall|k: int| 0 <= k < live(s, now).len() ==> #[trigger] live(s, now)[k].expire_timestamp > latest,
{
    lemma_live_members(s, now);
    assert forall|k: int| 0 <= k < live(s, now).len() implies #[trigger] live(s, now)[k].expire_timestamp
        > latest by {
        assert(live(s, now).contains(live(s, now)[k]));
    }
}

/// A renewal at `t` keeps the session server active at every time before
/// its lease ends, `expiry(t, duration)`.
pub proof fn lemma_renewal_keeps_session_active(
    s: Seq<SessionLeaseView>,
    address: Seq<char>,
    process_id: Seq<char>,
    t: i64,
    duration: i64,
    now: int,
)
    requires
        addresses_unique(s),
        duration >= 0,
        t <= now < expiry(t, duration),
    ensures
        active_in(
            renewed(
                s,
                SessionLeaseView {
                    address,
                    process_id,
                    last_renew_timestamp: t,
                    expire_timestamp: expiry(t, duration),
                },
            ),
            address,
            now,
        ),
{
    let l = SessionLeaseView { address, process_id, last_renew_timestamp: t, expire_timestamp: expiry(t, duration) };
    lemma_renew_then_active(s, l, now, address);
}

/// Leases of session servers, one per address.
pub struct SessionLeaseManager {
    sessions: Vec<SessionLease>,
    lease_duration_ms: i64,
    latest: i64,
}

impl SessionLeaseManager {
    #[verifier::type_invariant]
    spec fn one_lease_per_address(self) -> bool {
        &&& addresses_unique(lease_views(self.sessions@))
        &&& self.lease_duration_ms >= 0
    }

    /// The leases held, in the order their addresses first renewed.
    pub closed spec fn leases(&self) -> Seq<SessionLeaseView> {
        lease_views(self.sessions@)
    }

    /// The lease length in milliseconds.
    pub closed spec fn duration_ms(&self) -> i64 {
        self.lease_duration_ms
    }

    /// The latest time this manager has been told or has read from the
    /// wall clock; a reading of the clock is never earlier.
    pub closed spec fn latest_reading(&self) -> i64 {
        self.latest
    }

    fn read_clock(&self) -> (now: i64)
        ensures
            now >= self.latest_reading(),
    {
        let r = now_millis();
        if r > self.latest {
            r
        } else {
            self.latest
        }
    }

    /// A manager without leases, granting leases of `lease_duration_secs`
    /// seconds (in milliseconds, at most `i64::MAX`).
    pub fn new(lease_duration_secs: u64) -> (m: SessionLeaseManager)
        ensures
            m.leases().len() == 0,
            m.latest_reading() == i64::MIN,
            m.duration_ms() == (if lease_duration_secs * 1000 <= i64::MAX {
                lease_duration_secs * 1000
            } else {
                i64::MAX as int
            }),
    {
        let ms: i64 = if lease_duration_secs <= (i64::MAX as u64) / 1000 {
            (lease_duration_secs * 1000) as i64
        } else {
            i64::MAX
        };
        let m = SessionLeaseManager { sessions: Vec::new(), lease_duration_ms: ms, latest: i64::MIN };
        assert(m.leases() =~= Seq::<SessionLeaseView>::empty());
        m
    }

    fn find(&self, address: &str) -> (r: Option<usize>)
        ensures
            match r {
                Some(i) => i < self.sessions@.len() && i as int == index_of(self.leases(), address@),
                None => index_of(self.leases(), address@) == -1,
            },
    {
        proof {
            use_type_invariant(self);
            lemma_index_of(self.leases(), address@);
        }
        let mut i: usize = 0;
        while i < self.sessions.len()
            invariant
                i <= self.sessions.len(),
                addresses_unique(self.leases()),
                forall|k: int| 0 <= k < i ==> self.sessions@[k].address@ != address@,
            decreases self.sessions.len() - i,
        {
            if str_eq(self.sessions[i].address.as_str(), address) {
                assert(self.leases()[i as int].address == address@);
                proof {
                    lemma_index_of(self.leases(), address@);
                }
                return Some(i);
            }
            i = i + 1;
        }
        assert forall|k: int| 0 <= k < self.leases().len() implies self.leases()[k].address
            != address@ by {
            assert(self.leases()[k] == self.sessions@[k]@);
        }
        None
    }

    /// Registers or renews the lease of `address` at `now`; it ends
    /// `expiry(now, duration)`.
    pub fn renew_at(&mut self, address: &str, process_id: &str, now: i64)
        ensures
            final(self).leases() == renewed(
                old(self).leases(),
                SessionLeaseView {
                    address: address@,
                    process_id: process_id@,
                    last_renew_timestamp: now,
                    expire_timestamp: expiry(now, old(self).duration_ms()),
                },
            ),
            final(self).duration_ms() == old(self).duration_ms(),
            final(self).latest_reading() == later(old(self).latest_reading(), now),
    {
        proof {
            use_type_invariant(&*self);
        }
        let expire: i64 = if now > 0 && self.lease_duration_ms > i64::MAX - now {
            i64::MAX
        } else {
            now + self.lease_duration_ms
        };
        let lease = SessionLease {
            address: address.to_string(),
            process_id: process_id.to_string(),
            last_renew_timestamp: now,
            expire_timestamp: expire,
        };
        let ghost before = self.leases();
        proof {
            lemma_renewed_unique(before, lease@);
        }
        let found = self.find(address);
        let mut sessions: Vec<SessionLease> = Vec::new();
        std::mem::swap(&mut sessions, &mut self.sessions);
        match found {
            Some(i) => {
                sessions.set(i, lease);
                assert(lease_views(sessions@) =~= before.update(i as int, lease@));
            },
            None => {
                sessions.push(lease);
                assert(lease_views(sessions@) =~= before.push(lease@));
            },
        }
        self.sessions = sessions;
        if now > self.latest {
            self.latest = now;
        }
    }

    /// Registers or renews the lease of `address` now.
    pub fn renew(&mut self, address: &str, process_id: &str)
        ensures
            exists|now: i64|
                final(self).leases() == renewed(
                    old(self).leases(),
                    SessionLeaseView {
                        address: address@,
                        process_id: process_id@,
                        last_renew_timestamp: now,
                        expire_timestamp: #[trigger] expiry(now, old(self).duration_ms()),
                    },
                ),
            final(self).duration_ms() == old(self).duration_ms(),
            final(self).latest_reading() >= old(self).latest_reading(),
            final(self).leases() == renewed(
                old(self).leases(),
                SessionLeaseView {
                    address: address@,
                    process_id: process_id@,
                    last_renew_timestamp: final(self).latest_reading(),
                    expire_timestamp: expiry(final(self).latest_reading(), old(self).duration_ms()),
                },
            ),
            forall|t: int|
                final(self).latest_reading() <= t < expiry(final(self).latest_reading(), old(self).duration_ms())
                    ==> #[trigger] active_in(final(self).leases(), address@, t),
    {
        proof {
            use_type_invariant(&*self);
        }
        let now = self.read_clock();
        self.renew_at(address, process_id, now);
        proof {
            assert forall|t: int| now <= t < expiry(now, old(self).duration_ms()) implies #[trigger] active_in(
                final(self).leases(),
                address@,
                t,
            ) by {
                lemma_renewal_keeps_session_active(
                    old(self).leases(),
                    address@,
                    process_id@,
                    now,
                    old(self).duration_ms(),
                    t,
                );
            }
        }
    }

    /// Whether `address` holds a lease still running at `now`.
    pub fn is_active_at(&self, address: &str, now: i64) -> (r: bool)
        ensures
            r == active_in(self.leases(), address@, now as int),
    {
        match self.find(address) {
            Some(i) => self.sessions[i].expire_timestamp > now,
            None => false,
        }
    }

    /// Whether `address` holds a lease still running now.
    pub fn is_active(&self, address: &str) -> (r: bool)
        ensures
            exists|now: int| r == #[trigger] active_in(self.leases(), address@, now),
            exists|now: int| now >= self.latest_reading() && r == #[trigger] active_in(self.leases(), address@, now),
            r ==> index_of(self.leases(), address@) >= 0 && self.leases()[index_of(
                self.leases(),
                address@,
            )].expire_timestamp > self.latest_reading(),
    {
        let now = self.read_clock();
        proof {
            lemma_lapsed_session_stays_inactive(self.leases(), address@, self.latest_reading() as int, now as int);
        }
        self.is_active_at(address, now)
    }

    /// Removes the leases that have ended at `now`, returning their
    /// addresses in order.
    pub fn evict_expired_at(&mut self, now: i64) -> (expired: Vec<String>)
        ensures
            final(self).leases() == live(old(self).leases(), now as int),
            strs(expired@) == lapsed(old(self).leases(), now as int),
            final(self).duration_ms() == old(self).duration_ms(),
            final(self).latest_reading() == later(old(self).latest_reading(), now),
    {
        proof {
            use_type_invariant(&*self);
            lemma_live_members(self.leases(), now as int);
        }
        let ghost orig = self.leases();
        let mut kept: Vec<SessionLease> = Vec::new();
        let mut expired: Vec<String> = Vec::new();
        let mut rest: Vec<SessionLease> = Vec::new();
        std::mem::swap(&mut rest, &mut self.sessions);
        let ghost all = rest@;
        let total = rest.len();
        let mut i: usize = 0;
        assert(orig.take(0) =~= Seq::<SessionLeaseView>::empty());
        assert(lease_views(kept@) =~= Seq::<SessionLeaseView>::empty());
        assert(strs(expired@) =~= Seq::<Seq<char>>::empty());
        assert(rest@ =~= all.skip(0));
        while rest.len() > 0
            invariant
                i + rest@.len() == all.len(),
                all.len() == total,
                rest@ == all.skip(i as int),
                orig == lease_views(all),
                lease_views(kept@) == live(orig.take(i as int), now as int),
                strs(expired@) == lapsed(orig.take(i as int), now as int),
            decreases rest@.len(),
        {
            let lease = rest.remove(0);
            assert(lease == all[i as int]);
            assert(orig.take(i + 1).drop_last() =~= orig.take(i as int));
            assert(orig.take(i + 1).last() == lease@);
            assert(rest@ =~= all.skip(i + 1));
            if lease.expire_timestamp > now {
                let ghost before = lease_views(kept@);
                kept.push(lease);
                assert(lease_views(kept@) =~= before.push(lease@));
            } else {
                let ghost before = strs(expired@);
                expired.push(lease.address);
                assert(strs(expired@) =~= before.push(lease@.address));
            }
            i = i + 1;
        }
        assert(orig.take(i as int) =~= orig);
        self.sessions = kept;
        if now > self.latest {
            self.latest = now;
        }
        expired
    }

    /// Removes the leases that have ended now, returning their addresses.
    pub fn evict_expired(&mut self) -> (expired: Vec<String>)
        ensures
            exists|now: int|
                final(self).leases() == #[trigger] live(old(self).leases(), now) && strs(expired@)
                    == lapsed(old(self).leases(), now),
            final(self).duration_ms() == old(self).duration_ms(),
            final(self).latest_reading() >= old(self).latest_reading(),
            final(self).leases() == live(old(self).leases(), final(self).latest_reading() as int),
            strs(expired@) == lapsed(old(self).leases(), final(self).latest_reading() as int),
            forall|k: int|
                0 <= k < final(self).leases().len() ==> #[trigger] final(self).leases()[k].expire_timestamp
                    > old(self).latest_reading(),
    {
        let now = self.read_clock();
        let r = self.evict_expired_at(now);
        proof {
            lemma_lapsed_session_stays_inactive(
                old(self).leases(),
                Seq::empty(),
                old(self).latest_reading() as int,
                now as int,
            );
        }
        r
    }

    /// The addresses whose lease is still running at `now`, in order.
    pub fn active_sessions_at(&self, now: i64) -> (r: Vec<String>)
        ensures
            strs(r@) == addresses(live(self.leases(), now as int)),
    {
        let ghost orig = self.leases();
        let mut out: Vec<String> = Vec::new();
        let mut i: usize = 0;
        assert(orig.take(0) =~= Seq::<SessionLeaseView>::empty());
        assert(strs(out@) =~= addresses(live(orig.take(0), now as int)));
        while i < self.sessions.len()
            invariant
                i <= self.sessions.len(),
                orig == self.leases(),
                strs(out@) == addresses(live(orig.take(i as int), now as int)),
            decreases self.sessions.len() - i,
        {
            assert(orig.take(i + 1).drop_last() =~= orig.take(i as int));
            assert(orig.take(i + 1).last() == self.sessions@[i as int]@);
            if self.sessions[i].expire_timestamp > now {
                let ghost before = strs(out@);
                out.push(self.sessions[i].address.clone());
                assert(strs(out@) =~= before.push(self.sessions@[i as int].address@));
                assert(addresses(live(orig.take(i + 1), now as int)) =~= addresses(
                    live(orig.take(i as int), now as int),
                ).push(self.sessions@[i as int].address@));
            }
            i = i + 1;
        }
        assert(orig.take(self.sessions.len() as int) =~= orig);
        out
    }

    /// The addresses whose lease is still running now.
    pub fn active_sessions(&self) -> (r: Vec<String>)
        ensures
            exists|now: int| strs(r@) == addresses(#[trigger] live(self.leases(), now)),
            exists|now: int| now >= self.latest_reading() && strs(r@) == addresses(#[trigger] live(self.leases(), now)),
    {
        let now = self.read_clock();
        self.active_sessions_at(now)
    }

    /// Number of leases held, ended or not.
    pub fn session_count(&self) -> (r: usize)
        ensures
            r == self.leases().len(),
    {
        self.sessions.len()
    }

    /// Removes the lease of `address`, if any.
    pub fn remove(&mut self, address: &str)
        ensures
            index_of(old(self).leases(), address@) >= 0 ==> final(self).leases() == old(
                self,
            ).leases().remove(index_of(old(self).leases(), address@)),
            index_of(old(self).leases(), address@) < 0 ==> final(self).leases() == old(
                self,
            ).leases(),
            final(self).duration_ms() == old(self).duration_ms(),
            final(self).latest_reading() == old(self).latest_reading(),
    {
        proof {
            use_type_invariant(&*self);
        }
        let ghost before = self.leases();
        match self.find(address) {
            Some(i) => {
                let mut sessions: Vec<SessionLease> = Vec::new();
                std::mem::swap(&mut sessions, &mut self.sessions);
                sessions.remove(i);
                assert(lease_views(sessions@) =~= before.remove(i as int));
                assert forall|p: int, q: int|
                    0 <= p < q < lease_views(sessions@).len() implies #[trigger] lease_views(
                    sessions@,
                )[p].address != #[trigger] lease_views(sessions@)[q].address by {
                    let p2 = if p < i { p } else { p + 1 };
                    let q2 = if q < i { q } else { q + 1 };
                    assert(lease_views(sessions@)[p] == before[p2]);
                    assert(lease_views(sessions@)[q] == before[q2]);
                }
                self.sessions = sessions;
            },
            None => {},
        }
    }
}

} // verus!
