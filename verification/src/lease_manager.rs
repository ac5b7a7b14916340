//! Leases of registered nodes: a node stays registered while it renews its
//! lease within the lease duration.
use vstd::prelude::*;
use std::sync::Arc;
use crate::clock::{instant_now, later, millis_since};
use std::time::Instant;
use crate::strings::{str_eq, strs};

verus! {

/// A node's lease. Times are milliseconds on the monotonic clock since
/// `origin`; the duration is in milliseconds.
pub struct Lease<T> {
    pub node: T,
    pub registered_at: i64,
    pub last_renewed: i64,
    pub duration: u64,
    pub origin: Instant,
}

/// A lease taken at `now` (milliseconds since `origin`).
pub open spec fn fresh_lease<T>(node: T, now: i64, duration: u64, origin: Instant) -> Lease<T> {
    Lease { node, registered_at: now, last_renewed: now, duration, origin }
}

/// The lease renewed at a clock reading `now`: its last renewal becomes
/// `now`, or stays where it is should `now` be earlier.
pub open spec fn renewed_lease<T>(l: Lease<T>, now: i64) -> Lease<T> {
    Lease {
        last_renewed: if now > l.last_renewed {
            now
        } else {
            l.last_renewed
        },
        ..l
    }
}

/// Time since the last renewal at `now`, never negative.
pub open spec fn elapsed_at<T>(l: Lease<T>, now: int) -> nat {
    if now > l.last_renewed {
        (now - l.last_renewed) as nat
    } else {
        0
    }
}

/// The lease has run out at `now`: more than its duration has passed
/// since the last renewal.
pub open spec fn expired_at<T>(l: Lease<T>, now: int) -> bool {
    elapsed_at(l, now) > l.duration
}

/// What is left of the lease at `now`, never negative.
pub open spec fn remaining_at<T>(l: Lease<T>, now: int) -> nat {
    if elapsed_at(l, now) >= l.duration {
        0
    } else {
        (l.duration - elapsed_at(l, now)) as nat
    }
}

fn elapsed_ms(last_renewed: i64, now: i64) -> (e: u64)
    ensures
        e == (if now > last_renewed {
            (now - last_renewed) as nat
        } else {
            0
        }),
{
    if now > last_renewed {
        let d: i128 = (now as i128) - (last_renewed as i128);
        d as u64
    } else {
        0
    }
}

impl<T> Lease<T> {
    /// A lease for `node` taken at `now`, milliseconds since `origin`.
    pub fn new_at(node: T, duration: u64, now: i64, origin: Instant) -> (l: Lease<T>)
        ensures
            l == fresh_lease(node, now, duration, origin),
    {
        Lease { node, registered_at: now, last_renewed: now, duration, origin }
    }

    /// A lease for `node` taken now, on a monotonic clock starting now;
    /// `duration` is in milliseconds.
    pub fn new(node: T, duration: u64) -> (l: Lease<T>)
        ensures
            l.node == node,
            l.duration == duration,
            l.registered_at == l.last_renewed,
            l.registered_at >= 0,
    {
        let origin = instant_now();
        let now = millis_since(&origin);
        Lease::new_at(node, duration, now, origin)
    }

    /// Renews the lease at `now`.
    pub fn renew_at(&mut self, now: i64)
        ensures
            *final(self) == (Lease { last_renewed: now, ..*old(self) }),
    {
        self.last_renewed = now;
    }

    /// Renews the lease now, by its monotonic clock: the last renewal
    /// becomes the time read, and never goes back.
    pub fn renew(&mut self)
        ensures
            final(self).last_renewed >= old(self).last_renewed,
            exists|now: i64|
                *final(self) == #[trigger] renewed_lease(*old(self), now),
    {
        let now = millis_since(&self.origin);
        let t = if now > self.last_renewed {
            now
        } else {
            self.last_renewed
        };
        self.renew_at(t);
        assert(*final(self) == renewed_lease(*old(self), now));
    }

    /// Whether the lease has run out at `now`.
    pub fn is_expired_at(&self, now: i64) -> (r: bool)
        ensures
            r == expired_at(*self, now as int),
    {
        elapsed_ms(self.last_renewed, now) > self.duration
    }

    /// Whether the lease has run out now: as at some time the clock gave.
    pub fn is_expired(&self) -> (r: bool)
        ensures
            exists|now: i64| r == #[trigger] expired_at(*self, now as int),
    {
        let now = millis_since(&self.origin);
        self.is_expired_at(now)
    }

    /// Milliseconds left on the lease at `now`.
    pub fn remaining_at(&self, now: i64) -> (r: u64)
        ensures
            r == remaining_at(*self, now as int),
    {
        let e = elapsed_ms(self.last_renewed, now);
        if e >= self.duration {
            0
        } else {
            self.duration - e
        }
    }

    /// Milliseconds left on the lease now: as at some time the clock gave.
    pub fn remaining(&self) -> (r: u64)
        ensures
            r <= self.duration,
            exists|now: i64| r == #[trigger] remaining_at(*self, now as int),
    {
        let now = millis_since(&self.origin);
        self.remaining_at(now)
    }
}

/// The entries after the lease under `key` is renewed at `now`: that
/// lease's last renewal becomes `now`, all else stays.
pub open spec fn renewed_entries<T>(s: Seq<(Seq<char>, Lease<T>)>, key: Seq<char>, now: i64) -> Seq<
    (Seq<char>, Lease<T>),
> {
    s.update(key_index(s, key), (key, Lease { last_renewed: now, ..s[key_index(s, key)].1 }))
}

/// Observer of lease lifecycle events.
pub trait LeaseObserver<T> {
    fn on_registered(&self, node: &T);

    fn on_renewed(&self, node: &T);

    fn on_evicted(&self, node: &T);
}

/// The lease events an observer is told of.
#[derive(Clone, Copy, Debug, PartialEq, Eq, Structural)]
pub enum LeaseEvent {
    Registered,
    Renewed,
    Evicted,
}

/// One call on an observer: which observer (its place among the
/// observers), which event, and about which node.
pub struct LeaseNotice<T> {
    pub observer: usize,
    pub event: LeaseEvent,
    pub node: T,
}

/// One call of `event` about `node` on each of the first `n` observers, in
/// the order they were added.
pub open spec fn notices_to<T>(n: nat, event: LeaseEvent, node: T) -> Seq<LeaseNotice<T>> {
    Seq::new(n, |k: int| LeaseNotice { observer: k as usize, event, node })
}

/// The calls for the eviction of `nodes`, one node after the other, each
/// told to every one of `n` observers.
pub open spec fn eviction_notices<T>(n: nat, nodes: Seq<T>) -> Seq<LeaseNotice<T>>
    decreases nodes.len(),
{
    if nodes.len() == 0 {
        Seq::empty()
    } else {
        eviction_notices(n, nodes.drop_last()) + notices_to(n, LeaseEvent::Evicted, nodes.last())
    }
}

/// Keys of lease entries.
pub open spec fn lease_keys<T>(s: Seq<(Seq<char>, Lease<T>)>) -> Seq<Seq<char>> {
    s.map_values(|e: (Seq<char>, Lease<T>)| e.0)
}

/// Position of a key among lease entries, or -1.
pub open spec fn key_index<T>(s: Seq<(Seq<char>, Lease<T>)>, key: Seq<char>) -> int
    decreases s.len(),
{
    if s.len() == 0 {
        -1
    } else if s.last().0 == key {
        s.len() - 1
    } else {
        key_index(s.drop_last(), key)
    }
}

/// The entries after registering `lease` under `key`: an entry with the key
/// is replaced in place, otherwise the entry is appended.
pub open spec fn upsert<T>(s: Seq<(Seq<char>, Lease<T>)>, key: Seq<char>, lease: Lease<T>) -> Seq<
    (Seq<char>, Lease<T>),
> {
    let p = key_index(s, key);
    if p >= 0 {
        s.update(p, (key, lease))
    } else {
        s.push((key, lease))
    }
}

/// The entries whose lease has not run out at `now`, in order.
pub open spec fn unexpired<T>(s: Seq<(Seq<char>, Lease<T>)>, now: int) -> Seq<
    (Seq<char>, Lease<T>),
>
    decreases s.len(),
{
    if s.len() == 0 {
        s
    } else if expired_at(s.last().1, now) {
        unexpired(s.drop_last(), now)
    } else {
        unexpired(s.drop_last(), now).push(s.last())
    }
}

/// The nodes whose lease has run out at `now`, in order.
pub open spec fn expired_nodes<T>(s: Seq<(Seq<char>, Lease<T>)>, now: int) -> Seq<T>
    decreases s.len(),
{
    if s.len() == 0 {
        Seq::empty()
    } else if expired_at(s.last().1, now) {
        expired_nodes(s.drop_last(), now).push(s.last().1.node)
    } else {
        expired_nodes(s.drop_last(), now)
    }
}

/// Keys are distinct.
pub open spec fn keys_unique<T>(s: Seq<(Seq<char>, Lease<T>)>) -> bool {
    forall|i: int, j: int| 0 <= i < j < s.len() ==> #[trigger] s[i].0 != #[trigger] s[j].0
}

/// In a table with unique keys, the index of a key is where it stands, or
/// -1 when it is absent.
pub proof fn lemma_key_index<T>(s: Seq<(Seq<char>, Lease<T>)>, key: Seq<char>)
    requires
        keys_unique(s),
    ensures
        key_index(s, key) == -1 <==> !lease_keys(s).contains(key),
        key_index(s, key) >= 0 ==> key_index(s, key) < s.len() && s[key_index(s, key)].0 == key,
        forall|k: int| 0 <= k < s.len() && s[k].0 == key ==> key_index(s, key) == k,
    decreases s.len(),
{
    if s.len() > 0 {
        assert(keys_unique(s.drop_last()));
        lemma_key_index(s.drop_last(), key);
        assert(lease_keys(s.drop_last()) =~= lease_keys(s).drop_last());
        if lease_keys(s).contains(key) {
            let k = choose|k: int| 0 <= k < s.len() && lease_keys(s)[k] == key;
            if k < s.len() - 1 {
                assert(lease_keys(s.drop_last())[k] == key);
            }
        }
        if lease_keys(s.drop_last()).contains(key) {
            let k = choose|k: int|
                0 <= k < s.len() - 1 && lease_keys(s.drop_last())[k] == key;
            assert(lease_keys(s)[k] == key);
        }
        assert(lease_keys(s)[s.len() - 1] == s.last().0);
        assert forall|k: int| 0 <= k < s.len() && s[k].0 == key implies key_index(s, key) == k by {
            if k < s.len() - 1 {
                assert(s.drop_last()[k] == s[k]);
                assert(s[k].0 != s[s.len() - 1].0);
            }
        }
    } else {
        assert(lease_keys(s) =~= Seq::<Seq<char>>::empty());
    }
}

proof fn lemma_upsert_unique<T>(s: Seq<(Seq<char>, Lease<T>)>, key: Seq<char>, lease: Lease<T>)
    requires
        keys_unique(s),
    ensures
        keys_unique(upsert(s, key, lease)),
{
    lemma_key_index(s, key);
    if key_index(s, key) < 0 {
        assert forall|k: int| 0 <= k < s.len() implies s[k].0 != key by {
            assert(lease_keys(s)[k] == s[k].0);
        }
    }
}

proof fn lemma_unexpired_unique<T>(s: Seq<(Seq<char>, Lease<T>)>, now: int)
    requires
        keys_unique(s),
    ensures
        keys_unique(unexpired(s, now)),
        forall|k: int|
            0 <= k < unexpired(s, now).len() ==> lease_keys(s).contains(
                #[trigger] unexpired(s, now)[k].0,
            ),
    decreases s.len(),
{
    if s.len() > 0 {
        assert(keys_unique(s.drop_last()));
        lemma_unexpired_unique(s.drop_last(), now);
        let p = unexpired(s.drop_last(), now);
        assert forall|k: int| 0 <= k < p.len() implies lease_keys(s).contains(#[trigger] p[k].0) by {
            let q = choose|q: int| 0 <= q < s.len() - 1 && lease_keys(s.drop_last())[q] == p[k].0;
            assert(lease_keys(s)[q] == p[k].0);
        }
        assert(lease_keys(s)[s.len() - 1] == s.last().0);
        if !expired_at(s.last().1, now) {
            assert forall|k: int| 0 <= k < p.len() implies p[k].0 != s.last().0 by {
                let q = choose|q: int| 0 <= q < s.len() - 1 && lease_keys(s.drop_last())[q] == p[k].0;
                assert(s[q].0 != s[s.len() - 1].0);
            }
        }
    }
}

/// What a lookup gives back after a registration: the key is present, its
/// lease is the one just registered, keys stay distinct, and every other key
/// keeps its place and its lease.
pub proof fn lemma_register_then_lookup<T>(
    s: Seq<(Seq<char>, Lease<T>)>,
    key: Seq<char>,
    lease: Lease<T>,
    other: Seq<char>,
)
    requires
        keys_unique(s),
    ensures
        keys_unique(upsert(s, key, lease)),
        lease_keys(upsert(s, key, lease)).contains(key),
        key_index(upsert(s, key, lease), key) >= 0,
        upsert(s, key, lease)[key_index(upsert(s, key, lease), key)].1 == lease,
        other != key ==> key_index(upsert(s, key, lease), other) == key_index(s, other),
        other != key && key_index(s, other) >= 0 ==> upsert(s, key, lease)[key_index(
            s,
            other,
        )] == s[key_index(s, other)],
        upsert(s, key, lease).len() == s.len() + (if lease_keys(s).contains(key) {
            0int
        } else {
            1int
        }),
{
    lemma_key_index(s, key);
    lemma_key_index(s, other);
    lemma_upsert_unique(s, key, lease);
    let u = upsert(s, key, lease);
    lemma_key_index(u, key);
    lemma_key_index(u, other);
    let p = key_index(s, key);
    if p >= 0 {
        assert(u[p].0 == key);
    } else {
        assert(u[s.len() as int].0 == key);
    }
    if other != key && key_index(s, other) >= 0 {
        assert(u[key_index(s, other)].0 == other);
    }
    if other != key && key_index(s, other) < 0 {
        if key_index(u, other) >= 0 {
            let q = key_index(u, other);
            assert(u[q].0 == other);
            if p >= 0 {
                assert(q != p);
                assert(s[q].0 == other);
            } else {
                assert(q < s.len());
                assert(s[q].0 == other);
            }
            assert(lease_keys(s)[q] == other);
            assert(false);
        }
    }
}

/// Removing a key that was registered for the first time gives back the
/// entries from before the registration.
pub proof fn lemma_remove_undoes_register<T>(
    s: Seq<(Seq<char>, Lease<T>)>,
    key: Seq<char>,
    lease: Lease<T>,
)
    requires
        keys_unique(s),
        !lease_keys(s).contains(key),
    ensures
        upsert(s, key, lease).remove(key_index(upsert(s, key, lease), key)) == s,
{
    lemma_key_index(s, key);
    lemma_upsert_unique(s, key, lease);
    let u = upsert(s, key, lease);
    lemma_key_index(u, key);
    assert(u == s.push((key, lease)));
    assert(u[s.len() as int].0 == key);
    assert(key_index(u, key) == s.len());
    assert(u.remove(s.len() as int) =~= s);
}

/// Eviction splits the entries: what stays has not run out, what has not run
/// out stays, and the kept and evicted counts add up to the entries before.
/// Evicting again at the same time removes nothing more.
pub proof fn lemma_eviction_partitions<T>(s: Seq<(Seq<char>, Lease<T>)>, now: int)
    ensures
        unexpired(s, now).len() + expired_nodes(s, now).len() == s.len(),
        forall|k: int|
            0 <= k < unexpired(s, now).len() ==> !expired_at(#[trigger] unexpired(s, now)[k].1, now),
        forall|k: int|
            0 <= k < s.len() && !expired_at(#[trigger] s[k].1, now) ==> unexpired(s, now).contains(
                s[k],
            ),
        unexpired(unexpired(s, now), now) == unexpired(s, now),
        expired_nodes(unexpired(s, now), now).len() == 0,
    decreases s.len(),
{
    if s.len() > 0 {
        let d = s.drop_last();
        lemma_eviction_partitions(d, now);
        let p = unexpired(d, now);
        assert forall|k: int| 0 <= k < s.len() && !expired_at(#[trigger] s[k].1, now) implies unexpired(
            s,
            now,
        ).contains(s[k]) by {
            if k < s.len() - 1 {
                assert(d[k] == s[k]);
                let j = choose|j: int| 0 <= j < p.len() && p[j] == d[k];
                if expired_at(s.last().1, now) {
                    assert(unexpired(s, now)[j] == s[k]);
                } else {
                    assert(unexpired(s, now)[j] == s[k]);
                }
            } else {
                assert(unexpired(s, now)[p.len() as int] == s[k]);
            }
        }
        if !expired_at(s.last().1, now) {
            let u = unexpired(s, now);
            assert(u == p.push(s.last()));
            assert(u.drop_last() =~= p);
            assert(unexpired(u, now) == unexpired(p, now).push(s.last()));
            assert(expired_nodes(u, now) == expired_nodes(p, now));
        }
    }
}

/// A lease renewed (or taken) at `now` has not run out at `now`.
pub proof fn lemma_renewed_lease_is_live<T>(l: Lease<T>, now: i64)
    ensures
        !expired_at(Lease { last_renewed: now, ..l }, now as int),
        remaining_at(Lease { last_renewed: now, ..l }, now as int) == l.duration,
{
}

/// No lease was renewed after `t`.
pub open spec fn renewed_by<T>(s: Seq<(Seq<char>, Lease<T>)>, t: i64) -> bool {
    forall|j: int| 0 <= j < s.len() ==> #[trigger] s[j].1.last_renewed <= t
}

/// A lapse is for good: a lease that has run out at some time has run out
/// at every later time, and what is left of it never grows.
pub proof fn lemma_lapse_is_permanent<T>(l: Lease<T>, t1: int, t2: int)
    requires
        t1 <= t2,
    ensures
        expired_at(l, t1) ==> expired_at(l, t2),
        !expired_at(l, t2) ==> !expired_at(l, t1),
        remaining_at(l, t2) <= remaining_at(l, t1),
{
}

/// Eviction judged at a clock reading no earlier than `latest` removes
/// every lease that had already run out at `latest`, and keeps only leases
/// still running at `latest`.
pub proof fn lemma_eviction_after_latest<T>(s: Seq<(Seq<char>, Lease<T>)>, latest: int, now: int)
    requires
        latest <= now,
    ensures
        forall|k: int|
            0 <= k < s.len() && expired_at(#[trigger] s[k].1, latest) ==> !unexpired(s, now).contains(s[k]),
        forall|j: int|
            0 <= j < unexpired(s, now).len() ==> !expired_at(#[trigger] unexpired(s, now)[j].1, latest),
{
    lemma_eviction_partitions(s, now);
    assert forall|k: int| 0 <= k < s.len() && expired_at(#[trigger] s[k].1, latest) implies !unexpired(
        s,
        now,
    ).contains(s[k]) by {
        lemma_lapse_is_permanent(s[k].1, latest, now);
        if unexpired(s, now).contains(s[k]) {
            let j = choose|j: int| 0 <= j < unexpired(s, now).len() && unexpired(s, now)[j] == s[k];
            assert(!expired_at(unexpired(s, now)[j].1, now));
        }
    }
    assert forall|j: int| 0 <= j < unexpired(s, now).len() implies !expired_at(
        #[trigger] unexpired(s, now)[j].1,
        latest,
    ) by {
        lemma_lapse_is_permanent(unexpired(s, now)[j].1, latest, now);
    }
}

/// A renewal at the latest reading `t` makes the lease the most recently
/// renewed one and keeps it running for its whole duration after `t`: it
/// has not run out at any time from `t` to `t` plus its duration.
pub proof fn lemma_renewal_extends_lease<T>(s: Seq<(Seq<char>, Lease<T>)>, key: Seq<char>, t: i64, now: int)
    requires
        keys_unique(s),
        renewed_by(s, t),
        lease_keys(s).contains(key),
    ensures
        ({
            let r = renewed_entries(s, key, t);
            let i = key_index(s, key);
            &&& renewed_by(r, t)
            &&& r[i].1.last_renewed == t
            &&& forall|j: int| 0 <= j < r.len() ==> #[trigger] r[j].1.last_renewed <= r[i].1.last_renewed
            &&& t <= now <= t + r[i].1.duration ==> !expired_at(r[i].1, now)
        }),
{
    lemma_key_index(s, key);
    let r = renewed_entries(s, key, t);
    let i = key_index(s, key);
    assert forall|j: int| 0 <= j < r.len() implies #[trigger] r[j].1.last_renewed <= t by {
        if j != i {
            assert(r[j] == s[j]);
        }
    }
}

proof fn lemma_unexpired_renewed_by<T>(s: Seq<(Seq<char>, Lease<T>)>, now: int, t: i64)
    requires
        renewed_by(s, t),
    ensures
        renewed_by(unexpired(s, now), t),
    decreases s.len(),
{
    if s.len() > 0 {
        let d = s.drop_last();
        assert forall|j: int| 0 <= j < d.len() implies #[trigger] d[j].1.last_renewed <= t by {
            assert(d[j] == s[j]);
        }
        lemma_unexpired_renewed_by(d, now, t);
        assert(s[s.len() - 1] == s.last());
    }
}

/// Leases of a set of nodes, each under a distinct key.
#[verifier::reject_recursive_types(T)]
pub struct LeaseManager<T> {
    leases: Vec<(String, Lease<T>)>,
    default_duration: u64,
    observers: Vec<Arc<dyn LeaseObserver<T> + 'static>>,
    told: Ghost<Seq<LeaseNotice<T>>>,
    origin: Instant,
    latest: i64,
}

/// The model of the stored entries.
pub open spec fn entry_views<T>(v: Seq<(String, Lease<T>)>) -> Seq<(Seq<char>, Lease<T>)> {
    v.map_values(|e: (String, Lease<T>)| (e.0@, e.1))
}

impl<T: Clone + 'static> LeaseManager<T> {
    /// The entries (key, lease) in registration order.
    pub closed spec fn entries(&self) -> Seq<(Seq<char>, Lease<T>)> {
        entry_views(self.leases@)
    }

    /// The duration, in milliseconds, of leases this manager grants.
    pub closed spec fn lease_duration(&self) -> u64 {
        self.default_duration
    }

    /// The observers told of lease events, in the order they were added.
    pub closed spec fn observers(&self) -> Seq<Arc<dyn LeaseObserver<T> + 'static>> {
        self.observers@
    }

    /// The calls made on the observers so far, in order.
    pub closed spec fn notices(&self) -> Seq<LeaseNotice<T>> {
        self.told@
    }

    /// The start of this manager's monotonic clock: its times are
    /// milliseconds since then.
    pub closed spec fn origin(&self) -> Instant {
        self.origin
    }

    /// The latest time this manager has been told or has read from its
    /// clock; a reading of the clock is never earlier.
    pub closed spec fn latest_reading(&self) -> i64 {
        self.latest
    }

    /// Keys are distinct, and no lease was renewed after the latest reading.
    pub open spec fn wf(&self) -> bool {
        &&& keys_unique(self.entries())
        &&& renewed_by(self.entries(), self.latest_reading())
    }

    /// The keys, in registration order.
    pub open spec fn keys(&self) -> Seq<Seq<char>> {
        lease_keys(self.entries())
    }

    /// A manager without leases, granting leases of `lease_duration_secs`
    /// seconds (saturating in milliseconds).
    pub fn new(lease_duration_secs: u64) -> (m: Self)
        ensures
            m.wf(),
            m.entries() == Seq::<(Seq<char>, Lease<T>)>::empty(),
            m.observers().len() == 0,
            m.notices().len() == 0,
            m.latest_reading() == 0,
            m.lease_duration() == (if lease_duration_secs * 1000 <= u64::MAX {
                lease_duration_secs * 1000
            } else {
                u64::MAX as int
            }),
    {
        let ms: u64 = if lease_duration_secs <= u64::MAX / 1000 {
            lease_duration_secs * 1000
        } else {
            u64::MAX
        };
        let m = LeaseManager {
            leases: Vec::new(),
            default_duration: ms,
            observers: Vec::new(),
            told: Ghost(Seq::empty()),
            origin: instant_now(),
            latest: 0,
        };
        assert(m.entries() =~= Seq::<(Seq<char>, Lease<T>)>::empty());
        m
    }

    fn find(&self, key: &str) -> (r: Option<usize>)
        requires
            self.wf(),
        ensures
            match r {
                Some(i) => i < self.leases@.len() && i as int == key_index(self.entries(), key@),
                None => key_index(self.entries(), key@) == -1,
            },
    {
        proof {
            lemma_key_index(self.entries(), key@);
        }
        let mut i: usize = 0;
        while i < self.leases.len()
            invariant
                i <= self.leases.len(),
                self.wf(),
                forall|k: int| 0 <= k < i ==> self.leases@[k].0@ != key@,
            decreases self.leases.len() - i,
        {
            if str_eq(self.leases[i].0.as_str(), key) {
                assert(self.entries()[i as int].0 == key@);
                proof {
                    lemma_key_index(self.entries(), key@);
                }
                return Some(i);
            }
            i = i + 1;
        }
        assert forall|k: int| 0 <= k < self.entries().len() implies self.entries()[k].0 != key@ by {
            assert(self.entries()[k].0 == self.leases@[k].0@);
        }
        None
    }

    /// Reads the manager's clock: milliseconds since its origin, never
    /// earlier than the latest reading.
    fn read_clock(&self) -> (now: i64)
        ensures
            now >= self.latest_reading(),
    {
        let r = millis_since(&self.origin);
        if r > self.latest {
            r
        } else {
            self.latest
        }
    }

    /// Registers `node` under `key` with a fresh lease taken at `now`,
    /// replacing an earlier lease under the same key. True when the key was
    /// new.
    pub fn register_at(&mut self, key: String, node: T, now: i64) -> (is_new: bool)
        requires
            old(self).wf(),
        ensures
            final(self).wf(),
            is_new == !old(self).keys().contains(key@),
            final(self).entries() == upsert(
                old(self).entries(),
                key@,
                fresh_lease(node, now, old(self).lease_duration(), old(self).origin()),
            ),
            final(self).origin() == old(self).origin(),
            final(self).lease_duration() == old(self).lease_duration(),
            final(self).observers() == old(self).observers(),
            final(self).notices() == old(self).notices() + notices_to(
                old(self).observers().len(),
                LeaseEvent::Registered,
                node,
            ),
            final(self).latest_reading() == later(old(self).latest_reading(), now),
    {
        proof {
            lemma_key_index(self.entries(), key@);
            lemma_upsert_unique(
                self.entries(),
                key@,
                fresh_lease(node, now, self.default_duration, self.origin),
            );
        }
        let ghost before = self.entries();
        let lease = Lease::new_at(node, self.default_duration, now, self.origin);
        let found = self.find(key.as_str());
        let ghost start = self.told@;
        let ghost obs = self.observers@;
        let ghost leases0 = self.leases@;
        let ghost d0 = self.default_duration;
        let mut k: usize = 0;
        assert(notices_to(0, LeaseEvent::Registered, lease.node) =~= Seq::<LeaseNotice<T>>::empty());
        while k < self.observers.len()
            invariant
                k <= self.observers.len(),
                self.observers@ == obs,
                self.leases@ == leases0,
                self.default_duration == d0,
                self.origin == old(self).origin,
                self.latest == old(self).latest,
                self.told@ == start + notices_to(k as nat, LeaseEvent::Registered, lease.node),
            decreases self.observers.len() - k,
        {
            self.observers[k].on_registered(&lease.node);
            self.told = Ghost(self.told@.push(LeaseNotice { observer: k, event: LeaseEvent::Registered, node: lease.node }));
            assert(notices_to((k + 1) as nat, LeaseEvent::Registered, lease.node) =~= notices_to(
                k as nat,
                LeaseEvent::Registered,
                lease.node,
            ).push(LeaseNotice { observer: k, event: LeaseEvent::Registered, node: lease.node }));
            k = k + 1;
        }
        if now > self.latest {
            self.latest = now;
        }
        let ghost t = self.latest;
        assert(renewed_by(before, t));
        match found {
            Some(i) => {
                self.leases.set(i, (key, lease));
                assert(self.entries() =~= before.update(i as int, (key@, lease)));
                assert(renewed_by(self.entries(), t));
                false
            },
            None => {
                self.leases.push((key, lease));
                assert(self.entries() =~= before.push((key@, lease)));
                assert(renewed_by(self.entries(), t));
                true
            },
        }
    }

    /// Registers `node` under `key` with a fresh lease taken now. True when
    /// the key was new.
    pub fn register(&mut self, key: String, node: T) -> (is_new: bool)
        requires
            old(self).wf(),
        ensures
            final(self).wf(),
            is_new == !old(self).keys().contains(key@),
            exists|now: i64|
                final(self).entries() == upsert(
                    old(self).entries(),
                    key@,
                    #[trigger] fresh_lease(node, now, old(self).lease_duration(), old(self).origin()),
                ),
            final(self).lease_duration() == old(self).lease_duration(),
            final(self).origin() == old(self).origin(),
            final(self).observers() == old(self).observers(),
            final(self).notices() == old(self).notices() + notices_to(
                old(self).observers().len(),
                LeaseEvent::Registered,
                node,
            ),
            final(self).latest_reading() >= old(self).latest_reading(),
            final(self).entries() == upsert(
                old(self).entries(),
                key@,
                fresh_lease(node, final(self).latest_reading(), old(self).lease_duration(), old(self).origin()),
            ),
    {
        let now = self.read_clock();
        let r = self.register_at(key, node, now);
        assert(final(self).entries() == upsert(
            old(self).entries(),
            key@,
            fresh_lease(node, now, old(self).lease_duration(), old(self).origin()),
        ));
        r
    }

    /// Renews the lease under `key` at `now`. False when there is none.
    pub fn renew_at(&mut self, key: &str, now: i64) -> (found: bool)
        requires
            old(self).wf(),
        ensures
            final(self).wf(),
            found == old(self).keys().contains(key@),
            found ==> final(self).entries() == renewed_entries(old(self).entries(), key@, now),
            !found ==> final(self).entries() == old(self).entries(),
            final(self).lease_duration() == old(self).lease_duration(),
            final(self).observers() == old(self).observers(),
            found ==> final(self).notices() == old(self).notices() + notices_to(
                old(self).observers().len(),
                LeaseEvent::Renewed,
                old(self).entries()[key_index(old(self).entries(), key@)].1.node,
            ),
            !found ==> final(self).notices() == old(self).notices(),
            final(self).latest_reading() == later(old(self).latest_reading(), now),
            final(self).origin() == old(self).origin(),
    {
        proof {
            lemma_key_index(self.entries(), key@);
        }
        if now > self.latest {
            self.latest = now;
        }
        let ghost before = self.entries();
        match self.find(key) {
            Some(i) => {
                let mut entry = self.leases.remove(i);
                entry.1.renew_at(now);
                let ghost start = self.told@;
                let ghost obs = self.observers@;
                let ghost leases0 = self.leases@;
                let ghost d0 = self.default_duration;
                let ghost node = entry.1.node;
                assert(notices_to(0, LeaseEvent::Renewed, node) =~= Seq::<LeaseNotice<T>>::empty());
                let mut k: usize = 0;
                while k < self.observers.len()
                    invariant
                        k <= self.observers.len(),
                        self.observers@ == obs,
                        self.leases@ == leases0,
                        self.default_duration == d0,
                        self.latest == later(old(self).latest, now),
                        self.origin == old(self).origin,
                        entry.1.node == node,
                        self.told@ == start + notices_to(k as nat, LeaseEvent::Renewed, node),
                    decreases self.observers.len() - k,
                {
                    self.observers[k].on_renewed(&entry.1.node);
                    self.told = Ghost(self.told@.push(LeaseNotice { observer: k, event: LeaseEvent::Renewed, node }));
                    assert(notices_to((k + 1) as nat, LeaseEvent::Renewed, node) =~= notices_to(
                        k as nat,
                        LeaseEvent::Renewed,
                        node,
                    ).push(LeaseNotice { observer: k, event: LeaseEvent::Renewed, node }));
                    k = k + 1;
                }
                self.leases.insert(i, entry);
                assert(self.entries() =~= before.update(i as int, (key@, entry.1)));
                assert(renewed_by(self.entries(), self.latest));
                assert forall|p: int, q: int| 0 <= p < q < self.entries().len() implies #[trigger] self.entries()[p].0
                    != #[trigger] self.entries()[q].0 by {
                    assert(self.entries()[p].0 == before[p].0 && self.entries()[q].0 == before[q].0);
                }
                true
            },
            None => false,
        }
    }

    /// Renews the lease under `key` now. False when there is none.
    pub fn renew(&mut self, key: &str) -> (found: bool)
        requires
            old(self).wf(),
        ensures
            final(self).wf(),
            found == old(self).keys().contains(key@),
            found ==> exists|now: i64|
                final(self).entries() == #[trigger] renewed_entries(old(self).entries(), key@, now),
            final(self).keys() == old(self).keys(),
            !found ==> final(self).entries() == old(self).entries(),
            final(self).lease_duration() == old(self).lease_duration(),
            final(self).observers() == old(self).observers(),
            found ==> final(self).notices() == old(self).notices() + notices_to(
                old(self).observers().len(),
                LeaseEvent::Renewed,
                old(self).entries()[key_index(old(self).entries(), key@)].1.node,
            ),
            !found ==> final(self).notices() == old(self).notices(),
            found ==> final(self).entries()[key_index(old(self).entries(), key@)].1.last_renewed >= old(
                self,
            ).entries()[key_index(old(self).entries(), key@)].1.last_renewed,
            final(self).latest_reading() >= old(self).latest_reading(),
            final(self).origin() == old(self).origin(),
            found ==> final(self).entries() == renewed_entries(old(self).entries(), key@, final(self).latest_reading()),
            found ==> forall|j: int|
                0 <= j < final(self).entries().len() ==> #[trigger] final(self).entries()[j].1.last_renewed
                    <= final(self).entries()[key_index(old(self).entries(), key@)].1.last_renewed,
            found ==> forall|t: int|
                final(self).latest_reading() <= t <= final(self).latest_reading() + final(self).entries()[key_index(
                    old(self).entries(),
                    key@,
                )].1.duration ==> !#[trigger] expired_at(
                    final(self).entries()[key_index(old(self).entries(), key@)].1,
                    t,
                ),
    {
        let now = self.read_clock();
        let r = self.renew_at(key, now);
        proof {
            lemma_key_index(old(self).entries(), key@);
            assert(self.keys() =~= old(self).keys());
            if r {
                assert(final(self).entries() == renewed_entries(old(self).entries(), key@, now));
                let i = key_index(old(self).entries(), key@);
                assert forall|t: int| now <= t <= now + final(self).entries()[i].1.duration implies !#[trigger] expired_at(
                    final(self).entries()[i].1,
                    t,
                ) by {
                    lemma_renewal_extends_lease(old(self).entries(), key@, now, t);
                }
                lemma_renewal_extends_lease(old(self).entries(), key@, now, now as int);
            }
        }
        r
    }

    /// A copy of the node registered under `key`.
    pub fn get(&self, key: &str) -> (r: Option<T>)
        requires
            self.wf(),
        ensures
            r is Some == self.keys().contains(key@),
            r matches Some(v) ==> cloned(self.entries()[key_index(self.entries(), key@)].1.node, v),
    {
        proof {
            lemma_key_index(self.entries(), key@);
        }
        match self.find(key) {
            Some(i) => Some(self.leases[i].1.node.clone()),
            None => None,
        }
    }

    /// Copies of all registered nodes, in registration order.
    pub fn get_all(&self) -> (r: Vec<T>)
        ensures
            r@.len() == self.entries().len(),
            forall|i: int| 0 <= i < r@.len() ==> cloned(self.entries()[i].1.node, #[trigger] r@[i]),
    {
        let mut out: Vec<T> = Vec::new();
        let mut i: usize = 0;
        while i < self.leases.len()
            invariant
                i <= self.leases.len(),
                out@.len() == i,
                forall|k: int| 0 <= k < i ==> cloned(self.entries()[k].1.node, #[trigger] out@[k]),
            decreases self.leases.len() - i,
        {
            out.push(self.leases[i].1.node.clone());
            i = i + 1;
        }
        out
    }

    /// All keys, in registration order.
    pub fn get_all_keys(&self) -> (r: Vec<String>)
        ensures
            strs(r@) == self.keys(),
    {
        let mut out: Vec<String> = Vec::new();
        let mut i: usize = 0;
        while i < self.leases.len()
            invariant
                i <= self.leases.len(),
                strs(out@) == self.keys().take(i as int),
            decreases self.leases.len() - i,
        {
            let ghost before = strs(out@);
            out.push(self.leases[i].0.clone());
            assert(strs(out@) =~= before.push(self.leases@[i as int].0@));
            assert(self.keys().take(i + 1) =~= self.keys().take(i as int).push(self.keys()[i as int]));
            i = i + 1;
        }
        assert(self.keys().take(self.leases.len() as int) =~= self.keys());
        out
    }

    /// Number of leases.
    pub fn count(&self) -> (r: usize)
        ensures
            r == self.entries().len(),
    {
        self.leases.len()
    }

    /// Removes the lease under `key`, returning its node.
    pub fn remove(&mut self, key: &str) -> (r: Option<T>)
        requires
            old(self).wf(),
        ensures
            final(self).wf(),
            r is Some == old(self).keys().contains(key@),
            r matches Some(v) ==> v == old(self).entries()[key_index(old(self).entries(), key@)].1.node
                && final(self).entries() == old(self).entries().remove(key_index(old(self).entries(), key@)),
            r is None ==> final(self).entries() == old(self).entries(),
            final(self).lease_duration() == old(self).lease_duration(),
            final(self).observers() == old(self).observers(),
            final(self).notices() == old(self).notices(),
            final(self).latest_reading() == old(self).latest_reading(),
            final(self).origin() == old(self).origin(),
    {
        proof {
            lemma_key_index(self.entries(), key@);
        }
        let ghost before = self.entries();
        match self.find(key) {
            Some(i) => {
                let entry = self.leases.remove(i);
                assert(self.entries() =~= before.remove(i as int));
                assert forall|p: int, q: int| 0 <= p < q < self.entries().len() implies #[trigger] self.entries()[p].0
                    != #[trigger] self.entries()[q].0 by {
                    let p2 = if p < i { p } else { p + 1 };
                    let q2 = if q < i { q } else { q + 1 };
                    assert(self.entries()[p] == before[p2] && self.entries()[q] == before[q2]);
                }
                assert forall|j: int| 0 <= j < self.entries().len() implies #[trigger] self.entries()[j].1.last_renewed
                    <= self.latest by {
                    let j2 = if j < i { j } else { j + 1 };
                    assert(self.entries()[j] == before[j2]);
                }
                Some(entry.1.node)
            },
            None => None,
        }
    }

    /// Removes every lease that has run out at `now`, returning their nodes
    /// in registration order.
    pub fn evict_expired_at(&mut self, now: i64) -> (evicted: Vec<T>)
        requires
            old(self).wf(),
        ensures
            final(self).wf(),
            final(self).entries() == unexpired(old(self).entries(), now as int),
            evicted@ == expired_nodes(old(self).entries(), now as int),
            final(self).lease_duration() == old(self).lease_duration(),
            final(self).observers() == old(self).observers(),
            final(self).notices() == old(self).notices() + eviction_notices(
                old(self).observers().len(),
                expired_nodes(old(self).entries(), now as int),
            ),
            final(self).latest_reading() == later(old(self).latest_reading(), now),
            final(self).origin() == old(self).origin(),
    {
        if now > self.latest {
            self.latest = now;
        }
        let ghost orig = self.entries();
        let ghost start = self.told@;
        let ghost obs = self.observers@;
        let ghost d0 = self.default_duration;
        let mut rest: Vec<(String, Lease<T>)> = Vec::new();
        std::mem::swap(&mut rest, &mut self.leases);
        let ghost all = rest@;
        let total = rest.len();
        assert(entry_views(all) == orig);
        let mut kept: Vec<(String, Lease<T>)> = Vec::new();
        let mut evicted: Vec<T> = Vec::new();
        let mut i: usize = 0;
        assert(orig.take(0) =~= Seq::<(Seq<char>, Lease<T>)>::empty());
        assert(entry_views(kept@) =~= Seq::<(Seq<char>, Lease<T>)>::empty());
        assert(rest@ =~= all.skip(0));
        while rest.len() > 0
            invariant
                i + rest@.len() == all.len(),
                all.len() == total,
                rest@ == all.skip(i as int),
                orig == entry_views(all),
                entry_views(kept@) == unexpired(orig.take(i as int), now as int),
                evicted@ == expired_nodes(orig.take(i as int), now as int),
                self.observers@ == obs,
                self.default_duration == d0,
                self.latest == later(old(self).latest, now),
                self.origin == old(self).origin,
                self.told@ == start + eviction_notices(obs.len(), evicted@),
            decreases rest@.len(),
        {
            let entry = rest.remove(0);
            assert(entry == all[i as int]);
            assert(orig.take(i + 1).drop_last() =~= orig.take(i as int));
            assert(orig.take(i + 1).last() == (entry.0@, entry.1));
            assert(rest@ =~= all.skip(i + 1));
            if entry.1.is_expired_at(now) {
                let ghost mid = self.told@;
                let ghost node = entry.1.node;
                assert(notices_to(0, LeaseEvent::Evicted, node) =~= Seq::<LeaseNotice<T>>::empty());
                let mut k: usize = 0;
                while k < self.observers.len()
                    invariant
                        k <= self.observers.len(),
                        self.observers@ == obs,
                        self.default_duration == d0,
                        self.latest == later(old(self).latest, now),
                        self.origin == old(self).origin,
                        entry.1.node == node,
                        self.told@ == mid + notices_to(k as nat, LeaseEvent::Evicted, node),
                    decreases self.observers.len() - k,
                {
                    self.observers[k].on_evicted(&entry.1.node);
                    self.told = Ghost(self.told@.push(LeaseNotice { observer: k, event: LeaseEvent::Evicted, node }));
                    assert(notices_to((k + 1) as nat, LeaseEvent::Evicted, node) =~= notices_to(
                        k as nat,
                        LeaseEvent::Evicted,
                        node,
                    ).push(LeaseNotice { observer: k, event: LeaseEvent::Evicted, node }));
                    k = k + 1;
                }
                let ghost ev0 = evicted@;
                evicted.push(entry.1.node);
                assert(evicted@.drop_last() =~= ev0);
                assert(self.told@ =~= start + eviction_notices(obs.len(), evicted@));
            } else {
                let ghost before = entry_views(kept@);
                kept.push(entry);
                assert(entry_views(kept@) =~= before.push((entry.0@, entry.1)));
            }
            i = i + 1;
        }
        assert(orig.take(i as int) =~= orig);
        self.leases = kept;
        proof {
            lemma_unexpired_unique(orig, now as int);
            lemma_unexpired_renewed_by(orig, now as int, self.latest);
        }
        evicted
    }

    /// Removes every lease that has run out now, returning their nodes.
    pub fn evict_expired(&mut self) -> (evicted: Vec<T>)
        requires
            old(self).wf(),
        ensures
            final(self).wf(),
            exists|now: int|
                final(self).entries() == #[trigger] unexpired(old(self).entries(), now) && evicted@
                    == expired_nodes(old(self).entries(), now) && final(self).notices() == old(self).notices()
                    + eviction_notices(old(self).observers().len(), expired_nodes(old(self).entries(), now)),
            final(self).lease_duration() == old(self).lease_duration(),
            final(self).observers() == old(self).observers(),
            final(self).latest_reading() >= old(self).latest_reading(),
            final(self).origin() == old(self).origin(),
            final(self).entries() == unexpired(old(self).entries(), final(self).latest_reading() as int),
            evicted@ == expired_nodes(old(self).entries(), final(self).latest_reading() as int),
            forall|j: int|
                0 <= j < final(self).entries().len() ==> !expired_at(
                    #[trigger] final(self).entries()[j].1,
                    old(self).latest_reading() as int,
                ),
            forall|k: int|
                0 <= k < old(self).entries().len() && expired_at(
                    #[trigger] old(self).entries()[k].1,
                    old(self).latest_reading() as int,
                ) ==> !final(self).entries().contains(old(self).entries()[k]),
    {
        let now = self.read_clock();
        let r = self.evict_expired_at(now);
        proof {
            lemma_eviction_after_latest(old(self).entries(), old(self).latest_reading() as int, now as int);
        }
        r
    }

    /// Adds an observer of lease events, told after those added before.
    pub fn add_observer(&mut self, observer: Arc<dyn LeaseObserver<T> + 'static>)
        ensures
            final(self).observers().len() == old(self).observers().len() + 1,
            final(self).observers().drop_last() == old(self).observers(),
            final(self).observers().last() == observer,
            final(self).notices() == old(self).notices(),
            final(self).entries() == old(self).entries(),
            final(self).lease_duration() == old(self).lease_duration(),
            final(self).latest_reading() == old(self).latest_reading(),
            final(self).origin() == old(self).origin(),
    {
        let mut one = Vec::new();
        one.push(observer);
        self.observers.append(&mut one);
    }

    /// Whether a lease is registered under `key`.
    pub fn contains(&self, key: &str) -> (r: bool)
        requires
            self.wf(),
        ensures
            r == self.keys().contains(key@),
    {
        proof {
            lemma_key_index(self.entries(), key@);
        }
        self.find(key).is_some()
    }
}

} // verus!
