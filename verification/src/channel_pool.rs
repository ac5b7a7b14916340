//! A pool of client channels to other servers, one per address, with a
//! limit on their number and eviction of idle and least recently used ones.
use vstd::prelude::*;
use crate::strings::{str_eq, strs};
use crate::clock::{instant_now, later, millis_since};
use std::time::Instant;

verus! {

/// One pooled channel: its address, the channel and when it was last used
/// (milliseconds on the monotonic clock since the pool was made).
pub struct PoolEntry<T> {
    pub addr: String,
    pub channel: T,
    pub last_used: i64,
}

/// The model of a pooled channel.
pub struct PoolEntryView<T> {
    pub addr: Seq<char>,
    pub channel: T,
    pub last_used: i64,
}

/// The models of pooled channels.
pub open spec fn pool_views<T>(v: Seq<PoolEntry<T>>) -> Seq<PoolEntryView<T>> {
    v.map_values(|e: PoolEntry<T>| PoolEntryView { addr: e.addr@, channel: e.channel, last_used: e.last_used })
}

/// The addresses of pooled channels, in order.
pub open spec fn pool_addrs<T>(s: Seq<PoolEntryView<T>>) -> Seq<Seq<char>> {
    s.map_values(|e: PoolEntryView<T>| e.addr)
}

/// Position of the channel to `addr`, or -1.
pub open spec fn pool_pos<T>(s: Seq<PoolEntryView<T>>, addr: Seq<char>) -> int
    decreases s.len(),
{
    if s.len() == 0 {
        -1
    } else if s.last().addr == addr {
        s.len() - 1
    } else {
        pool_pos(s.drop_last(), addr)
    }
}

/// No address has two channels.
pub open spec fn addrs_unique<T>(s: Seq<PoolEntryView<T>>) -> bool {
    forall|i: int, j: int| 0 <= i < j < s.len() ==> #[trigger] s[i].addr != #[trigger] s[j].addr
}

/// The channels used at or after `cutoff`, in order.
pub open spec fn not_idle<T>(s: Seq<PoolEntryView<T>>, cutoff: int) -> Seq<PoolEntryView<T>>
    decreases s.len(),
{
    if s.len() == 0 {
        s
    } else if s.last().last_used < cutoff {
        not_idle(s.drop_last(), cutoff)
    } else {
        not_idle(s.drop_last(), cutoff).push(s.last())
    }
}

/// Position of the least recently used channel (the first of those used
/// earliest), or -1 when the pool is empty.
pub open spec fn oldest_pos<T>(s: Seq<PoolEntryView<T>>) -> int
    decreases s.len(),
{
    if s.len() == 0 {
        -1
    } else {
        let p = oldest_pos(s.drop_last());
        if p >= 0 && s[p].last_used <= s.last().last_used {
            p
        } else {
            s.len() - 1
        }
    }
}

/// The idle cutoff `idle_ms` before `now`, or the earliest time when that
/// falls before it.
pub open spec fn idle_cutoff(now: i64, idle_ms: i64) -> int {
    if now - idle_ms < i64::MIN {
        i64::MIN as int
    } else {
        now - idle_ms
    }
}

/// The pool after a lookup of `addr` at `now`: a pooled channel to `addr`
/// counts as used at `now`.
pub open spec fn looked_up<T>(s: Seq<PoolEntryView<T>>, addr: Seq<char>, now: i64) -> Seq<PoolEntryView<T>> {
    let p = pool_pos(s, addr);
    if p >= 0 {
        s.update(p, PoolEntryView { last_used: now, ..s[p] })
    } else {
        s
    }
}

/// The pool after making room under the limit `max`, idle channels being
/// those used before `cutoff`: idle channels go, and when that leaves the
/// pool full, the least recently used one goes too.
pub open spec fn room_made<T>(s: Seq<PoolEntryView<T>>, max: usize, cutoff: int) -> Seq<PoolEntryView<T>> {
    let kept = not_idle(s, cutoff);
    if kept.len() >= max && kept.len() > 0 {
        kept.remove(oldest_pos(kept))
    } else {
        kept
    }
}

/// The pool after adding `channel` to `addr`, used at `now`: it replaces a
/// channel to the same address, or comes last.
pub open spec fn inserted<T>(s: Seq<PoolEntryView<T>>, addr: Seq<char>, channel: T, now: i64) -> Seq<PoolEntryView<T>> {
    let p = pool_pos(s, addr);
    let e = PoolEntryView { addr, channel, last_used: now };
    if p >= 0 {
        s.update(p, e)
    } else {
        s.push(e)
    }
}

proof fn lemma_pool_pos<T>(s: Seq<PoolEntryView<T>>, addr: Seq<char>)
    requires
        addrs_unique(s),
    ensures
        pool_pos(s, addr) == -1 <==> (forall|k: int| 0 <= k < s.len() ==> s[k].addr != addr),
        pool_pos(s, addr) >= 0 ==> pool_pos(s, addr) < s.len() && s[pool_pos(s, addr)].addr == addr,
        forall|k: int| 0 <= k < s.len() && s[k].addr == addr ==> pool_pos(s, addr) == k,
    decreases s.len(),
{
    if s.len() > 0 {
        assert forall|k: int| 0 <= k < s.len() - 1 implies s.drop_last()[k] == s[k] by {}
        lemma_pool_pos(s.drop_last(), addr);
    }
}

proof fn lemma_oldest_pos<T>(s: Seq<PoolEntryView<T>>)
    ensures
        s.len() == 0 <==> oldest_pos(s) == -1,
        s.len() > 0 ==> 0 <= oldest_pos(s) < s.len(),
        forall|k: int| 0 <= k < s.len() ==> s[oldest_pos(s)].last_used <= #[trigger] s[k].last_used,
    decreases s.len(),
{
    if s.len() > 0 {
        let d = s.drop_last();
        lemma_oldest_pos(d);
        assert forall|k: int| 0 <= k < d.len() implies d[k] == s[k] by {}
    }
}

proof fn lemma_not_idle_unique<T>(s: Seq<PoolEntryView<T>>, cutoff: int)
    requires
        addrs_unique(s),
    ensures
        addrs_unique(not_idle(s, cutoff)),
        forall|k: int| 0 <= k < not_idle(s, cutoff).len() ==> s.contains(#[trigger] not_idle(s, cutoff)[k]),
    decreases s.len(),
{
    if s.len() > 0 {
        let d = s.drop_last();
        assert(addrs_unique(d));
        lemma_not_idle_unique(d, cutoff);
        let p = not_idle(d, cutoff);
        assert forall|k: int| 0 <= k < p.len() implies s.contains(#[trigger] p[k]) by {
            let j = choose|j: int| 0 <= j < d.len() && d[j] == p[k];
            assert(s[j] == p[k]);
        }
        assert(s[s.len() - 1] == s.last());
        if s.last().last_used >= cutoff {
            assert forall|k: int| 0 <= k < p.len() implies p[k].addr != s.last().addr by {
                let j = choose|j: int| 0 <= j < d.len() && d[j] == p[k];
                assert(s[j] == p[k]);
            }
        }
    }
}

proof fn lemma_pool_pos_range<T>(s: Seq<PoolEntryView<T>>, addr: Seq<char>)
    ensures
        -1 <= pool_pos(s, addr) < s.len(),
    decreases s.len(),
{
    if s.len() > 0 {
        lemma_pool_pos_range(s.drop_last(), addr);
    }
}

proof fn lemma_not_idle_len<T>(s: Seq<PoolEntryView<T>>, cutoff: int)
    ensures
        not_idle(s, cutoff).len() <= s.len(),
    decreases s.len(),
{
    if s.len() > 0 {
        lemma_not_idle_len(s.drop_last(), cutoff);
    }
}

/// The pool keeps to its limit: when it holds at most `max` channels, making
/// room and then adding one (new or replacing) leaves at most `max`.
pub proof fn lemma_pool_within_limit<T>(
    s: Seq<PoolEntryView<T>>,
    max: usize,
    cutoff: int,
    e: PoolEntryView<T>,
)
    requires
        s.len() <= max,
        max > 0,
    ensures
        ({
            let kept = not_idle(s, cutoff);
            let room = if kept.len() >= max {
                if kept.len() == 0 {
                    kept
                } else {
                    kept.remove(oldest_pos(kept))
                }
            } else {
                kept
            };
            let p = pool_pos(room, e.addr);
            let after = if p >= 0 {
                room.update(p, e)
            } else {
                room.push(e)
            };
            after.len() <= max
        }),
{
    lemma_not_idle_len(s, cutoff);
    let kept = not_idle(s, cutoff);
    lemma_oldest_pos(kept);
    let room = if kept.len() >= max {
        if kept.len() == 0 {
            kept
        } else {
            kept.remove(oldest_pos(kept))
        }
    } else {
        kept
    };
    lemma_pool_pos_range(room, e.addr);
}

/// No pooled channel was used after `t`.
pub open spec fn used_by<T>(s: Seq<PoolEntryView<T>>, t: i64) -> bool {
    forall|j: int| 0 <= j < s.len() ==> #[trigger] s[j].last_used <= t
}

proof fn lemma_not_idle_kept<T>(s: Seq<PoolEntryView<T>>, cutoff: int, t: i64)
    ensures
        forall|j: int| 0 <= j < not_idle(s, cutoff).len() ==> #[trigger] not_idle(s, cutoff)[j].last_used >= cutoff,
        used_by(s, t) ==> used_by(not_idle(s, cutoff), t),
    decreases s.len(),
{
    if s.len() > 0 {
        let d = s.drop_last();
        lemma_not_idle_kept(d, cutoff, t);
        if used_by(s, t) {
            assert forall|j: int| 0 <= j < d.len() implies #[trigger] d[j].last_used <= t by {
                assert(d[j] == s[j]);
            }
            assert(s[s.len() - 1] == s.last());
        }
    }
}

proof fn lemma_used_by_remove<T>(s: Seq<PoolEntryView<T>>, i: int, t: i64)
    requires
        used_by(s, t),
        0 <= i < s.len(),
    ensures
        used_by(s.remove(i), t),
{
    assert forall|j: int| 0 <= j < s.remove(i).len() implies #[trigger] s.remove(i)[j].last_used <= t by {
        let j2 = if j < i { j } else { j + 1 };
        assert(s.remove(i)[j] == s[j2]);
    }
}

proof fn lemma_not_idle_members<T>(s: Seq<PoolEntryView<T>>, cutoff: int)
    ensures
        forall|x: PoolEntryView<T>|
            #[trigger] not_idle(s, cutoff).contains(x) <==> s.contains(x) && x.last_used >= cutoff,
    decreases s.len(),
{
    if s.len() > 0 {
        let d = s.drop_last();
        lemma_not_idle_members(d, cutoff);
        let p = not_idle(d, cutoff);
        assert forall|x: PoolEntryView<T>| #[trigger] not_idle(s, cutoff).contains(x) <==> s.contains(x)
            && x.last_used >= cutoff by {
            if s.contains(x) {
                let k = choose|k: int| 0 <= k < s.len() && s[k] == x;
                if k < s.len() - 1 {
                    assert(d[k] == x);
                }
            }
            if d.contains(x) {
                let k = choose|k: int| 0 <= k < d.len() && d[k] == x;
                assert(s[k] == x);
            }
            assert(s[s.len() - 1] == s.last());
            if s.last().last_used >= cutoff {
                let n = p.push(s.last());
                if n.contains(x) {
                    let k = choose|k: int| 0 <= k < n.len() && n[k] == x;
                    if k < p.len() {
                        assert(p[k] == x);
                    }
                }
                if p.contains(x) {
                    let k = choose|k: int| 0 <= k < p.len() && p[k] == x;
                    assert(n[k] == x);
                }
                assert(n[p.len() as int] == s.last());
            }
        }
    }
}

/// Eviction judged at a clock reading no earlier than `latest` keeps only
/// channels used at or after the idle cutoff of `latest`.
pub proof fn lemma_pool_eviction_after_latest<T>(s: Seq<PoolEntryView<T>>, latest: i64, now: i64, idle_ms: i64)
    requires
        latest <= now,
    ensures
        forall|j: int|
            0 <= j < not_idle(s, idle_cutoff(now, idle_ms)).len() ==> #[trigger] not_idle(
                s,
                idle_cutoff(now, idle_ms),
            )[j].last_used >= idle_cutoff(latest, idle_ms),
{
    lemma_not_idle_kept(s, idle_cutoff(now, idle_ms), now);
}

/// A channel looked up at `t` stays pooled through any idle eviction judged
/// no more than the idle timeout after `t`.
pub proof fn lemma_used_channel_survives<T>(s: Seq<PoolEntryView<T>>, addr: Seq<char>, t: i64, now: i64, idle_ms: i64)
    requires
        addrs_unique(s),
        pool_pos(s, addr) >= 0,
        idle_ms >= 0,
        now - idle_ms <= t,
    ensures
        not_idle(looked_up(s, addr, t), idle_cutoff(now, idle_ms)).contains(
            looked_up(s, addr, t)[pool_pos(s, addr)],
        ),
{
    lemma_pool_pos(s, addr);
    let u = looked_up(s, addr, t);
    let p = pool_pos(s, addr);
    lemma_not_idle_members(u, idle_cutoff(now, idle_ms));
    assert(u.contains(u[p]));
}

/// Client channels to other servers, one per address.
pub struct ChannelPool<T: Clone> {
    entries: Vec<PoolEntry<T>>,
    connect_timeout_ms: u64,
    request_timeout_ms: u64,
    max_connections: usize,
    idle_timeout_ms: i64,
    origin: Instant,
    latest: i64,
}

impl<T: Clone> ChannelPool<T> {
    #[verifier::type_invariant]
    spec fn one_channel_per_addr(self) -> bool {
        &&& addrs_unique(pool_views(self.entries@))
        &&& self.idle_timeout_ms >= 0
        &&& used_by(pool_views(self.entries@), self.latest)
        &&& self.latest >= 0
    }

    /// The latest time the pool has been told or has read from its
    /// monotonic clock; no pooled channel was used later, and a reading of
    /// the clock is never earlier.
    pub closed spec fn latest_reading(&self) -> i64 {
        self.latest
    }

    fn read_clock(&self) -> (now: i64)
        ensures
            now >= self.latest_reading(),
    {
        let r = millis_since(&self.origin);
        if r > self.latest {
            r
        } else {
            self.latest
        }
    }

    /// The pooled channels, in the order they were added.
    pub closed spec fn pool(&self) -> Seq<PoolEntryView<T>> {
        pool_views(self.entries@)
    }

    /// The limit on pooled channels.
    pub closed spec fn max(&self) -> usize {
        self.max_connections
    }

    /// How long a channel may stay unused, in milliseconds.
    pub closed spec fn idle_ms(&self) -> i64 {
        self.idle_timeout_ms
    }

    /// The connect and request timeouts, in milliseconds.
    pub closed spec fn timeouts(&self) -> (u64, u64) {
        (self.connect_timeout_ms, self.request_timeout_ms)
    }

    /// An empty pool: 5 s to connect, 10 s per request, at most 256
    /// channels, idle for at most 300 s.
    pub fn new() -> (p: Self)
        ensures
            p.pool().len() == 0,
            p.timeouts() == (5000u64, 10000u64),
            p.max() == 256,
            p.idle_ms() == 300_000,
            p.latest_reading() == 0,
    {
        Self::with_timeouts(5000, 10000)
    }

    /// An empty pool with the given connect and request timeouts.
    pub fn with_timeouts(connect_timeout_ms: u64, request_timeout_ms: u64) -> (p: Self)
        ensures
            p.pool().len() == 0,
            p.timeouts() == (connect_timeout_ms, request_timeout_ms),
            p.max() == 256,
            p.idle_ms() == 300_000,
            p.latest_reading() == 0,
    {
        let p = ChannelPool {
            entries: Vec::new(),
            connect_timeout_ms,
            request_timeout_ms,
            max_connections: 256,
            idle_timeout_ms: 300_000,
            origin: instant_now(),
            latest: 0,
        };
        assert(p.pool() =~= Seq::<PoolEntryView<T>>::empty());
        p
    }

    /// The connect timeout in milliseconds.
    pub fn connect_timeout_ms(&self) -> (r: u64)
        ensures
            r == self.timeouts().0,
    {
        self.connect_timeout_ms
    }

    /// The request timeout in milliseconds.
    pub fn request_timeout_ms(&self) -> (r: u64)
        ensures
            r == self.timeouts().1,
    {
        self.request_timeout_ms
    }

    fn find(&self, addr: &str) -> (r: Option<usize>)
        ensures
            match r {
                Some(i) => i < self.entries@.len() && i as int == pool_pos(self.pool(), addr@),
                None => pool_pos(self.pool(), addr@) == -1,
            },
    {
        proof {
            use_type_invariant(self);
            lemma_pool_pos(self.pool(), addr@);
        }
        let mut i: usize = 0;
        while i < self.entries.len()
            invariant
                i <= self.entries.len(),
                addrs_unique(self.pool()),
                forall|k: int| 0 <= k < i ==> self.entries@[k].addr@ != addr@,
            decreases self.entries.len() - i,
        {
            if str_eq(self.entries[i].addr.as_str(), addr) {
                assert(self.pool()[i as int].addr == addr@);
                proof {
                    lemma_pool_pos(self.pool(), addr@);
                }
                return Some(i);
            }
            i = i + 1;
        }
        assert forall|k: int| 0 <= k < self.pool().len() implies self.pool()[k].addr != addr@ by {
            assert(self.pool()[k].addr == self.entries@[k].addr@);
        }
        None
    }

    /// The channel to `addr`, if pooled; it counts as used at `now`.
    pub fn lookup_at(&mut self, addr: &str, now: i64) -> (r: Option<T>)
        ensures
            ({
                let p = pool_pos(old(self).pool(), addr@);
                &&& p < 0 ==> r is None && final(self).pool() == old(self).pool()
                &&& p >= 0 ==> (r matches Some(c) && cloned(old(self).pool()[p].channel, c))
                    && final(self).pool() == old(self).pool().update(
                    p,
                    PoolEntryView { last_used: now, ..old(self).pool()[p] },
                )
            }),
            final(self).pool() == looked_up(old(self).pool(), addr@, now),
            final(self).max() == old(self).max(),
            final(self).idle_ms() == old(self).idle_ms(),
            final(self).timeouts() == old(self).timeouts(),
            final(self).latest_reading() == later(old(self).latest_reading(), now),
    {
        proof {
            use_type_invariant(&*self);
        }
        if now > self.latest {
            self.latest = now;
        }
        let ghost before = self.pool();
        match self.find(addr) {
            Some(i) => {
                let mut entries: Vec<PoolEntry<T>> = Vec::new();
                std::mem::swap(&mut entries, &mut self.entries);
                let mut e = entries.remove(i);
                e.last_used = now;
                let c = e.channel.clone();
                entries.insert(i, e);
                assert(pool_views(entries@) =~= before.update(i as int, PoolEntryView { last_used: now, ..before[i as int] }));
                assert(addrs_unique(pool_views(entries@))) by {
                    assert forall|a: int, b: int| 0 <= a < b < pool_views(entries@).len() implies #[trigger] pool_views(
                        entries@,
                    )[a].addr != #[trigger] pool_views(entries@)[b].addr by {
                        assert(pool_views(entries@)[a].addr == before[a].addr);
                        assert(pool_views(entries@)[b].addr == before[b].addr);
                    }
                }
                assert(used_by(pool_views(entries@), self.latest)) by {
                    assert forall|j: int| 0 <= j < pool_views(entries@).len() implies #[trigger] pool_views(
                        entries@,
                    )[j].last_used <= self.latest by {
                        if j != i {
                            assert(pool_views(entries@)[j] == before[j]);
                        }
                    }
                }
                self.entries = entries;
                Some(c)
            },
            None => None,
        }
    }

    /// Removes the channels unused since `idle_ms` before `now`.
    pub fn evict_idle_at(&mut self, now: i64)
        ensures
            final(self).pool() == not_idle(old(self).pool(), idle_cutoff(now, old(self).idle_ms())),
            final(self).max() == old(self).max(),
            final(self).idle_ms() == old(self).idle_ms(),
            final(self).timeouts() == old(self).timeouts(),
            final(self).latest_reading() == later(old(self).latest_reading(), now),
    {
        proof {
            use_type_invariant(&*self);
        }
        if now > self.latest {
            self.latest = now;
        }
        let cutoff: i64 = if now < i64::MIN + self.idle_timeout_ms {
            i64::MIN
        } else {
            now - self.idle_timeout_ms
        };
        let ghost c = idle_cutoff(now, self.idle_timeout_ms);
        let ghost orig = self.pool();
        let mut rest: Vec<PoolEntry<T>> = Vec::new();
        std::mem::swap(&mut rest, &mut self.entries);
        let ghost all = rest@;
        let total = rest.len();
        let mut kept: Vec<PoolEntry<T>> = Vec::new();
        let mut i: usize = 0;
        assert(orig.take(0) =~= Seq::<PoolEntryView<T>>::empty());
        assert(pool_views(kept@) =~= Seq::<PoolEntryView<T>>::empty());
        assert(rest@ =~= all.skip(0));
        while rest.len() > 0
            invariant
                i + rest@.len() == all.len(),
                all.len() == total,
                rest@ == all.skip(i as int),
                orig == pool_views(all),
                pool_views(kept@) == not_idle(orig.take(i as int), c),
                cutoff as int == c,
            decreases rest@.len(),
        {
            let e = rest.remove(0);
            assert(e == all[i as int]);
            assert(orig.take(i + 1).drop_last() =~= orig.take(i as int));
            assert(orig.take(i + 1).last() == PoolEntryView { addr: e.addr@, channel: e.channel, last_used: e.last_used });
            assert(rest@ =~= all.skip(i + 1));
            if e.last_used >= cutoff {
                let ghost before = pool_views(kept@);
                let ghost ev = PoolEntryView { addr: e.addr@, channel: e.channel, last_used: e.last_used };
                kept.push(e);
                assert(pool_views(kept@) =~= before.push(ev));
            }
            i = i + 1;
        }
        assert(orig.take(i as int) =~= orig);
        proof {
            lemma_not_idle_unique(orig, c);
            lemma_not_idle_kept(orig, c, self.latest);
        }
        self.entries = kept;
    }

    fn oldest_index(&self) -> (best: usize)
        requires
            self.pool().len() > 0,
        ensures
            best as int == oldest_pos(self.pool()),
            best < self.entries@.len(),
    {
        let ghost s = self.pool();
        let mut best: usize = 0;
        let mut i: usize = 1;
        assert(s.take(0) =~= Seq::<PoolEntryView<T>>::empty());
        assert(s.take(1).drop_last() =~= s.take(0));
        assert(oldest_pos(s.take(0)) == -1);
        assert(oldest_pos(s.take(1)) == 0);
        while i < self.entries.len()
            invariant
                1 <= i <= self.entries.len(),
                s == self.pool(),
                best < i,
                best as int == oldest_pos(s.take(i as int)),
            decreases self.entries.len() - i,
        {
            assert(s.take(i + 1).drop_last() =~= s.take(i as int));
            assert(s.take(i + 1)[best as int] == s[best as int]);
            assert(s.take(i + 1).last() == s[i as int]);
            if !(self.entries[best].last_used <= self.entries[i].last_used) {
                best = i;
            }
            i = i + 1;
        }
        assert(s.take(i as int) =~= s);
        best
    }

    /// Removes the least recently used channel, if any.
    pub fn evict_oldest(&mut self)
        ensures
            old(self).pool().len() == 0 ==> final(self).pool() == old(self).pool(),
            old(self).pool().len() > 0 ==> final(self).pool() == old(self).pool().remove(
                oldest_pos(old(self).pool()),
            ),
            final(self).max() == old(self).max(),
            final(self).idle_ms() == old(self).idle_ms(),
            final(self).timeouts() == old(self).timeouts(),
            final(self).latest_reading() == old(self).latest_reading(),
    {
        proof {
            use_type_invariant(&*self);
        }
        if self.entries.len() == 0 {
            return;
        }
        let best = self.oldest_index();
        self.remove_at(best);
    }

    fn remove_at(&mut self, i: usize)
        requires
            i < old(self).pool().len(),
        ensures
            final(self).pool() == old(self).pool().remove(i as int),
            final(self).max() == old(self).max(),
            final(self).idle_ms() == old(self).idle_ms(),
            final(self).timeouts() == old(self).timeouts(),
            final(self).latest_reading() == old(self).latest_reading(),
    {
        proof {
            use_type_invariant(&*self);
        }
        let ghost before = self.pool();
        let mut entries: Vec<PoolEntry<T>> = Vec::new();
        std::mem::swap(&mut entries, &mut self.entries);
        entries.remove(i);
        assert(pool_views(entries@) =~= before.remove(i as int));
        assert(addrs_unique(pool_views(entries@))) by {
            assert forall|a: int, b: int| 0 <= a < b < pool_views(entries@).len() implies #[trigger] pool_views(
                entries@,
            )[a].addr != #[trigger] pool_views(entries@)[b].addr by {
                let a2 = if a < i { a } else { a + 1 };
                let b2 = if b < i { b } else { b + 1 };
                assert(pool_views(entries@)[a] == before[a2]);
                assert(pool_views(entries@)[b] == before[b2]);
            }
        }
        proof {
            lemma_used_by_remove(before, i as int, self.latest);
        }
        self.entries = entries;
    }

    /// Makes room for a new channel at `now`: idle channels go, and when the
    /// pool is still full the least recently used one goes too.
    pub fn make_room_at(&mut self, now: i64)
        ensures
            ({
                let kept = not_idle(old(self).pool(), idle_cutoff(now, old(self).idle_ms()));
                &&& kept.len() >= old(self).max() ==> final(self).pool() == (if kept.len() == 0 {
                    kept
                } else {
                    kept.remove(oldest_pos(kept))
                })
                &&& kept.len() < old(self).max() ==> final(self).pool() == kept
            }),
            final(self).pool() == room_made(old(self).pool(), old(self).max(), idle_cutoff(now, old(self).idle_ms())),
            final(self).max() == old(self).max(),
            final(self).idle_ms() == old(self).idle_ms(),
            final(self).timeouts() == old(self).timeouts(),
            final(self).latest_reading() == later(old(self).latest_reading(), now),
    {
        self.evict_idle_at(now);
        if self.entries.len() >= self.max_connections {
            self.evict_oldest();
        }
    }

    /// Adds the channel to `addr`, used at `now`, replacing a channel to the
    /// same address.
    pub fn insert_at(&mut self, addr: String, channel: T, now: i64)
        ensures
            ({
                let p = pool_pos(old(self).pool(), addr@);
                let e = PoolEntryView { addr: addr@, channel, last_used: now };
                &&& p >= 0 ==> final(self).pool() == old(self).pool().update(p, e)
                &&& p < 0 ==> final(self).pool() == old(self).pool().push(e)
            }),
            final(self).pool() == inserted(old(self).pool(), addr@, channel, now),
            final(self).max() == old(self).max(),
            final(self).idle_ms() == old(self).idle_ms(),
            final(self).timeouts() == old(self).timeouts(),
            final(self).latest_reading() == later(old(self).latest_reading(), now),
    {
        proof {
            use_type_invariant(&*self);
            lemma_pool_pos(self.pool(), addr@);
        }
        if now > self.latest {
            self.latest = now;
        }
        let ghost before = self.pool();
        let ghost e = PoolEntryView { addr: addr@, channel, last_used: now };
        let found = self.find(addr.as_str());
        let mut entries: Vec<PoolEntry<T>> = Vec::new();
        std::mem::swap(&mut entries, &mut self.entries);
        match found {
            Some(i) => {
                entries.set(i, PoolEntry { addr, channel, last_used: now });
                assert(pool_views(entries@) =~= before.update(i as int, e));
                assert(used_by(pool_views(entries@), self.latest)) by {
                    assert forall|j: int| 0 <= j < pool_views(entries@).len() implies #[trigger] pool_views(
                        entries@,
                    )[j].last_used <= self.latest by {
                        if j != i {
                            assert(pool_views(entries@)[j] == before[j]);
                        }
                    }
                }
                assert(addrs_unique(pool_views(entries@))) by {
                    assert forall|a: int, b: int| 0 <= a < b < pool_views(entries@).len() implies #[trigger] pool_views(
                        entries@,
                    )[a].addr != #[trigger] pool_views(entries@)[b].addr by {
                        assert(pool_views(entries@)[a].addr == before[a].addr);
                        assert(pool_views(entries@)[b].addr == before[b].addr);
                    }
                }
            },
            None => {
                entries.push(PoolEntry { addr, channel, last_used: now });
                assert(pool_views(entries@) =~= before.push(e));
                assert(used_by(pool_views(entries@), self.latest)) by {
                    assert forall|j: int| 0 <= j < pool_views(entries@).len() implies #[trigger] pool_views(
                        entries@,
                    )[j].last_used <= self.latest by {
                        if j < before.len() {
                            assert(pool_views(entries@)[j] == before[j]);
                        }
                    }
                }
                assert(addrs_unique(pool_views(entries@))) by {
                    assert forall|a: int, b: int| 0 <= a < b < pool_views(entries@).len() implies #[trigger] pool_views(
                        entries@,
                    )[a].addr != #[trigger] pool_views(entries@)[b].addr by {
                        if b < before.len() {
                            assert(pool_views(entries@)[a].addr == before[a].addr);
                            assert(pool_views(entries@)[b].addr == before[b].addr);
                        } else {
                            assert(pool_views(entries@)[a].addr == before[a].addr);
                            assert(before[a].addr != addr@);
                        }
                    }
                }
            },
        }
        self.entries = entries;
    }

    /// The channel to `addr`, if pooled; it counts as used now, by the
    /// pool's monotonic clock.
    pub fn lookup(&mut self, addr: &str) -> (r: Option<T>)
        ensures
            ({
                let p = pool_pos(old(self).pool(), addr@);
                &&& p < 0 ==> r is None
                &&& p >= 0 ==> (r matches Some(c) && cloned(old(self).pool()[p].channel, c))
            }),
            exists|now: i64| now >= 0 && final(self).pool() == #[trigger] looked_up(old(self).pool(), addr@, now),
            final(self).max() == old(self).max(),
            final(self).idle_ms() == old(self).idle_ms(),
            final(self).timeouts() == old(self).timeouts(),
            final(self).latest_reading() >= old(self).latest_reading(),
            final(self).pool() == looked_up(old(self).pool(), addr@, final(self).latest_reading()),
            pool_pos(old(self).pool(), addr@) >= 0 ==> forall|j: int|
                0 <= j < final(self).pool().len() ==> #[trigger] final(self).pool()[j].last_used
                    <= final(self).pool()[pool_pos(old(self).pool(), addr@)].last_used,
            pool_pos(old(self).pool(), addr@) >= 0 ==> forall|later_now: i64|
                later_now - old(self).idle_ms() <= final(self).latest_reading() ==> not_idle(
                    final(self).pool(),
                    #[trigger] idle_cutoff(later_now, old(self).idle_ms()),
                ).contains(final(self).pool()[pool_pos(old(self).pool(), addr@)]),
    {
        proof {
            use_type_invariant(&*self);
            lemma_pool_pos(self.pool(), addr@);
        }
        let ghost p = pool_pos(self.pool(), addr@);
        let now = self.read_clock();
        let r = self.lookup_at(addr, now);
        proof {
            use_type_invariant(&*self);
            if p >= 0 {
                assert(self.pool()[p].last_used == now);
                assert forall|later_now: i64| later_now - old(self).idle_ms() <= now implies not_idle(
                    final(self).pool(),
                    #[trigger] idle_cutoff(later_now, old(self).idle_ms()),
                ).contains(final(self).pool()[p]) by {
                    lemma_used_channel_survives(old(self).pool(), addr@, now, later_now, old(self).idle_ms());
                }
            }
        }
        r
    }

    /// Removes the channels unused for longer than the idle timeout, by the
    /// pool's monotonic clock.
    pub fn evict_idle(&mut self)
        ensures
            exists|now: i64| now >= 0 && final(self).pool() == not_idle(old(self).pool(), #[trigger] idle_cutoff(now, old(self).idle_ms())),
            final(self).max() == old(self).max(),
            final(self).idle_ms() == old(self).idle_ms(),
            final(self).timeouts() == old(self).timeouts(),
            final(self).latest_reading() >= old(self).latest_reading(),
            final(self).pool() == not_idle(old(self).pool(), idle_cutoff(final(self).latest_reading(), old(self).idle_ms())),
            forall|j: int|
                0 <= j < final(self).pool().len() ==> #[trigger] final(self).pool()[j].last_used >= idle_cutoff(
                    old(self).latest_reading(),
                    old(self).idle_ms(),
                ),
    {
        proof {
            use_type_invariant(&*self);
        }
        let now = self.read_clock();
        self.evict_idle_at(now);
        proof {
            lemma_pool_eviction_after_latest(old(self).pool(), old(self).latest_reading(), now, old(self).idle_ms());
        }
    }

    /// Makes room for a new channel now, by the pool's monotonic clock.
    pub fn make_room(&mut self)
        ensures
            exists|now: i64| now >= 0 && final(self).pool() == room_made(old(self).pool(), old(self).max(), #[trigger] idle_cutoff(now, old(self).idle_ms())),
            final(self).max() == old(self).max(),
            final(self).idle_ms() == old(self).idle_ms(),
            final(self).timeouts() == old(self).timeouts(),
            final(self).latest_reading() >= old(self).latest_reading(),
            final(self).pool() == room_made(
                old(self).pool(),
                old(self).max(),
                idle_cutoff(final(self).latest_reading(), old(self).idle_ms()),
            ),
    {
        proof {
            use_type_invariant(&*self);
        }
        let now = self.read_clock();
        self.make_room_at(now);
    }

    /// Adds the channel to `addr`, used now by the pool's monotonic clock,
    /// replacing a channel to the same address.
    pub fn insert(&mut self, addr: String, channel: T)
        ensures
            exists|now: i64| now >= 0 && final(self).pool() == #[trigger] inserted(old(self).pool(), addr@, channel, now),
            final(self).max() == old(self).max(),
            final(self).idle_ms() == old(self).idle_ms(),
            final(self).timeouts() == old(self).timeouts(),
            final(self).latest_reading() >= old(self).latest_reading(),
            final(self).pool() == inserted(old(self).pool(), addr@, channel, final(self).latest_reading()),
            pool_pos(final(self).pool(), addr@) >= 0,
            forall|j: int|
                0 <= j < final(self).pool().len() ==> #[trigger] final(self).pool()[j].last_used
                    <= final(self).pool()[pool_pos(final(self).pool(), addr@)].last_used,
    {
        proof {
            use_type_invariant(&*self);
            lemma_pool_pos(self.pool(), addr@);
        }
        let ghost a = addr@;
        let ghost before = self.pool();
        let now = self.read_clock();
        self.insert_at(addr, channel, now);
        proof {
            use_type_invariant(&*self);
            let q = pool_pos(before, a);
            let k = if q >= 0 { q } else { before.len() as int };
            assert(self.pool()[k].addr == a);
            lemma_pool_pos(self.pool(), a);
        }
    }

    /// Removes the channel to `addr`, if pooled.
    pub fn remove_channel(&mut self, addr: &str)
        ensures
            pool_pos(old(self).pool(), addr@) >= 0 ==> final(self).pool() == old(self).pool().remove(
                pool_pos(old(self).pool(), addr@),
            ),
            pool_pos(old(self).pool(), addr@) < 0 ==> final(self).pool() == old(self).pool(),
            final(self).max() == old(self).max(),
            final(self).idle_ms() == old(self).idle_ms(),
            final(self).timeouts() == old(self).timeouts(),
            final(self).latest_reading() == old(self).latest_reading(),
    {
        match self.find(addr) {
            Some(i) => self.remove_at(i),
            None => {},
        }
    }

    /// The addresses with a pooled channel, in order.
    pub fn connected_addresses(&self) -> (r: Vec<String>)
        ensures
            strs(r@) == pool_addrs(self.pool()),
    {
        let ghost a = pool_addrs(self.pool());
        let mut out: Vec<String> = Vec::new();
        let mut i: usize = 0;
        while i < self.entries.len()
            invariant
                i <= self.entries.len(),
                a == pool_addrs(self.pool()),
                strs(out@) == a.take(i as int),
            decreases self.entries.len() - i,
        {
            let ghost before = strs(out@);
            out.push(self.entries[i].addr.clone());
            assert(strs(out@) =~= before.push(a[i as int]));
            assert(a.take(i + 1) =~= a.take(i as int).push(a[i as int]));
            i = i + 1;
        }
        assert(a.take(self.entries.len() as int) =~= a);
        out
    }

    /// Number of pooled channels.
    pub fn connection_count(&self) -> (n: usize)
        ensures
            n == self.pool().len(),
    {
        self.entries.len()
    }

    /// Removes every channel.
    pub fn clear(&mut self)
        ensures
            final(self).pool().len() == 0,
            final(self).max() == old(self).max(),
            final(self).idle_ms() == old(self).idle_ms(),
            final(self).timeouts() == old(self).timeouts(),
            final(self).latest_reading() == old(self).latest_reading(),
    {
        proof {
            use_type_invariant(&*self);
        }
        let mut empty: Vec<PoolEntry<T>> = Vec::new();
        std::mem::swap(&mut empty, &mut self.entries);
        assert(self.pool() =~= Seq::<PoolEntryView<T>>::empty());
    }
}

/// What came of a call to a server over a pooled channel.
#[derive(Clone, Copy, Debug, PartialEq, Eq, Structural)]
pub enum CallOutcome {
    /// The server answered, whether it granted the request or refused it.
    Answered,
    /// No channel to the server could be opened.
    ConnectFailed,
    /// The call over the channel failed.
    CallFailed,
}

/// After a call to `addr`: when no channel could be opened or the call
/// failed, the channel to `addr` leaves the pool so that the next call
/// connects afresh; when the server answered, the pool stays as it is.
pub fn after_call<T: Clone>(pool: &mut ChannelPool<T>, addr: &str, outcome: CallOutcome)
    ensures
        outcome == CallOutcome::Answered ==> final(pool).pool() == old(pool).pool(),
        outcome != CallOutcome::Answered && pool_pos(old(pool).pool(), addr@) >= 0 ==> final(pool).pool()
            == old(pool).pool().remove(pool_pos(old(pool).pool(), addr@)),
        outcome != CallOutcome::Answered && pool_pos(old(pool).pool(), addr@) < 0 ==> final(pool).pool()
            == old(pool).pool(),
        final(pool).max() == old(pool).max(),
        final(pool).idle_ms() == old(pool).idle_ms(),
        final(pool).timeouts() == old(pool).timeouts(),
        final(pool).latest_reading() == old(pool).latest_reading(),
{
    match outcome {
        CallOutcome::Answered => {},
        _ => pool.remove_channel(addr),
    }
}

/// The URI a channel to `addr` connects to: `http://` and the address.
pub fn endpoint_uri(addr: &str) -> (u: String)
    ensures
        u@ == "http://"@ + addr@,
{
    let mut u = String::from_str("http://");
    u.append(addr);
    u
}

} // verus!
