//! Balanced assignment of slots to data servers: leaders round-robin, the
//! followers of a slot the servers after its leader.
use vstd::prelude::*;
use crate::slot_table::{
    dedup, involves, lemma_dedup_distinct, lemma_dedup_props, lemma_servers_of_members, follower_count, leader_count, servers_of, entry_total, occurrences, slot_views, Slot, SlotTable, SlotTableView,
    SlotView,
};
use crate::strings::{
    contains_str, find_str, lemma_push_to_set, lemma_take_to_set, sort_strings, str_eq, string_order,
    strs,
};

verus! {

/// How many followers each slot gets: one less than the replica count, and
/// at most all the other servers.
pub open spec fn follower_total(replicas: u32, n: nat) -> nat {
    let want: nat = if replicas >= 1 { (replicas - 1) as nat } else { 0 };
    let cap: nat = if n >= 1 { (n - 1) as nat } else { 0 };
    if want < cap { want } else { cap }
}

/// The servers that follow the leader at `leader_idx`, in rotation.
pub open spec fn follower_candidates(servers: Seq<Seq<char>>, leader_idx: nat, count: nat) -> Seq<
    Seq<char>,
> {
    Seq::new(count, |f: int| servers[(leader_idx + 1 + f) % (servers.len() as int)])
}

/// Slot `id` of an allocation over `servers`.
pub open spec fn allocated_slot(servers: Seq<Seq<char>>, replicas: u32, epoch: i64, id: nat) -> SlotView {
    let n = servers.len();
    let li = id % n;
    SlotView {
        id: id as u32,
        leader: servers[li as int],
        leader_epoch: epoch,
        followers: dedup(follower_candidates(servers, li, follower_total(replicas, n))),
    }
}

/// The table that allocating `slot_num` slots over `servers` gives.
pub open spec fn allocation(slot_num: u32, replicas: u32, servers: Seq<Seq<char>>, epoch: i64) -> SlotTableView {
    SlotTableView {
        epoch,
        slots: Seq::new(slot_num as nat, |i: int| allocated_slot(servers, replicas, epoch, i as nat)),
    }
}

/// Slot allocation over a list of data servers.
pub struct SlotAllocator;

/// How many slots one server leads and follows.
pub struct ServerStats {
    pub server: String,
    pub leaders: usize,
    pub followers: usize,
}

/// Leader and follower counts per data server.
pub struct DistributionStats {
    pub entries: Vec<ServerStats>,
}

/// The servers of a list of statistics entries.
pub open spec fn stat_servers(entries: Seq<ServerStats>) -> Seq<Seq<char>> {
    entries.map_values(|e: ServerStats| e.server@)
}

impl DistributionStats {
    /// Number of servers with statistics.
    pub fn len(&self) -> (r: usize)
        ensures
            r == self.entries@.len(),
    {
        self.entries.len()
    }

    /// The (leader, follower) counts of `server`, if it appears.
    pub fn get(&self, server: &str) -> (r: Option<(usize, usize)>)
        ensures
            r is None <==> !stat_servers(self.entries@).contains(server@),
            r matches Some(c) ==> exists|k: int|
                0 <= k < self.entries@.len() && self.entries@[k].server@ == server@ && c == (
                self.entries@[k].leaders,
                self.entries@[k].followers,
            ),
    {
        let mut i: usize = 0;
        while i < self.entries.len()
            invariant
                i <= self.entries.len(),
                forall|k: int| 0 <= k < i ==> self.entries@[k].server@ != server@,
            decreases self.entries.len() - i,
        {
            if str_eq(self.entries[i].server.as_str(), server) {
                assert(stat_servers(self.entries@)[i as int] == server@);
                return Some((self.entries[i].leaders, self.entries[i].followers));
            }
            i = i + 1;
        }
        assert forall|k: int| 0 <= k < stat_servers(self.entries@).len() implies stat_servers(
            self.entries@,
        )[k] != server@ by {
            assert(stat_servers(self.entries@)[k] == self.entries@[k].server@);
        }
        None
    }
}

proof fn lemma_occurrences(s: Seq<Seq<char>>, x: Seq<char>)
    ensures
        occurrences(s, x) <= s.len(),
        !s.contains(x) ==> occurrences(s, x) == 0,
    decreases s.len(),
{
    if s.len() > 0 {
        lemma_occurrences(s.drop_last(), x);
        if !s.contains(x) {
            assert forall|k: int| 0 <= k < s.drop_last().len() implies s.drop_last()[k] != x by {
                assert(s.drop_last()[k] == s[k]);
            }
            assert(s.last() == s[s.len() - 1]);
        }
    }
}

proof fn lemma_counts_bounded(slots: Seq<SlotView>, s: Seq<char>)
    ensures
        leader_count(slots, s) + follower_count(slots, s) <= entry_total(slots),
        !servers_of(slots).contains(s) ==> leader_count(slots, s) == 0 && follower_count(slots, s) == 0,
    decreases slots.len(),
{
    if slots.len() > 0 {
        lemma_counts_bounded(slots.drop_last(), s);
        lemma_occurrences(slots.last().followers, s);
        if !servers_of(slots).contains(s) {
            assert(!slots.last().followers.to_set().contains(s));
        }
    }
}

proof fn lemma_entry_total_take(slots: Seq<SlotView>, i: int)
    requires
        0 <= i < slots.len(),
    ensures
        entry_total(slots.take(i + 1)) == entry_total(slots.take(i)) + 1 + slots[i].followers.len(),
        entry_total(slots.take(i + 1)) <= entry_total(slots),
    decreases slots.len(),
{
    assert(slots.take(i + 1).drop_last() =~= slots.take(i));
    if i + 1 < slots.len() {
        lemma_entry_total_take(slots.drop_last(), i);
        assert(slots.drop_last().take(i + 1) =~= slots.take(i + 1));
    } else {
        assert(slots.take(i + 1) =~= slots);
    }
}

/// Adds one to the count in `a` of `s`, taking `s` in (with counts 0) when
/// it is new; `b` only grows with it.
fn bump(servers: &mut Vec<String>, a: &mut Vec<usize>, b: &mut Vec<usize>, s: &String)
    requires
        old(servers)@.len() == old(a)@.len(),
        old(servers)@.len() == old(b)@.len(),
        strs(old(servers)@).no_duplicates(),
        forall|j: int| 0 <= j < old(a)@.len() && old(servers)@[j]@ == s@ ==> old(a)@[j] < usize::MAX,
    ensures
        final(servers)@.len() == final(a)@.len(),
        final(servers)@.len() == final(b)@.len(),
        strs(final(servers)@).no_duplicates(),
        strs(final(servers)@) == if strs(old(servers)@).contains(s@) {
            strs(old(servers)@)
        } else {
            strs(old(servers)@).push(s@)
        },
        forall|j: int|
            0 <= j < final(a)@.len() ==> #[trigger] final(a)@[j] == (if j < old(a)@.len() {
                old(a)@[j] as int
            } else {
                0
            }) + (if final(servers)@[j]@ == s@ {
                1int
            } else {
                0
            }),
        forall|j: int|
            0 <= j < final(b)@.len() ==> #[trigger] final(b)@[j] == (if j < old(b)@.len() {
                old(b)@[j] as int
            } else {
                0
            }),
{
    match find_str(servers, s.as_str()) {
        Some(j) => {
            assert forall|q: int| 0 <= q < servers@.len() && q != j implies servers@[q]@ != s@ by {
                assert(strs(servers@)[q] == servers@[q]@);
                assert(strs(servers@)[j as int] == servers@[j as int]@);
            }
            let c = a[j] + 1;
            a.set(j, c);
        },
        None => {
            let ghost before = strs(servers@);
            servers.push(s.clone());
            a.push(1);
            b.push(0);
            assert(strs(servers@) =~= before.push(s@));
            assert forall|q: int| 0 <= q < before.len() implies servers@[q]@ != s@ by {
                assert(before[q] == servers@[q]@);
            }
        },
    }
}

proof fn lemma_rotation(li: int, f: int, n: int)
    requires
        0 <= li < n,
        0 <= f < n,
    ensures
        li + 1 + f < n ==> (li + 1 + f) % n == li + 1 + f,
        li + 1 + f >= n ==> (li + 1 + f) % n == li + 1 + f - n,
{
    let a = li + 1 + f;
    if a < n {
        vstd::arithmetic::div_mod::lemma_small_mod(a as nat, n as nat);
    } else {
        vstd::arithmetic::div_mod::lemma_small_mod((a - n) as nat, n as nat);
        vstd::arithmetic::div_mod::lemma_mod_sub_multiples_vanish(a, n);
    }
}

impl SlotAllocator {
    /// A table of `slot_num` slots at `epoch` over `data_servers`, or `None`
    /// when there is no server. Slot `i` is led by server `i mod n` and
    /// followed by the next `min(slot_replicas - 1, n - 1)` servers in rotation.
    pub fn allocate(slot_num: u32, slot_replicas: u32, data_servers: &[String], epoch: i64) -> (r:
        Option<SlotTable>)
        ensures
            data_servers@.len() == 0 ==> r is None,
            data_servers@.len() > 0 ==> (r matches Some(t) && t@ == allocation(
                slot_num,
                slot_replicas,
                strs(data_servers@),
                epoch,
            )),
    {
        let n = data_servers.len();
        if n == 0 {
            return None;
        }
        let ghost servers = strs(data_servers@);
        let ghost target = allocation(slot_num, slot_replicas, servers, epoch);
        let want: usize = if slot_replicas >= 1 {
            (slot_replicas - 1) as usize
        } else {
            0
        };
        let fc: usize = if want < n - 1 {
            want
        } else {
            n - 1
        };
        assert(fc == follower_total(slot_replicas, n as nat));
        let mut slots: Vec<Slot> = Vec::new();
        let mut slot_id: u32 = 0;
        assert(slot_views(slots@) =~= target.slots.take(0));
        while slot_id < slot_num
            invariant
                n == data_servers@.len(),
                n > 0,
                servers == strs(data_servers@),
                target == allocation(slot_num, slot_replicas, servers, epoch),
                fc == follower_total(slot_replicas, n as nat),
                fc < n,
                slot_id <= slot_num,
                slot_views(slots@) == target.slots.take(slot_id as int),
            decreases slot_num - slot_id,
        {
            let li: usize = (slot_id as usize) % n;
            let leader = data_servers[li].clone();
            let ghost cands = follower_candidates(servers, li as nat, fc as nat);
            let mut followers: Vec<String> = Vec::new();
            let mut f: usize = 0;
            assert(strs(followers@) =~= dedup(cands.take(0)));
            while f < fc
                invariant
                    n == data_servers@.len(),
                    servers == strs(data_servers@),
                    li < n,
                    fc < n,
                    f <= fc,
                    cands == follower_candidates(servers, li as nat, fc as nat),
                    strs(followers@) == dedup(cands.take(f as int)),
                decreases fc - f,
            {
                let j = li + 1;
                let idx: usize = if f < n - j {
                    j + f
                } else {
                    f - (n - j)
                };
                proof {
                    lemma_rotation(li as int, f as int, n as int);
                }
                assert(cands[f as int] == data_servers@[idx as int]@);
                assert(cands.take(f + 1).drop_last() =~= cands.take(f as int));
                assert(cands.take(f + 1).last() == cands[f as int]);
                if !contains_str(&followers, data_servers[idx].as_str()) {
                    let ghost before = strs(followers@);
                    followers.push(data_servers[idx].clone());
                    assert(strs(followers@) =~= before.push(cands[f as int]));
                }
                f = f + 1;
            }
            assert(cands.take(fc as int) =~= cands);
            let slot = Slot { id: slot_id, leader, leader_epoch: epoch, followers };
            assert(slot@ == allocated_slot(servers, slot_replicas, epoch, slot_id as nat));
            let ghost before = slot_views(slots@);
            slots.push(slot);
            assert(slot_views(slots@) =~= before.push(slot@));
            assert(target.slots.take(slot_id + 1) =~= target.slots.take(slot_id as int).push(
                target.slots[slot_id as int],
            ));
            slot_id = slot_id + 1;
        }
        assert(target.slots.take(slot_num as int) =~= target.slots);
        Some(SlotTable { epoch, slots })
    }

    /// A fresh allocation at the next epoch when the set of data servers
    /// differs from the servers of `current`; `None` when there is no server
    /// or the set is unchanged. The new table has as many slots as `current`
    /// and uses the servers in ascending order.
    pub fn rebalance(current: &SlotTable, data_servers: &[String], slot_replicas: u32) -> (r: Option<
        SlotTable,
    >)
        requires
            current@.epoch < i64::MAX,
        ensures
            r is None <==> (data_servers@.len() == 0 || strs(data_servers@).to_set()
                == current@.data_servers()),
            r matches Some(t) ==> t@ == allocation(
                #[verifier::truncate] (current@.slots.len() as u32),
                slot_replicas,
                strs(data_servers@).sort_by(string_order()),
                (current@.epoch + 1) as i64,
            ),
    {
        if data_servers.len() == 0 {
            return None;
        }
        let current_servers = current.get_data_servers();
        let ghost a = strs(data_servers@);
        let same = crate::strings::same_string_set(data_servers, &current_servers);
        if same {
            return None;
        }
        let sorted = sort_strings(data_servers);
        proof {
            broadcast use vstd::seq_lib::group_to_multiset_ensures;

            crate::strings::lemma_string_order_total();
            a.lemma_sort_by_ensures(string_order());
            a.to_multiset_ensures();
            a.sort_by(string_order()).to_multiset_ensures();
            assert(a.sort_by(string_order()).len() == a.len());
            assert(sorted@.len() == strs(sorted@).len());
        }
        let count = #[verifier::truncate] (current.slot_count() as u32);
        SlotAllocator::allocate(count, slot_replicas, &sorted, current.epoch + 1)
    }

    /// For every data server of the table, how many slots it leads and
    /// how many times it is listed as a follower. The table's entries must
    /// be countable in a `usize`.
    pub fn get_distribution_stats(slot_table: &SlotTable) -> (r: DistributionStats)
        requires
            entry_total(slot_table@.slots) <= usize::MAX,
        ensures
            stat_servers(r.entries@).no_duplicates(),
            stat_servers(r.entries@).to_set() == slot_table@.data_servers(),
            forall|k: int|
                0 <= k < r.entries@.len() ==> (#[trigger] r.entries@[k]).leaders == leader_count(
                    slot_table@.slots,
                    r.entries@[k].server@,
                ) && r.entries@[k].followers == follower_count(
                    slot_table@.slots,
                    r.entries@[k].server@,
                ),
    {
        let ghost views = slot_table@.slots;
        let mut servers: Vec<String> = Vec::new();
        let mut leaders: Vec<usize> = Vec::new();
        let mut followers: Vec<usize> = Vec::new();
        let mut i: usize = 0;
        assert(views.take(0) =~= Seq::<SlotView>::empty());
        assert(strs(servers@).to_set() =~= Set::<Seq<char>>::empty());
        while i < slot_table.slots.len()
            invariant
                i <= slot_table.slots.len(),
                views == slot_table@.slots,
                views.len() == slot_table.slots.len(),
                entry_total(views) <= usize::MAX,
                servers.len() == leaders.len(),
                servers.len() == followers.len(),
                strs(servers@).no_duplicates(),
                strs(servers@).to_set() == servers_of(views.take(i as int)),
                forall|j: int|
                    0 <= j < servers.len() ==> leaders@[j] == leader_count(
                        views.take(i as int),
                        #[trigger] servers@[j]@,
                    ) && followers@[j] == follower_count(views.take(i as int), servers@[j]@),
            decreases slot_table.slots.len() - i,
        {
            let slot = &slot_table.slots[i];
            let ghost pre = views.take(i as int);
            let ghost post = views.take(i + 1);
            let ghost f = slot@.followers;
            assert(views[i as int] == slot@);
            assert(post.drop_last() =~= pre);
            assert(post.last() == slot@);
            proof {
                lemma_entry_total_take(views, i as int);
                crate::slot_table::lemma_servers_of_step(views, i as int);
                assert forall|j: int| 0 <= j < servers.len() implies leaders@[j] < usize::MAX by {
                    lemma_counts_bounded(pre, servers@[j]@);
                }
            }
            // the leader
            let ghost s0 = strs(servers@);
            let ghost l0 = leaders@;
            let ghost f0 = followers@;
            bump(&mut servers, &mut leaders, &mut followers, &slot.leader);
            proof {
                if !s0.contains(slot@.leader) {
                    lemma_push_to_set(s0, slot@.leader);
                } else {
                    assert(s0.to_set().insert(slot@.leader) =~= s0.to_set());
                }
                assert(f.take(0) =~= Seq::<Seq<char>>::empty());
                assert(f.take(0).to_set() =~= Set::<Seq<char>>::empty());
                assert(strs(servers@).to_set() =~= servers_of(pre).insert(slot@.leader).union(f.take(0).to_set()));
                assert forall|j: int| 0 <= j < servers.len() implies leaders@[j] == leader_count(
                    post,
                    #[trigger] servers@[j]@,
                ) && followers@[j] == follower_count(pre, servers@[j]@) + occurrences(f.take(0), servers@[j]@)
                    && leaders@[j] + followers@[j] <= entry_total(pre) + 1 by {
                    assert(strs(servers@)[j] == servers@[j]@);
                    lemma_counts_bounded(pre, servers@[j]@);
                    if j >= s0.len() {
                        assert(!s0.contains(slot@.leader));
                        assert(strs(servers@) == s0.push(slot@.leader));
                        assert(strs(servers@).len() == servers@.len());
                        assert(j == s0.len());
                        assert(servers@[j]@ == slot@.leader);
                        assert(!servers_of(pre).contains(slot@.leader));
                    } else {
                        assert(s0[j] == servers@[j]@);
                    }
                }
            }
            // the followers
            let mut k: usize = 0;
            while k < slot.followers.len()
                invariant
                    k <= slot.followers.len(),
                    slot == &slot_table.slots[i as int],
                    f == slot@.followers,
                    i < slot_table.slots.len(),
                    post.drop_last() == pre,
                    post.last() == slot@,
                    entry_total(post) == entry_total(pre) + 1 + f.len(),
                    entry_total(post) <= usize::MAX,
                    servers.len() == leaders.len(),
                    servers.len() == followers.len(),
                    strs(servers@).no_duplicates(),
                    strs(servers@).to_set() == servers_of(pre).insert(slot@.leader).union(
                        f.take(k as int).to_set(),
                    ),
                    forall|j: int|
                        0 <= j < servers.len() ==> leaders@[j] == leader_count(post, #[trigger] servers@[j]@)
                            && followers@[j] == follower_count(pre, servers@[j]@) + occurrences(
                            f.take(k as int),
                            servers@[j]@,
                        ) && leaders@[j] + followers@[j] <= entry_total(pre) + 1 + k,
                decreases slot.followers.len() - k,
            {
                let ghost x = f[k as int];
                assert(x == slot.followers@[k as int]@);
                assert(f.take(k + 1).drop_last() =~= f.take(k as int));
                assert(f.take(k + 1).last() == x);
                proof {
                    lemma_take_to_set(f, k as int);
                }
                let ghost s1 = strs(servers@);
                let ghost l1 = leaders@;
                let ghost f1 = followers@;
                bump(&mut servers, &mut followers, &mut leaders, &slot.followers[k]);
                proof {
                    if !s1.contains(x) {
                        lemma_push_to_set(s1, x);
                    } else {
                        assert(s1.to_set().insert(x) =~= s1.to_set());
                    }
                    assert(strs(servers@).to_set() =~= servers_of(pre).insert(slot@.leader).union(
                        f.take(k + 1).to_set(),
                    ));
                    assert forall|j: int| 0 <= j < servers.len() implies leaders@[j] == leader_count(
                        post,
                        #[trigger] servers@[j]@,
                    ) && followers@[j] == follower_count(pre, servers@[j]@) + occurrences(
                        f.take(k + 1),
                        servers@[j]@,
                    ) && leaders@[j] + followers@[j] <= entry_total(pre) + 1 + k + 1 by {
                        assert(strs(servers@)[j] == servers@[j]@);
                        if j >= s1.len() {
                            assert(!s1.contains(x));
                            assert(strs(servers@) == s1.push(x));
                            assert(strs(servers@).len() == servers@.len());
                            assert(j == s1.len());
                            assert(servers@[j]@ == x);
                            assert(!s1.to_set().contains(x));
                            assert(!servers_of(pre).contains(x));
                            assert(x != slot@.leader);
                            lemma_counts_bounded(pre, x);
                            lemma_counts_bounded(post, x);
                            lemma_occurrences(f.take(k as int), x);
                            assert(!f.take(k as int).to_set().contains(x));
                            assert(!f.take(k as int).contains(x));
                        } else {
                            assert(s1[j] == servers@[j]@);
                        }
                    }
                }
                k = k + 1;
            }
            proof {
                assert(f.take(f.len() as int) =~= f);
                assert forall|j: int| 0 <= j < servers.len() implies leaders@[j] == leader_count(
                    post,
                    #[trigger] servers@[j]@,
                ) && followers@[j] == follower_count(post, servers@[j]@) by {}
            }
            i = i + 1;
        }
        assert(views.take(slot_table.slots.len() as int) =~= views);
        let mut entries: Vec<ServerStats> = Vec::new();
        let mut m: usize = 0;
        while m < servers.len()
            invariant
                m <= servers.len(),
                servers.len() == leaders.len(),
                servers.len() == followers.len(),
                entries.len() == m,
                forall|q: int|
                    0 <= q < m ==> (#[trigger] entries@[q]).server@ == servers@[q]@
                        && entries@[q].leaders == leaders@[q] && entries@[q].followers
                        == followers@[q],
            decreases servers.len() - m,
        {
            entries.push(
                ServerStats {
                    server: servers[m].clone(),
                    leaders: leaders[m],
                    followers: followers[m],
                },
            );
            m = m + 1;
        }
        assert(stat_servers(entries@) =~= strs(servers@));
        DistributionStats { entries }
    }
}


proof fn lemma_div_mod_step(m: int, n: int)
    requires
        n > 0,
        m >= 0,
    ensures
        0 <= m % n < n,
        m % n == n - 1 ==> (m + 1) % n == 0 && (m + 1) / n == m / n + 1,
        m % n < n - 1 ==> (m + 1) % n == m % n + 1 && (m + 1) / n == m / n,
{
    vstd::arithmetic::div_mod::lemma_fundamental_div_mod(m, n);
    vstd::arithmetic::div_mod::lemma_mod_pos_bound(m, n);
    let q = m / n;
    let r = m % n;
    if r == n - 1 {
        assert(m + 1 == (q + 1) * n + 0) by (nonlinear_arith)
            requires
                m == n * q + r,
                r == n - 1,
        ;
        vstd::arithmetic::div_mod::lemma_fundamental_div_mod_converse(m + 1, n, q + 1, 0);
    } else {
        assert(m + 1 == q * n + (r + 1)) by (nonlinear_arith)
            requires
                m == n * q + r,
        ;
        vstd::arithmetic::div_mod::lemma_fundamental_div_mod_converse(m + 1, n, q, r + 1);
    }
}

/// The number of the first `m` slot ids that land on server `k` of `n` in
/// round-robin order.
pub open spec fn round_robin_share(m: nat, n: nat, k: nat) -> nat {
    m / n + if k < m % n {
        1nat
    } else {
        0nat
    }
}

proof fn lemma_lead_prefix(slot_num: u32, replicas: u32, servers: Seq<Seq<char>>, epoch: i64, k: int, m: int)
    requires
        servers.no_duplicates(),
        0 <= k < servers.len(),
        0 <= m <= slot_num,
    ensures
        leader_count(allocation(slot_num, replicas, servers, epoch).slots.take(m), servers[k])
            == round_robin_share(m as nat, servers.len(), k as nat),
    decreases m,
{
    let n = servers.len() as int;
    let slots = allocation(slot_num, replicas, servers, epoch).slots;
    if m == 0 {
        assert(slots.take(0) =~= Seq::<SlotView>::empty());
        assert(0nat / (n as nat) == 0) by (nonlinear_arith)
            requires
                n > 0,
        ;
        assert(0nat % (n as nat) == 0) by (nonlinear_arith)
            requires
                n > 0,
        ;
    } else {
        lemma_lead_prefix(slot_num, replicas, servers, epoch, k, m - 1);
        assert(slots.take(m).drop_last() =~= slots.take(m - 1));
        assert(slots.take(m).last() == slots[m - 1]);
        lemma_div_mod_step(m - 1, n);
        let li = (m - 1) % n;
        assert(slots[m - 1].leader == servers[li]);
        assert(servers[li] == servers[k] <==> li == k) by {
            if li != k {
                assert(servers[li] != servers[k]);
            }
        }
    }
}

/// Leaders are spread round-robin: over distinct servers, server `k` leads
/// `slot_num / n` slots, plus one when `k < slot_num % n`; so every server
/// leads either the floor or the ceiling of `slot_num / n` slots.
pub proof fn lemma_allocation_balanced(
    slot_num: u32,
    replicas: u32,
    servers: Seq<Seq<char>>,
    epoch: i64,
    k: int,
)
    requires
        servers.no_duplicates(),
        0 <= k < servers.len(),
    ensures
        leader_count(allocation(slot_num, replicas, servers, epoch).slots, servers[k])
            == round_robin_share(slot_num as nat, servers.len(), k as nat),
        slot_num as nat / servers.len() <= leader_count(
            allocation(slot_num, replicas, servers, epoch).slots,
            servers[k],
        ) <= slot_num as nat / servers.len() + 1,
{
    lemma_lead_prefix(slot_num, replicas, servers, epoch, k, slot_num as int);
    let slots = allocation(slot_num, replicas, servers, epoch).slots;
    assert(slots.take(slot_num as int) =~= slots);
}

proof fn lemma_candidates_distinct(servers: Seq<Seq<char>>, li: nat, count: nat)
    requires
        servers.no_duplicates(),
        li < servers.len(),
        count < servers.len(),
    ensures
        follower_candidates(servers, li, count).no_duplicates(),
        !follower_candidates(servers, li, count).contains(servers[li as int]),
        follower_candidates(servers, li, count).to_set().subset_of(servers.to_set()),
{
    let n = servers.len() as int;
    let c = follower_candidates(servers, li, count);
    assert forall|f: int| 0 <= f < count implies #[trigger] c[f] == servers[(li + 1 + f) % n] && 0
        <= (li + 1 + f) % n < n && (li + 1 + f) % n != li by {
        lemma_rotation(li as int, f, n);
    }
    assert forall|a: int, b: int| 0 <= a < count && 0 <= b < count && a != b implies c[a]
        != c[b] by {
        lemma_rotation(li as int, a, n);
        lemma_rotation(li as int, b, n);
        assert((li + 1 + a) % n != (li + 1 + b) % n);
    }
    if c.contains(servers[li as int]) {
        let f = choose|f: int| 0 <= f < c.len() && c[f] == servers[li as int];
        assert(servers[(li + 1 + f) % n] == servers[li as int]);
    }
    assert forall|x| c.to_set().contains(x) implies servers.to_set().contains(x) by {
        let f = choose|f: int| 0 <= f < c.len() && c[f] == x;
        assert(servers.contains(servers[(li + 1 + f) % n]));
    }
}

/// Over distinct servers, every slot has exactly
/// `min(replicas - 1, n - 1)` followers, all distinct, none of them its
/// own leader.
pub proof fn lemma_allocation_followers(
    slot_num: u32,
    replicas: u32,
    servers: Seq<Seq<char>>,
    epoch: i64,
    i: int,
)
    requires
        servers.no_duplicates(),
        servers.len() > 0,
        0 <= i < slot_num,
    ensures
        ({
            let s = allocation(slot_num, replicas, servers, epoch).slots[i];
            &&& s.followers.len() == follower_total(replicas, servers.len())
            &&& s.followers.no_duplicates()
            &&& !s.followers.contains(s.leader)
        }),
{
    let n = servers.len();
    let li = (i as nat) % n;
    vstd::arithmetic::div_mod::lemma_mod_pos_bound(i, n as int);
    let fc = follower_total(replicas, n);
    lemma_candidates_distinct(servers, li, fc);
    lemma_dedup_distinct(follower_candidates(servers, li, fc));
}

/// A table built by allocation has distinct slot ids and no repeated
/// follower in a slot.
pub proof fn lemma_allocation_wf(slot_num: u32, replicas: u32, servers: Seq<Seq<char>>, epoch: i64)
    requires
        servers.len() > 0,
    ensures
        allocation(slot_num, replicas, servers, epoch).wf(),
        forall|i: int|
            0 <= i < slot_num ==> (#[trigger] allocation(slot_num, replicas, servers, epoch).slots[i]).id
                == i,
{
    let t = allocation(slot_num, replicas, servers, epoch);
    assert forall|i: int| 0 <= i < t.slots.len() implies (#[trigger] t.slots[i]).wf() by {
        let li = (i as nat) % servers.len();
        lemma_dedup_props(follower_candidates(servers, li, follower_total(replicas, servers.len())));
    }
}

/// When there are at least as many slots as servers, every server takes
/// part in the allocation and no other server does.
pub proof fn lemma_allocation_covers_servers(
    slot_num: u32,
    replicas: u32,
    servers: Seq<Seq<char>>,
    epoch: i64,
)
    requires
        servers.len() > 0,
        servers.len() <= slot_num,
    ensures
        allocation(slot_num, replicas, servers, epoch).data_servers() == servers.to_set(),
{
    let t = allocation(slot_num, replicas, servers, epoch);
    let n = servers.len();
    assert forall|x| t.data_servers().contains(x) <==> servers.to_set().contains(x) by {
        lemma_servers_of_members(t.slots, x);
        if t.data_servers().contains(x) {
            let i = choose|i: int| 0 <= i < t.slots.len() && involves(#[trigger] t.slots[i], x);
            let li = (i as nat) % n;
            vstd::arithmetic::div_mod::lemma_mod_pos_bound(i, n as int);
            let c = follower_candidates(servers, li, follower_total(replicas, n));
            lemma_dedup_props(c);
            if t.slots[i].leader == x {
                assert(servers.contains(servers[li as int]));
            } else {
                assert(dedup(c).to_set().contains(x));
                assert(c.to_set().contains(x));
                let f = choose|f: int| 0 <= f < c.len() && c[f] == x;
                assert(servers.contains(servers[(li + 1 + f) % (n as int)]));
            }
        }
        if servers.to_set().contains(x) {
            let k = choose|k: int| 0 <= k < n && servers[k] == x;
            vstd::arithmetic::div_mod::lemma_small_mod(k as nat, n);
            assert(involves(t.slots[k], x));
        }
    }
    assert(t.data_servers() =~= servers.to_set());
}

/// Rebalancing does not depend on the order the data servers are listed
/// in: any reordering of the same servers gives the same table.
pub proof fn lemma_rebalance_ignores_order(
    a: Seq<Seq<char>>,
    b: Seq<Seq<char>>,
    slot_num: u32,
    replicas: u32,
    epoch: i64,
)
    requires
        a.to_multiset() == b.to_multiset(),
    ensures
        a.sort_by(crate::strings::string_order()) == b.sort_by(crate::strings::string_order()),
        allocation(slot_num, replicas, a.sort_by(crate::strings::string_order()), epoch) == allocation(
            slot_num,
            replicas,
            b.sort_by(crate::strings::string_order()),
            epoch,
        ),
{
    let leq = crate::strings::string_order();
    crate::strings::lemma_string_order_total();
    a.lemma_sort_by_ensures(leq);
    b.lemma_sort_by_ensures(leq);
    vstd::seq_lib::lemma_sorted_unique(a.sort_by(leq), b.sort_by(leq), leq);
}

} // verus!
