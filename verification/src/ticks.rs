//! What the servers do on each tick of their periodic loops: the meta
//! server evicts lapsed node leases and, when it leads, rebalances the
//! slots; the session server evicts idle clients and drops their streams.
use vstd::prelude::*;
use crate::connection_service::{cutoff_at, fresh, idle, ConnectionService};
use crate::data_server_manager::{node_addresses, DataNode, DataServerManager};
use crate::elector::{ElectorRole, MetaLeaderElector};
use crate::keyed::{kdel, kget};
use crate::lease_manager::{expired_nodes, unexpired};
use crate::meta_slot_manager::{assignment, rebalance_needed, MetaSlotManager};
use crate::session_server_manager::{SessionNode, SessionServerManager};
use crate::stream_registry::StreamRegistry;
use crate::strings::strs;

verus! {

/// What a meta server's tick did: the data and session servers whose
/// leases lapsed, and whether the slot table was replaced.
pub struct MetaTickReport {
    pub evicted_data: Vec<DataNode>,
    pub evicted_sessions: Vec<SessionNode>,
    pub rebalanced: bool,
}

/// A meta server's tick at `now`: the lapsed data and session server
/// leases are evicted; then, when this server leads and the table does not
/// fit the remaining data servers, the slots are assigned or rebalanced.
pub fn meta_tick_at(
    elector: &MetaLeaderElector,
    data: &mut DataServerManager,
    sessions: &mut SessionServerManager,
    slots: &mut MetaSlotManager,
    now: i64,
) -> (r: MetaTickReport)
    requires
        old(data).wf(),
        old(sessions).wf(),
        old(slots).table().epoch < i64::MAX,
    ensures
        final(data).wf(),
        final(sessions).wf(),
        final(data).entries() == unexpired(old(data).entries(), now as int),
        r.evicted_data@ == expired_nodes(old(data).entries(), now as int),
        final(sessions).entries() == unexpired(old(sessions).entries(), now as int),
        r.evicted_sessions@ == expired_nodes(old(sessions).entries(), now as int),
        final(slots).slot_num() == old(slots).slot_num(),
        final(slots).slot_replicas() == old(slots).slot_replicas(),
        ({
            let servers = node_addresses(final(data).entries());
            let due = elector.role_of() == ElectorRole::Leader && rebalance_needed(old(slots).table(), servers);
            let a = assignment(old(slots).table(), servers, old(slots).slot_num(), old(slots).slot_replicas());
            &&& due && a is Some ==> r.rebalanced && final(slots).table() == a->Some_0
            &&& !(due && a is Some) ==> !r.rebalanced && final(slots).table() == old(slots).table()
        }),
{
    let evicted_data = data.evict_expired_at(now);
    let evicted_sessions = sessions.evict_expired_at(now);
    let rebalanced = if elector.am_i_leader() && slots.needs_rebalance(data) {
        slots.try_assign_or_rebalance(data)
    } else {
        false
    };
    MetaTickReport { evicted_data, evicted_sessions, rebalanced }
}

/// The streams left after those of `ids` are dropped, one after another.
pub open spec fn without_streams<S>(s: Seq<(Seq<char>, S)>, ids: Seq<Seq<char>>) -> Seq<(Seq<char>, S)>
    decreases ids.len(),
{
    if ids.len() == 0 {
        s
    } else {
        kdel(without_streams(s, ids.drop_last()), ids.last())
    }
}

/// A session server's eviction tick at `now`: the clients idle for more
/// than `idle_timeout_secs` are disconnected, and their subscribe streams
/// dropped. Returns their client ids.
pub fn session_eviction_tick_at<S: Clone>(
    conns: &mut ConnectionService,
    streams: &mut StreamRegistry<S>,
    idle_timeout_secs: u64,
    now: i64,
) -> (evicted: Vec<String>)
    requires
        idle_timeout_secs <= i64::MAX / 1000,
    ensures
        final(conns).connections() == fresh(old(conns).connections(), cutoff_at(now, idle_timeout_secs * 1000)),
        strs(evicted@) == idle(old(conns).connections(), cutoff_at(now, idle_timeout_secs * 1000)),
        final(streams).streams() == without_streams(old(streams).streams(), strs(evicted@)),
        forall|id: Seq<char>|
            strs(evicted@).contains(id) ==> #[trigger] kget(final(streams).streams(), id) is None,
        forall|id: Seq<char>|
            !strs(evicted@).contains(id) ==> #[trigger] kget(final(streams).streams(), id) == kget(
                old(streams).streams(),
                id,
            ),
{
    let evicted = conns.evict_idle_at(idle_timeout_secs, now);
    let ghost ids = strs(evicted@);
    let ghost start = streams.streams();
    let mut i: usize = 0;
    assert(ids.take(0) =~= Seq::<Seq<char>>::empty());
    while i < evicted.len()
        invariant
            i <= evicted.len(),
            ids == strs(evicted@),
            streams.streams() == without_streams(start, ids.take(i as int)),
            forall|id: Seq<char>| ids.take(i as int).contains(id) ==> #[trigger] kget(streams.streams(), id) is None,
            forall|id: Seq<char>| !ids.take(i as int).contains(id) ==> #[trigger] kget(streams.streams(), id) == kget(start, id),
        decreases evicted.len() - i,
    {
        let ghost prev = streams.streams();
        streams.unregister(evicted[i].as_str());
        assert(ids.take(i + 1).drop_last() =~= ids.take(i as int));
        assert(ids[i as int] == evicted@[i as int]@);
        let ghost t0 = ids.take(i as int);
        let ghost t1 = ids.take(i + 1);
        assert forall|id: Seq<char>| t1.contains(id) <==> (t0.contains(id) || id == ids[i as int]) by {
            if t1.contains(id) {
                let k = choose|k: int| 0 <= k < t1.len() && #[trigger] t1[k] == id;
                if k < i {
                    assert(t0[k] == id);
                }
            }
            if t0.contains(id) {
                let k = choose|k: int| 0 <= k < t0.len() && #[trigger] t0[k] == id;
                assert(t1[k] == id);
            }
            if id == ids[i as int] {
                assert(t1[i as int] == id);
            }
        }
        i = i + 1;
    }
    assert(ids.take(evicted.len() as int) =~= ids);
    evicted
}

} // verus!
