//! Registrations and leases of session servers at the meta server.
use vstd::prelude::*;
use crate::clock::{later, now_millis};
use crate::lease_manager::{
    renewed_entries, eviction_notices, expired_at, expired_nodes, fresh_lease, key_index, unexpired, upsert, Lease,
    LeaseManager,
};
use crate::strings::strs;

verus! {

/// A registered session server.
pub struct SessionNode {
    pub address: String,
    pub data_center: String,
    pub cluster_id: String,
    pub registered_timestamp: i64,
}

impl Clone for SessionNode {
    fn clone(&self) -> (r: Self)
        ensures
            r == *self,
    {
        SessionNode {
            address: self.address.clone(),
            data_center: self.data_center.clone(),
            cluster_id: self.cluster_id.clone(),
            registered_timestamp: self.registered_timestamp,
        }
    }
}

impl SessionNode {
    /// A node registered at `timestamp` (milliseconds).
    pub fn new_at(address: &str, data_center: &str, cluster_id: &str, timestamp: i64) -> (n: SessionNode)
        ensures
            n.address@ == address@,
            n.data_center@ == data_center@,
            n.cluster_id@ == cluster_id@,
            n.registered_timestamp == timestamp,
    {
        SessionNode {
            address: String::from_str(address),
            data_center: String::from_str(data_center),
            cluster_id: String::from_str(cluster_id),
            registered_timestamp: timestamp,
        }
    }

    /// A node registered now.
    pub fn new(address: &str, data_center: &str, cluster_id: &str) -> (n: SessionNode)
        ensures
            n.address@ == address@,
            n.data_center@ == data_center@,
            n.cluster_id@ == cluster_id@,
    {
        SessionNode::new_at(address, data_center, cluster_id, now_millis())
    }
}

/// The addresses of the nodes of lease entries.
pub open spec fn session_node_addresses(s: Seq<(Seq<char>, Lease<SessionNode>)>) -> Seq<Seq<char>> {
    s.map_values(|e: (Seq<char>, Lease<SessionNode>)| e.1.node.address@)
}

/// Session servers registered at the meta server, each under its address.
pub struct SessionServerManager {
    lease_manager: LeaseManager<SessionNode>,
}

impl SessionServerManager {
    /// The lease entries (address, lease), in registration order.
    pub closed spec fn entries(&self) -> Seq<(Seq<char>, Lease<SessionNode>)> {
        self.lease_manager.entries()
    }

    /// The lease duration in milliseconds.
    pub closed spec fn lease_duration(&self) -> u64 {
        self.lease_manager.lease_duration()
    }

    /// The start of the monotonic clock the leases are timed by.
    pub closed spec fn origin(&self) -> std::time::Instant {
        self.lease_manager.origin()
    }

    /// The latest time the lease table has been told or has read from its
    /// clock; a reading of the clock is never earlier.
    pub closed spec fn latest_reading(&self) -> i64 {
        self.lease_manager.latest_reading()
    }

    /// The internal lease table is consistent.
    pub closed spec fn wf(&self) -> bool {
        self.lease_manager.wf()
    }

    /// The registered addresses.
    pub open spec fn keys(&self) -> Seq<Seq<char>> {
        self.entries().map_values(|e: (Seq<char>, Lease<SessionNode>)| e.0)
    }

    /// No session server, leases of `lease_duration_secs` seconds.
    pub fn new(lease_duration_secs: u64) -> (m: Self)
        ensures
            m.wf(),
            m.entries() == Seq::<(Seq<char>, Lease<SessionNode>)>::empty(),
    {
        SessionServerManager { lease_manager: LeaseManager::new(lease_duration_secs) }
    }

    /// Registers `node` under its address at `now`. True when the address
    /// was new.
    pub fn register_at(&mut self, node: SessionNode, now: i64) -> (is_new: bool)
        requires
            old(self).wf(),
        ensures
            final(self).wf(),
            is_new == !old(self).keys().contains(node.address@),
            final(self).entries() == upsert(
                old(self).entries(),
                node.address@,
                fresh_lease(node, now, old(self).lease_duration(), old(self).origin()),
            ),
            final(self).lease_duration() == old(self).lease_duration(),
            final(self).origin() == old(self).origin(),
            final(self).latest_reading() == later(old(self).latest_reading(), now),
    {
        let key = node.address.clone();
        self.lease_manager.register_at(key, node, now)
    }

    /// Registers `node` under its address now. True when the address was new.
    pub fn register(&mut self, node: SessionNode) -> (is_new: bool)
        requires
            old(self).wf(),
        ensures
            final(self).wf(),
            is_new == !old(self).keys().contains(node.address@),
            exists|now: i64|
                final(self).entries() == upsert(
                    old(self).entries(),
                    node.address@,
                    #[trigger] fresh_lease(node, now, old(self).lease_duration(), old(self).origin()),
                ),
            final(self).lease_duration() == old(self).lease_duration(),
            final(self).origin() == old(self).origin(),
            final(self).latest_reading() >= old(self).latest_reading(),
            final(self).entries() == upsert(
                old(self).entries(),
                node.address@,
                fresh_lease(node, final(self).latest_reading(), old(self).lease_duration(), old(self).origin()),
            ),
    {
        let key = node.address.clone();
        let ghost n = node;
        let r = self.lease_manager.register(key, node);
        proof {
            let now = choose|now: i64|
                self.lease_manager.entries() == upsert(
                    old(self).lease_manager.entries(),
                    n.address@,
                    #[trigger] fresh_lease(n, now, old(self).lease_manager.lease_duration(), old(self).lease_manager.origin()),
                );
            assert(final(self).entries() == upsert(
                old(self).entries(),
                n.address@,
                fresh_lease(n, now, old(self).lease_duration(), old(self).origin()),
            ));
        }
        r
    }

    /// Renews the lease of `address` now. False when it is not registered.
    pub fn renew(&mut self, address: &str) -> (found: bool)
        requires
            old(self).wf(),
        ensures
            final(self).wf(),
            found == old(self).keys().contains(address@),
            found ==> exists|now: i64|
                final(self).entries() == #[trigger] renewed_entries(old(self).entries(), address@, now),
            final(self).keys() == old(self).keys(),
            !found ==> final(self).entries() == old(self).entries(),
            final(self).lease_duration() == old(self).lease_duration(),
            found ==> final(self).entries()[key_index(old(self).entries(), address@)].1.last_renewed >= old(
                self,
            ).entries()[key_index(old(self).entries(), address@)].1.last_renewed,
            final(self).latest_reading() >= old(self).latest_reading(),
            found ==> final(self).entries() == renewed_entries(old(self).entries(), address@, final(self).latest_reading()),
            found ==> forall|j: int|
                0 <= j < final(self).entries().len() ==> #[trigger] final(self).entries()[j].1.last_renewed
                    <= final(self).entries()[key_index(old(self).entries(), address@)].1.last_renewed,
            found ==> forall|t: int|
                final(self).latest_reading() <= t <= final(self).latest_reading() + final(self).entries()[key_index(
                    old(self).entries(),
                    address@,
                )].1.duration ==> !#[trigger] expired_at(
                    final(self).entries()[key_index(old(self).entries(), address@)].1,
                    t,
                ),
    {
        let r = self.lease_manager.renew(address);
        proof {
            if r {
                let now = choose|now: i64|
                    self.lease_manager.entries() == #[trigger] renewed_entries(
                        old(self).lease_manager.entries(),
                        address@,
                        now,
                    );
                assert(final(self).entries() == renewed_entries(old(self).entries(), address@, now));
            }
        }
        r
    }

    /// The registered nodes, in registration order.
    pub fn get_session_server_list(&self) -> (r: Vec<SessionNode>)
        ensures
            r@ == self.entries().map_values(|e: (Seq<char>, Lease<SessionNode>)| e.1.node),
    {
        let r = self.lease_manager.get_all();
        assert(r@ =~= self.entries().map_values(|e: (Seq<char>, Lease<SessionNode>)| e.1.node));
        r
    }

    /// The addresses of the registered nodes, in registration order.
    pub fn get_session_server_addresses(&self) -> (r: Vec<String>)
        ensures
            strs(r@) == session_node_addresses(self.entries()),
    {
        let nodes = self.lease_manager.get_all();
        let mut out: Vec<String> = Vec::new();
        let mut i: usize = 0;
        while i < nodes.len()
            invariant
                i <= nodes.len(),
                nodes@.len() == self.entries().len(),
                forall|k: int| 0 <= k < nodes@.len() ==> nodes@[k] == self.entries()[k].1.node,
                strs(out@) == session_node_addresses(self.entries()).take(i as int),
            decreases nodes.len() - i,
        {
            let ghost before = strs(out@);
            let a = nodes[i].address.clone();
            assert(a@ == session_node_addresses(self.entries())[i as int]);
            out.push(a);
            assert(strs(out@) =~= before.push(a@));
            assert(session_node_addresses(self.entries()).take(i + 1) =~= session_node_addresses(self.entries()).take(
                i as int,
            ).push(a@));
            i = i + 1;
        }
        assert(session_node_addresses(self.entries()).take(nodes.len() as int) =~= session_node_addresses(
            self.entries(),
        ));
        out
    }

    /// Number of registered session servers.
    pub fn count(&self) -> (r: usize)
        ensures
            r == self.entries().len(),
    {
        self.lease_manager.count()
    }

    /// Removes the session servers whose lease ran out at `now`.
    pub fn evict_expired_at(&mut self, now: i64) -> (evicted: Vec<SessionNode>)
        requires
            old(self).wf(),
        ensures
            final(self).wf(),
            final(self).entries() == unexpired(old(self).entries(), now as int),
            evicted@ == expired_nodes(old(self).entries(), now as int),
            final(self).lease_duration() == old(self).lease_duration(),
            final(self).origin() == old(self).origin(),
            final(self).latest_reading() == later(old(self).latest_reading(), now),
    {
        self.lease_manager.evict_expired_at(now)
    }

    /// Removes the session servers whose lease has run out now.
    pub fn evict_expired(&mut self) -> (evicted: Vec<SessionNode>)
        requires
            old(self).wf(),
        ensures
            final(self).wf(),
            exists|now: int|
                final(self).entries() == #[trigger] unexpired(old(self).entries(), now) && evicted@
                    == expired_nodes(old(self).entries(), now),
            final(self).lease_duration() == old(self).lease_duration(),
            final(self).origin() == old(self).origin(),
            final(self).latest_reading() >= old(self).latest_reading(),
            final(self).entries() == unexpired(old(self).entries(), final(self).latest_reading() as int),
            evicted@ == expired_nodes(old(self).entries(), final(self).latest_reading() as int),
            forall|j: int|
                0 <= j < final(self).entries().len() ==> !expired_at(
                    #[trigger] final(self).entries()[j].1,
                    old(self).latest_reading() as int,
                ),
            forall|k: int|
                0 <= k < old(self).entries().len() && expired_at(
                    #[trigger] old(self).entries()[k].1,
                    old(self).latest_reading() as int,
                ) ==> !final(self).entries().contains(old(self).entries()[k]),
    {
        let r = self.lease_manager.evict_expired();
        proof {
            let now = choose|now: int|
                self.lease_manager.entries() == #[trigger] unexpired(old(self).lease_manager.entries(), now) && r@
                    == expired_nodes(old(self).lease_manager.entries(), now) && self.lease_manager.notices()
                    == old(self).lease_manager.notices() + eviction_notices(
                    old(self).lease_manager.observers().len(),
                    expired_nodes(old(self).lease_manager.entries(), now),
                );
            assert(final(self).entries() == unexpired(old(self).entries(), now));
        }
        r
    }

    /// Whether `address` is registered.
    pub fn contains(&self, address: &str) -> (r: bool)
        requires
            self.wf(),
        ensures
            r == self.keys().contains(address@),
    {
        self.lease_manager.contains(address)
    }

    /// Removes the registration of `address`, returning its node.
    pub fn remove(&mut self, address: &str) -> (r: Option<SessionNode>)
        requires
            old(self).wf(),
        ensures
            final(self).wf(),
            r is Some == old(self).keys().contains(address@),
            r matches Some(v) ==> v == old(self).entries()[key_index(old(self).entries(), address@)].1.node
                && final(self).entries() == old(self).entries().remove(
                key_index(old(self).entries(), address@),
            ),
            r is None ==> final(self).entries() == old(self).entries(),
            final(self).lease_duration() == old(self).lease_duration(),
            final(self).origin() == old(self).origin(),
            final(self).latest_reading() == old(self).latest_reading(),
    {
        self.lease_manager.remove(address)
    }
}

} // verus!
