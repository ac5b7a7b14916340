//! What the meta server answers to its nodes: heartbeats and renewals,
//! registrations, slot table queries and the leader query.
use vstd::prelude::*;
use crate::data_server_manager::{node_addresses, DataNode, DataServerManager};
use crate::elector::MetaLeaderElector;
use crate::lease_manager::{fresh_lease, renewed_entries, upsert};
use crate::meta_slot_manager::{assignment, MetaSlotManager};
use crate::session_server_manager::{SessionNode, SessionServerManager};
use crate::slot_table::{Slot, SlotTable, SlotTableView, SlotView};
use crate::strings::strs;
use crate::strings::str_eq;

verus! {

/// The node type of a data server.
pub const NODE_DATA: &'static str = "DATA";

/// The node type of a session server.
pub const NODE_SESSION: &'static str = "SESSION";

/// The kinds of node the meta server knows.
pub open spec fn node_kind(t: Seq<char>) -> int {
    if t == NODE_DATA@ {
        0
    } else if t == NODE_SESSION@ {
        1
    } else {
        2
    }
}

/// The answer to a heartbeat or a renewal.
#[derive(Debug)]
pub struct RenewResponse {
    pub success: bool,
    pub slot_table_epoch: i64,
}

/// Renews the lease of the node of type `node_type` at `address`; nodes of
/// other types are not known. The answer carries the slot table's epoch.
pub fn renew_node(
    data: &mut DataServerManager,
    sessions: &mut SessionServerManager,
    slots: &MetaSlotManager,
    node_type: &str,
    address: &str,
) -> (r: RenewResponse)
    requires
        old(data).wf(),
        old(sessions).wf(),
    ensures
        final(data).wf(),
        final(sessions).wf(),
        r.slot_table_epoch == slots.table().epoch,
        node_kind(node_type@) == 0 ==> {
            &&& r.success == old(data).keys().contains(address@)
            &&& r.success ==> exists|now: i64|
                final(data).entries() == #[trigger] renewed_entries(old(data).entries(), address@, now)
            &&& !r.success ==> final(data).entries() == old(data).entries()
            &&& final(sessions).entries() == old(sessions).entries()
        },
        node_kind(node_type@) == 1 ==> {
            &&& r.success == old(sessions).keys().contains(address@)
            &&& r.success ==> exists|now: i64|
                final(sessions).entries() == #[trigger] renewed_entries(old(sessions).entries(), address@, now)
            &&& !r.success ==> final(sessions).entries() == old(sessions).entries()
            &&& final(data).entries() == old(data).entries()
        },
        node_kind(node_type@) == 2 ==> !r.success && final(data).entries() == old(data).entries() && final(sessions).entries() == old(sessions).entries(),
{
    let success = if str_eq(node_type, NODE_DATA) {
        data.renew(address)
    } else if str_eq(node_type, NODE_SESSION) {
        sessions.renew(address)
    } else {
        false
    };
    RenewResponse { success, slot_table_epoch: slots.get_epoch() }
}

/// A slot as sent to nodes.
#[derive(Debug)]
pub struct SlotPb {
    pub id: u32,
    pub leader: String,
    pub leader_epoch: i64,
    pub followers: Vec<String>,
}

/// A slot table as sent to nodes.
#[derive(Debug)]
pub struct SlotTablePb {
    pub epoch: i64,
    pub slots: Vec<SlotPb>,
}

/// Whether a wire slot carries a slot: the same id, leader, leader epoch
/// and followers.
pub open spec fn slot_carries(s: SlotPb, v: SlotView) -> bool {
    &&& s.id == v.id
    &&& s.leader@ == v.leader
    &&& s.leader_epoch == v.leader_epoch
    &&& strs(s.followers@) == v.followers
}

/// Whether a wire table carries a slot table: the same epoch and slots, in
/// order.
pub open spec fn carries(pb: SlotTablePb, t: SlotTableView) -> bool {
    &&& pb.epoch == t.epoch
    &&& pb.slots@.len() == t.slots.len()
    &&& forall|k: int| 0 <= k < pb.slots@.len() ==> slot_carries(#[trigger] pb.slots@[k], t.slots[k])
}

/// The wire form of a slot table: the same epoch and slots, in order.
pub fn slot_table_to_pb(table: &SlotTable) -> (pb: SlotTablePb)
    ensures
        carries(pb, table@),
{
    let mut slots: Vec<SlotPb> = Vec::new();
    let mut i: usize = 0;
    while i < table.slots.len()
        invariant
            i <= table.slots.len(),
            slots@.len() == i,
            forall|k: int| 0 <= k < i ==> slot_carries(#[trigger] slots@[k], table@.slots[k]),
        decreases table.slots.len() - i,
    {
        let s: &Slot = &table.slots[i];
        slots.push(SlotPb {
            id: s.id,
            leader: s.leader.clone(),
            leader_epoch: s.leader_epoch,
            followers: crate::slot_table::copy_strings(&s.followers),
        });
        i = i + 1;
    }
    SlotTablePb { epoch: table.epoch, slots }
}

/// The answer to a slot table query.
#[derive(Debug)]
pub struct GetSlotTableResponse {
    pub success: bool,
    pub slot_table: Option<SlotTablePb>,
    pub unchanged: bool,
}

/// Answers a node that holds the table of epoch `current_epoch`: nothing
/// new when that is the current epoch, else the current table.
pub fn get_slot_table(slots: &MetaSlotManager, current_epoch: i64) -> (r: GetSlotTableResponse)
    ensures
        r.success,
        r.unchanged == (current_epoch == slots.table().epoch),
        r.unchanged ==> r.slot_table is None,
        !r.unchanged ==> (r.slot_table matches Some(t) && carries(t, slots.table())),
{
    let table = slots.get_slot_table();
    if current_epoch == table.epoch {
        GetSlotTableResponse { success: true, slot_table: None, unchanged: true }
    } else {
        GetSlotTableResponse { success: true, slot_table: Some(slot_table_to_pb(&table)), unchanged: false }
    }
}

/// The answer to a node's registration.
#[derive(Debug)]
pub struct RegisterNodeResponse {
    pub success: bool,
    pub message: String,
    pub slot_table: SlotTablePb,
}

/// The message refusing a registration of an unknown node type.
pub open spec fn unknown_node_message(t: Seq<char>) -> Seq<char> {
    "Unknown node type: "@ + t
}

/// Registers a node at `now`: a data server (whereupon a leading meta
/// server assigns or rebalances the slots) or a session server. Other node
/// types are refused. The answer carries the slot table.
pub fn register_node_at(
    data: &mut DataServerManager,
    sessions: &mut SessionServerManager,
    slots: &mut MetaSlotManager,
    elector: &MetaLeaderElector,
    node_type: &str,
    address: &str,
    data_center: &str,
    cluster_id: &str,
    now: i64,
) -> (r: Result<RegisterNodeResponse, String>)
    requires
        old(data).wf(),
        old(sessions).wf(),
        old(slots).table().epoch < i64::MAX,
    ensures
        final(data).wf(),
        final(sessions).wf(),
        node_kind(node_type@) == 0 ==> {
            &&& exists|n: DataNode|
                n.address@ == address@ && n.data_center@ == data_center@ && n.cluster_id@ == cluster_id@
                    && n.registered_timestamp == now && final(data).entries() == upsert(
                    old(data).entries(),
                    address@,
                    #[trigger] fresh_lease(n, now, old(data).lease_duration(), old(data).origin()),
                )
            &&& final(sessions).entries() == old(sessions).entries()
            &&& (elector.role_of() == crate::elector::ElectorRole::Leader ==> match assignment(
                old(slots).table(),
                node_addresses(final(data).entries()),
                old(slots).slot_num(),
                old(slots).slot_replicas(),
            ) {
                Some(t) => final(slots).table() == t,
                None => final(slots).table() == old(slots).table(),
            })
            &&& (elector.role_of() != crate::elector::ElectorRole::Leader ==> final(slots).table() == old(slots).table())
            &&& r matches Ok(resp) && resp.success && resp.message@ == "Registered"@
                && carries(resp.slot_table, final(slots).table())
        },
        node_kind(node_type@) == 1 ==> {
            &&& exists|n: SessionNode|
                n.address@ == address@ && n.data_center@ == data_center@ && n.cluster_id@ == cluster_id@
                    && n.registered_timestamp == now && final(sessions).entries() == upsert(
                    old(sessions).entries(),
                    address@,
                    #[trigger] fresh_lease(n, now, old(sessions).lease_duration(), old(sessions).origin()),
                )
            &&& final(data).entries() == old(data).entries()
            &&& final(slots).table() == old(slots).table()
            &&& r matches Ok(resp) && resp.success && resp.message@ == "Registered"@
                && carries(resp.slot_table, final(slots).table())
        },
        node_kind(node_type@) == 2 ==> {
            &&& r matches Err(m) && m@ == unknown_node_message(node_type@)
            &&& final(data).entries() == old(data).entries()
            &&& final(sessions).entries() == old(sessions).entries()
            &&& final(slots).table() == old(slots).table()
        },
{
    if str_eq(node_type, NODE_DATA) {
        let node = DataNode::new_at(address, data_center, cluster_id, now);
        data.register_at(node, now);
        if elector.am_i_leader() {
            slots.try_assign_or_rebalance(data);
        }
    } else if str_eq(node_type, NODE_SESSION) {
        let node = SessionNode::new_at(address, data_center, cluster_id, now);
        sessions.register_at(node, now);
    } else {
        let mut m = String::from_str("Unknown node type: ");
        m.append(node_type);
        return Err(m);
    }
    let table = slots.get_slot_table();
    Ok(RegisterNodeResponse {
        success: true,
        message: String::from_str("Registered"),
        slot_table: slot_table_to_pb(&table),
    })
}

/// The answer to a leader query.
#[derive(Debug)]
pub struct GetLeaderResponse {
    pub leader: String,
    pub epoch: i64,
    pub expire_timestamp: i64,
}

/// The known leader: its address (empty when none), term and expiry.
pub fn get_leader(elector: &MetaLeaderElector) -> (r: GetLeaderResponse)
    ensures
        r.leader@ == match elector.leader_of().leader {
            Some(l) => l,
            None => Seq::empty(),
        },
        r.epoch == elector.leader_of().epoch,
        r.expire_timestamp == elector.leader_of().expire_timestamp,
{
    let info = elector.get_leader_info();
    let leader = match info.leader {
        Some(l) => l,
        None => {
            let e = String::new();
            assert(e@ =~= Seq::<char>::empty());
            e
        },
    };
    GetLeaderResponse { leader, epoch: info.epoch, expire_timestamp: info.expire_timestamp }
}

} // verus!
