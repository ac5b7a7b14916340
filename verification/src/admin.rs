//! The answers of the servers' admin HTTP APIs, computed from their state.
use vstd::prelude::*;
use crate::connection_service::{ConnectionService, ConnectionView};
use crate::data_server_manager::{node_addresses, DataServerManager};
use crate::data_slot_manager::{follower_ids, leader_ids, DataSlotManager};
use crate::elector::{MetaLeaderElector, ElectorRole};
use crate::model::{connect_id_text, copy_opt, opt_view, Publisher, PublisherView};
use crate::registry::{total, PublisherRegistry, SubscriberRegistry};
use crate::session_server_manager::{session_node_addresses, SessionServerManager};
use crate::strings::strs;

verus! {

/// The status every running server reports.
pub const STATUS_UP: &'static str = "UP";

/// The server type a data server reports.
pub const DATA_SERVER_TYPE: &'static str = "DATA";

/// A count of registrations, saturated at `usize::MAX`.
pub open spec fn saturated(n: nat) -> usize {
    if n <= usize::MAX {
        n as usize
    } else {
        usize::MAX
    }
}

/// The health of a session server.
#[derive(Debug)]
pub struct SessionHealth {
    pub status: String,
    pub publisher_count: usize,
    pub subscriber_count: usize,
    pub connection_count: usize,
}

/// The health of a session server: up, with its numbers of publishers,
/// subscribers and connections.
pub fn session_health(
    pubs: &PublisherRegistry,
    subs: &SubscriberRegistry,
    conns: &ConnectionService,
) -> (h: SessionHealth)
    ensures
        h.status@ == STATUS_UP@,
        h.publisher_count == saturated(total(pubs.data_index())),
        h.subscriber_count == saturated(total(subs.data_index())),
        h.connection_count == conns.connections().len(),
{
    SessionHealth {
        status: String::from_str(STATUS_UP),
        publisher_count: pubs.count(),
        subscriber_count: subs.count(),
        connection_count: conns.count(),
    }
}

/// A number of registrations and of the data ids they are under.
#[derive(Debug)]
pub struct CountResponse {
    pub count: usize,
    pub data_info_id_count: usize,
}

/// The numbers of publishers and of data ids with a publisher.
pub fn publisher_count(pubs: &PublisherRegistry) -> (r: CountResponse)
    ensures
        r.count == saturated(total(pubs.data_index())),
        r.data_info_id_count == pubs.data_index().len(),
{
    CountResponse { count: pubs.count(), data_info_id_count: pubs.data_info_id_count() }
}

/// The numbers of subscribers and of data ids with a subscriber.
pub fn subscriber_count(subs: &SubscriberRegistry) -> (r: CountResponse)
    ensures
        r.count == saturated(total(subs.data_index())),
        r.data_info_id_count == subs.data_index().len(),
{
    CountResponse { count: subs.count(), data_info_id_count: subs.data_info_id_count() }
}

/// One client connection in the connection listing.
#[derive(Debug)]
pub struct ConnectionResponse {
    pub client_id: String,
    pub address: String,
    pub connected_at: i64,
}

/// The connection listing.
#[derive(Debug)]
pub struct ConnectionsResponse {
    pub connections: Vec<ConnectionResponse>,
    pub count: usize,
}

/// Every connection of a session server, in order, with their number.
pub fn connections(conns: &ConnectionService) -> (r: ConnectionsResponse)
    ensures
        r.count == conns.connections().len(),
        r.connections@.len() == conns.connections().len(),
        forall|k: int|
            0 <= k < r.connections@.len() ==> {
                let c: ConnectionView = conns.connections()[k].1;
                &&& (#[trigger] r.connections@[k]).client_id@ == c.client_id
                &&& r.connections@[k].address@ == c.address
                &&& r.connections@[k].connected_at == c.connected_at
            },
{
    let all = conns.get_all();
    let mut out: Vec<ConnectionResponse> = Vec::new();
    let mut i: usize = 0;
    while i < all.len()
        invariant
            i <= all.len(),
            all@.len() == conns.connections().len(),
            forall|k: int| 0 <= k < all@.len() ==> #[trigger] all@[k]@ == conns.connections()[k].1,
            out@.len() == i,
            forall|k: int|
                0 <= k < i ==> {
                    let c: ConnectionView = conns.connections()[k].1;
                    &&& (#[trigger] out@[k]).client_id@ == c.client_id
                    &&& out@[k].address@ == c.address
                    &&& out@[k].connected_at == c.connected_at
                },
        decreases all.len() - i,
    {
        let c = &all[i];
        assert(c@ == conns.connections()[i as int].1);
        let entry = ConnectionResponse {
            client_id: c.client_id.clone(),
            address: c.address.clone(),
            connected_at: c.connected_at,
        };
        out.push(entry);
        assert(out@[i as int] == entry);
        i = i + 1;
    }
    let count = out.len();
    ConnectionsResponse { connections: out, count }
}

/// A listing of server addresses.
#[derive(Debug)]
pub struct NodeListResponse {
    pub nodes: Vec<String>,
    pub count: usize,
}

/// The registered data servers' addresses, in registration order.
pub fn list_data_servers(mgr: &DataServerManager) -> (r: NodeListResponse)
    ensures
        strs(r.nodes@) == node_addresses(mgr.entries()),
        r.count == mgr.entries().len(),
{
    let nodes = mgr.get_data_server_addresses();
    let count = nodes.len();
    assert(strs(nodes@).len() == nodes@.len());
    assert(node_addresses(mgr.entries()).len() == mgr.entries().len());
    NodeListResponse { nodes, count }
}

/// The registered session servers' addresses, in registration order.
pub fn list_session_servers(mgr: &SessionServerManager) -> (r: NodeListResponse)
    ensures
        strs(r.nodes@) == session_node_addresses(mgr.entries()),
        r.count == mgr.entries().len(),
{
    let nodes = mgr.get_session_server_addresses();
    let count = nodes.len();
    assert(strs(nodes@).len() == nodes@.len());
    assert(session_node_addresses(mgr.entries()).len() == mgr.entries().len());
    NodeListResponse { nodes, count }
}

/// The leader as a meta server reports it.
#[derive(Debug)]
pub struct LeaderResponse {
    pub leader: Option<String>,
    pub epoch: i64,
    pub am_i_leader: bool,
}

/// The known leader and term, and whether this meta server leads.
pub fn leader_response(elector: &MetaLeaderElector) -> (r: LeaderResponse)
    ensures
        opt_view(r.leader) == elector.leader_of().leader,
        r.epoch == elector.leader_of().epoch,
        r.am_i_leader == (elector.role_of() == ElectorRole::Leader),
{
    let info = elector.get_leader_info();
    LeaderResponse { leader: info.leader, epoch: info.epoch, am_i_leader: elector.am_i_leader() }
}

/// The health of a data server.
#[derive(Debug)]
pub struct DataHealth {
    pub status: String,
    pub server_type: String,
    pub uptime_ms: i64,
    pub slot_table_epoch: i64,
    pub leader_slots: usize,
    pub follower_slots: usize,
}

/// The health of a data server started at `start_time` at `now`: up, its
/// uptime, the epoch of its slot table and the numbers of slots it leads
/// and follows.
pub fn data_health(slots: &DataSlotManager, start_time: i64, now: i64) -> (h: DataHealth)
    requires
        i64::MIN <= now - start_time <= i64::MAX,
    ensures
        h.status@ == STATUS_UP@,
        h.server_type@ == DATA_SERVER_TYPE@,
        h.uptime_ms == now - start_time,
        h.slot_table_epoch == slots.table().epoch,
        h.leader_slots == leader_ids(slots.table().slots, slots.address()).len(),
        h.follower_slots == follower_ids(slots.table().slots, slots.address()).len(),
{
    let leaders = slots.my_leader_slots();
    let followers = slots.my_follower_slots();
    DataHealth {
        status: String::from_str(STATUS_UP),
        server_type: String::from_str(DATA_SERVER_TYPE),
        uptime_ms: now - start_time,
        slot_table_epoch: slots.get_slot_table_epoch(),
        leader_slots: leaders.len(),
        follower_slots: followers.len(),
    }
}

/// One publisher in the publisher listing of a data server.
#[derive(Debug)]
pub struct PublisherInfo {
    pub regist_id: String,
    pub client_id: String,
    pub app_name: Option<String>,
    pub source_address: String,
    pub register_timestamp: i64,
}

/// The publisher listing of a data id.
#[derive(Debug)]
pub struct PublishersResponse {
    pub data_info_id: String,
    pub publisher_count: usize,
    pub publishers: Vec<PublisherInfo>,
}

/// Whether a listing entry shows a publisher.
pub open spec fn shows(i: PublisherInfo, p: PublisherView) -> bool {
    &&& i.regist_id@ == p.regist_id
    &&& i.client_id@ == p.client_id
    &&& opt_view(i.app_name) == p.app_name
    &&& i.source_address@ == connect_id_text(p.source_address)
    &&& i.register_timestamp == p.register_timestamp
}

/// The listing of the publishers of a data id, in order; with no data id
/// asked for, an empty listing.
pub fn publishers_response(data_info_id: Option<String>, publishers: &Vec<Publisher>) -> (r: PublishersResponse)
    ensures
        match data_info_id {
            Some(id) => {
                &&& r.data_info_id@ == id@
                &&& r.publisher_count == publishers@.len()
                &&& r.publishers@.len() == publishers@.len()
                &&& forall|k: int|
                    0 <= k < r.publishers@.len() ==> shows(#[trigger] r.publishers@[k], publishers@[k]@)
            },
            None => {
                &&& r.data_info_id@ == Seq::<char>::empty()
                &&& r.publisher_count == 0
                &&& r.publishers@.len() == 0
            },
        },
{
    match data_info_id {
        None => {
            let e = String::new();
            assert(e@ =~= Seq::<char>::empty());
            PublishersResponse { data_info_id: e, publisher_count: 0, publishers: Vec::new() }
        },
        Some(id) => {
            let mut out: Vec<PublisherInfo> = Vec::new();
            let mut i: usize = 0;
            while i < publishers.len()
                invariant
                    i <= publishers.len(),
                    out@.len() == i,
                    forall|k: int| 0 <= k < i ==> shows(#[trigger] out@[k], publishers@[k]@),
                decreases publishers.len() - i,
            {
                let p = &publishers[i];
                out.push(
                    PublisherInfo {
                        regist_id: p.regist_id.clone(),
                        client_id: p.client_id.clone(),
                        app_name: copy_opt(&p.app_name),
                        source_address: p.source_address.to_string(),
                        register_timestamp: p.register_timestamp,
                    },
                );
                i = i + 1;
            }
            let count = out.len();
            PublishersResponse { data_info_id: id, publisher_count: count, publishers: out }
        },
    }
}

} // verus!
