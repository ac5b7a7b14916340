//! What a session server does with its clients' requests: the registration
//! model built from a request, the writes forwarded to data servers, and the
//! decisions of unregistration, heartbeats and change notifications.
use vstd::prelude::*;
use crate::connection_service::{new_connection, ConnectionService};
use crate::keyed::{kget, kput};
use crate::model::{
    connect_id_text, ConnectIdView, DatumVersion, ProcessId, ProcessIdView, PublishSource,
    PublishType, Publisher, PublisherView, RegisterVersion, Scope, Subscriber, SubscriberView,
    copy_pairs, pairs_view, ConnectId,
};
use crate::registry::{entry_of, reg_pos, views, without, PublisherRegistry, Registration, SubscriberRegistry};
use crate::session_cache::SessionCacheService;
use crate::session_slot_manager::{route, SessionSlotManager};
use crate::checksum::slot_for;
use crate::strings::{str_eq, strs};
use crate::wire::{pb_of_publisher, publisher_to_pb, PublisherPb};
use crate::clock::now_millis;

verus! {

/// The registry type of an unregistration of a publisher.
pub const PUBLISH: &'static str = "PUBLISH";

/// The registry type of an unregistration of a subscriber.
pub const SUBSCRIBE: &'static str = "SUBSCRIBE";

/// The scope name of a zone.
pub const SCOPE_ZONE: &'static str = "zone";

/// The scope name of the whole registry.
pub const SCOPE_GLOBAL: &'static str = "global";

/// What a client sends about one registration.
#[derive(Debug)]
pub struct BaseRegisterPb {
    pub data_info_id: String,
    pub data_id: String,
    pub instance_id: String,
    pub group: String,
    pub regist_id: String,
    pub client_id: String,
    pub ip: String,
    pub port: i32,
    pub version: i64,
    pub timestamp: i64,
    pub process_id: String,
    pub app_name: String,
    pub attributes: Vec<(String, String)>,
}

/// A client's publication request.
#[derive(Debug)]
pub struct PublisherRegisterPb {
    pub base: Option<BaseRegisterPb>,
}

/// A client's subscription request.
#[derive(Debug)]
pub struct SubscriberRegisterPb {
    pub base: Option<BaseRegisterPb>,
    pub scope: String,
    pub accept_encoding: String,
    pub accept_multi: bool,
}

/// The fields taken from a request's base: strings by their text, missing
/// base as empty strings and zeros.
pub struct BaseView {
    pub data_info_id: Seq<char>,
    pub data_id: Seq<char>,
    pub instance_id: Seq<char>,
    pub group: Seq<char>,
    pub regist_id: Seq<char>,
    pub client_id: Seq<char>,
    pub ip: Seq<char>,
    pub port: i32,
    pub version: i64,
    pub timestamp: i64,
    pub process_id: Seq<char>,
    pub app_name: Seq<char>,
    pub attributes: Seq<(Seq<char>, Seq<char>)>,
}

/// The view of an optional base.
pub open spec fn base_view(b: Option<BaseRegisterPb>) -> BaseView {
    match b {
        Some(b) => BaseView {
            data_info_id: b.data_info_id@,
            data_id: b.data_id@,
            instance_id: b.instance_id@,
            group: b.group@,
            regist_id: b.regist_id@,
            client_id: b.client_id@,
            ip: b.ip@,
            port: b.port,
            version: b.version,
            timestamp: b.timestamp,
            process_id: b.process_id@,
            app_name: b.app_name@,
            attributes: pairs_view(b.attributes@),
        },
        None => BaseView {
            data_info_id: Seq::empty(),
            data_id: Seq::empty(),
            instance_id: Seq::empty(),
            group: Seq::empty(),
            regist_id: Seq::empty(),
            client_id: Seq::empty(),
            ip: Seq::empty(),
            port: 0,
            version: 0,
            timestamp: 0,
            process_id: Seq::empty(),
            app_name: Seq::empty(),
            attributes: Seq::empty(),
        },
    }
}

/// The app name of a request: absent when there is no base or it is empty.
pub open spec fn app_name_of(b: Option<BaseRegisterPb>) -> Option<Seq<char>> {
    match b {
        Some(b) => if b.app_name@.len() == 0 {
            None
        } else {
            Some(b.app_name@)
        },
        None => None,
    }
}

/// The connection a request came over: the client's ip and port (cut to 16
/// bits) and this server's address with port 0.
pub open spec fn source_of(b: BaseView, server_address: Seq<char>) -> ConnectIdView {
    ConnectIdView {
        client_host_address: b.ip,
        client_port: b.port as u16,
        session_host_address: server_address,
        session_port: 0,
    }
}

/// The publisher a publication request registers, received at `now` by the
/// session server at `server_address`.
pub open spec fn publisher_of_request(pb: PublisherRegisterPb, server_address: Seq<char>, now: i64) -> PublisherView {
    let b = base_view(pb.base);
    PublisherView {
        data_info_id: b.data_info_id,
        data_id: b.data_id,
        instance_id: b.instance_id,
        group: b.group,
        regist_id: b.regist_id,
        client_id: b.client_id,
        cell: None,
        app_name: app_name_of(pb.base),
        process_id: ProcessIdView { host_address: b.process_id, timestamp: 0, sequence: 0 },
        version: RegisterVersion { version: b.version, timestamp: b.timestamp },
        source_address: source_of(b, server_address),
        session_process_id: ProcessIdView { host_address: server_address, timestamp: 0, sequence: 0 },
        data_list: Seq::empty(),
        publish_type: PublishType::Normal,
        publish_source: PublishSource::Client,
        attributes: b.attributes,
        register_timestamp: now,
    }
}

/// The scope a subscription names; any name but zone and global is the data
/// center.
pub open spec fn scope_of(name: Seq<char>) -> Scope {
    if name == SCOPE_ZONE@ {
        Scope::Zone
    } else if name == SCOPE_GLOBAL@ {
        Scope::Global
    } else {
        Scope::DataCenter
    }
}

/// The subscriber a subscription request registers, received at `now` by the
/// session server at `server_address`.
pub open spec fn subscriber_of_request(pb: SubscriberRegisterPb, server_address: Seq<char>, now: i64) -> SubscriberView {
    let b = base_view(pb.base);
    SubscriberView {
        data_info_id: b.data_info_id,
        data_id: b.data_id,
        instance_id: b.instance_id,
        group: b.group,
        regist_id: b.regist_id,
        client_id: b.client_id,
        scope: scope_of(pb.scope@),
        cell: None,
        app_name: app_name_of(pb.base),
        process_id: ProcessIdView { host_address: b.process_id, timestamp: 0, sequence: 0 },
        source_address: source_of(b, server_address),
        accept_encoding: if pb.accept_encoding@.len() == 0 {
            None
        } else {
            Some(pb.accept_encoding@)
        },
        accept_multi: pb.accept_multi,
        register_timestamp: now,
    }
}

/// Copies of the fields of an optional base, empty when missing.
fn base_fields(base: &Option<BaseRegisterPb>) -> (r: (
    String,
    String,
    String,
    String,
    String,
    String,
    String,
    i32,
    i64,
    i64,
    String,
    Vec<(String, String)>,
))
    ensures
        r.0@ == base_view(*base).data_info_id,
        r.1@ == base_view(*base).data_id,
        r.2@ == base_view(*base).instance_id,
        r.3@ == base_view(*base).group,
        r.4@ == base_view(*base).regist_id,
        r.5@ == base_view(*base).client_id,
        r.6@ == base_view(*base).ip,
        r.7 == base_view(*base).port,
        r.8 == base_view(*base).version,
        r.9 == base_view(*base).timestamp,
        r.10@ == base_view(*base).process_id,
        pairs_view(r.11@) == base_view(*base).attributes,
{
    match base {
        Some(b) => (
            b.data_info_id.clone(),
            b.data_id.clone(),
            b.instance_id.clone(),
            b.group.clone(),
            b.regist_id.clone(),
            b.client_id.clone(),
            b.ip.clone(),
            b.port,
            b.version,
            b.timestamp,
            b.process_id.clone(),
            copy_pairs(&b.attributes),
        ),
        None => {
            let e = String::new();
            let r = (
                String::new(),
                String::new(),
                String::new(),
                String::new(),
                String::new(),
                String::new(),
                String::new(),
                0i32,
                0i64,
                0i64,
                String::new(),
                Vec::new(),
            );
            assert(r.0@ =~= Seq::<char>::empty());
            assert(pairs_view(r.11@) =~= Seq::<(Seq<char>, Seq<char>)>::empty());
            r
        },
    }
}

fn app_name_from(base: &Option<BaseRegisterPb>) -> (r: Option<String>)
    ensures
        crate::model::opt_view(r) == app_name_of(*base),
{
    match base {
        Some(b) => if b.app_name.as_str().is_empty() {
            None
        } else {
            Some(b.app_name.clone())
        },
        None => None,
    }
}

/// The publisher a publication request registers, received at `now`.
pub fn publisher_from_register_at(pb: &PublisherRegisterPb, server_address: &str, now: i64) -> (p: Publisher)
    ensures
        p@ == publisher_of_request(*pb, server_address@, now),
{
    let (data_info_id, data_id, instance_id, group, regist_id, client_id, ip, port, version, timestamp, process_id, attributes) =
        base_fields(&pb.base);
    let p = Publisher {
        data_info_id,
        data_id,
        instance_id,
        group,
        regist_id,
        client_id,
        cell: None,
        app_name: app_name_from(&pb.base),
        process_id: ProcessId::new(process_id.as_str(), 0, 0),
        version: RegisterVersion::new(version, timestamp),
        source_address: ConnectId::new(ip.as_str(), port as u16, server_address, 0),
        session_process_id: ProcessId::new(server_address, 0, 0),
        data_list: Vec::new(),
        publish_type: PublishType::Normal,
        publish_source: PublishSource::Client,
        attributes,
        register_timestamp: now,
    };
    assert(p@.data_list =~= Seq::<Seq<u8>>::empty());
    p
}

/// The publisher a publication request registers, received now.
pub fn publisher_from_register(pb: &PublisherRegisterPb, server_address: &str) -> (p: Publisher)
    ensures
        exists|now: i64| p@ == #[trigger] publisher_of_request(*pb, server_address@, now),
{
    publisher_from_register_at(pb, server_address, now_millis())
}

fn scope_from(name: &str) -> (s: Scope)
    ensures
        s == scope_of(name@),
{
    if str_eq(name, SCOPE_ZONE) {
        Scope::Zone
    } else if str_eq(name, SCOPE_GLOBAL) {
        Scope::Global
    } else {
        Scope::DataCenter
    }
}

/// The subscriber a subscription request registers, received at `now`.
pub fn subscriber_from_register_at(pb: &SubscriberRegisterPb, server_address: &str, now: i64) -> (s: Subscriber)
    ensures
        s@ == subscriber_of_request(*pb, server_address@, now),
{
    let (data_info_id, data_id, instance_id, group, regist_id, client_id, ip, port, _version, _timestamp, process_id, _attributes) =
        base_fields(&pb.base);
    Subscriber {
        data_info_id,
        data_id,
        instance_id,
        group,
        regist_id,
        client_id,
        scope: scope_from(pb.scope.as_str()),
        cell: None,
        app_name: app_name_from(&pb.base),
        process_id: ProcessId::new(process_id.as_str(), 0, 0),
        source_address: ConnectId::new(ip.as_str(), port as u16, server_address, 0),
        accept_encoding: if pb.accept_encoding.as_str().is_empty() {
            None
        } else {
            Some(pb.accept_encoding.clone())
        },
        accept_multi: pb.accept_multi,
        register_timestamp: now,
    }
}

/// The subscriber a subscription request registers, received now.
pub fn subscriber_from_register(pb: &SubscriberRegisterPb, server_address: &str) -> (s: Subscriber)
    ensures
        exists|now: i64| s@ == #[trigger] subscriber_of_request(*pb, server_address@, now),
{
    subscriber_from_register_at(pb, server_address, now_millis())
}

/// A write to forward to the data server leading the data's slot.
#[derive(Debug)]
pub enum WriteRequest {
    Publish { publisher: Publisher },
    Unpublish { data_info_id: String, regist_id: String },
}

/// A publication forwarded to a data server.
#[derive(Debug)]
pub struct PublishDataRequest {
    pub data_center: String,
    pub slot_id: u32,
    pub slot_table_epoch: i64,
    pub slot_leader_epoch: i64,
    pub publishers: Vec<PublisherPb>,
}

/// A withdrawal forwarded to a data server.
#[derive(Debug)]
pub struct UnPublishDataRequest {
    pub data_center: String,
    pub slot_id: u32,
    pub slot_table_epoch: i64,
    pub slot_leader_epoch: i64,
    pub regist_ids: Vec<String>,
    pub data_info_id: String,
    pub session_process_id: String,
}

/// Builds the requests that forward a session server's writes.
pub struct WriteForwarder {
    data_center: String,
    session_process_id: String,
}

impl WriteForwarder {
    /// The data center writes go to.
    pub closed spec fn center(&self) -> Seq<char> {
        self.data_center@
    }

    /// The process id of this session server.
    pub closed spec fn session_pid(&self) -> Seq<char> {
        self.session_process_id@
    }

    /// A forwarder for writes to `data_center` from the session server
    /// `session_process_id`.
    pub fn new(data_center: String, session_process_id: String) -> (w: WriteForwarder)
        ensures
            w.center() == data_center@,
            w.session_pid() == session_process_id@,
    {
        WriteForwarder { data_center, session_process_id }
    }

    /// Where and what to send for a publication: to the leader of the slot
    /// of its data id, the publisher in its wire form. `None`, and the write
    /// is dropped, when that slot's leader is unknown.
    pub fn forward_publish(&self, slots: &SessionSlotManager, publisher: &Publisher) -> (r: Option<(String, PublishDataRequest)>)
        requires
            slots.slot_count() > 0,
        ensures
            match route(slots.table().slots, slot_for(publisher@.data_info_id, slots.slot_count())) {
                Some((slot, leader)) => r matches Some((to, req)) && to@ == leader && req.data_center@
                    == self.center() && req.slot_id == slot && req.slot_table_epoch == slots.table().epoch
                    && req.slot_leader_epoch == 0 && req.publishers@.len() == 1
                    && req.publishers@[0]@ == pb_of_publisher(publisher@),
                None => r is None,
            },
    {
        match slots.get_leader_for_data(publisher.data_info_id.as_str()) {
            Some((slot_id, leader)) => {
                let mut publishers: Vec<PublisherPb> = Vec::new();
                publishers.push(publisher_to_pb(publisher));
                let req = PublishDataRequest {
                    data_center: self.data_center.clone(),
                    slot_id,
                    slot_table_epoch: slots.get_epoch(),
                    slot_leader_epoch: 0,
                    publishers,
                };
                Some((leader, req))
            },
            None => None,
        }
    }

    /// Where and what to send for a withdrawal of `regist_id` under
    /// `data_info_id`: to the leader of the data id's slot. `None` when that
    /// slot's leader is unknown.
    pub fn forward_unpublish(&self, slots: &SessionSlotManager, data_info_id: &str, regist_id: &str) -> (r: Option<
        (String, UnPublishDataRequest),
    >)
        requires
            slots.slot_count() > 0,
        ensures
            match route(slots.table().slots, slot_for(data_info_id@, slots.slot_count())) {
                Some((slot, leader)) => r matches Some((to, req)) && to@ == leader && req.data_center@
                    == self.center() && req.slot_id == slot && req.slot_table_epoch == slots.table().epoch
                    && req.slot_leader_epoch == 0 && strs(req.regist_ids@) == seq![regist_id@]
                    && req.data_info_id@ == data_info_id@ && req.session_process_id@ == self.session_pid(),
                None => r is None,
            },
    {
        match slots.get_leader_for_data(data_info_id) {
            Some((slot_id, leader)) => {
                let mut regist_ids: Vec<String> = Vec::new();
                regist_ids.push(regist_id.to_string());
                assert(strs(regist_ids@) =~= seq![regist_id@]);
                let req = UnPublishDataRequest {
                    data_center: self.data_center.clone(),
                    slot_id,
                    slot_table_epoch: slots.get_epoch(),
                    slot_leader_epoch: 0,
                    regist_ids,
                    data_info_id: data_info_id.to_string(),
                    session_process_id: self.session_process_id.clone(),
                };
                Some((leader, req))
            },
            None => None,
        }
    }
}

/// The answer to a registration or unregistration.
#[derive(Debug)]
pub struct RegisterResponse {
    pub success: bool,
    pub regist_id: String,
    pub version: i64,
    pub refused: bool,
    pub message: String,
}

fn accepted(regist_id: String, now: i64) -> (r: RegisterResponse)
    ensures
        r.success && !r.refused && r.regist_id@ == regist_id@ && r.version == now && r.message@.len() == 0,
{
    RegisterResponse { success: true, regist_id, version: now, refused: false, message: String::new() }
}

/// Registers the publisher a request names, received at `now`: its client's
/// connection is recorded, the publisher registered, and the write to
/// forward returned with the answer.
pub fn register_publisher_at(
    conns: &mut ConnectionService,
    registry: &mut PublisherRegistry,
    pb: &PublisherRegisterPb,
    server_address: &str,
    now: i64,
) -> (r: (RegisterResponse, WriteRequest))
    ensures
        ({
            let p = publisher_of_request(*pb, server_address@, now);
            &&& final(conns).connections() == kput(
                old(conns).connections(),
                p.client_id,
                new_connection(p.client_id, connect_id_text(p.source_address), now),
            )
            &&& final(registry).conn_index() == crate::registry::conn_after_register::<Publisher>(
                old(registry).conn_index(),
                p,
            )
            &&& final(registry).data_index() == crate::registry::data_after_register::<Publisher>(
                old(registry).data_index(),
                p,
            )
            &&& r.1 matches WriteRequest::Publish { publisher } && publisher@ == p
            &&& r.0.success && !r.0.refused && r.0.regist_id@ == p.regist_id && r.0.version == now
            &&& r.0.message@.len() == 0
        }),
{
    let publisher = publisher_from_register_at(pb, server_address, now);
    let regist_id = publisher.regist_id.clone();
    conns.connect_at(publisher.client_id.clone(), publisher.source_address.to_string(), now);
    let write = WriteRequest::Publish { publisher: publisher.copy() };
    registry.register(publisher);
    (accepted(regist_id, now), write)
}

/// Registers the subscriber a request names, received at `now`: its
/// client's connection is recorded and the subscriber registered.
pub fn register_subscriber_at(
    conns: &mut ConnectionService,
    registry: &mut SubscriberRegistry,
    pb: &SubscriberRegisterPb,
    server_address: &str,
    now: i64,
) -> (r: RegisterResponse)
    ensures
        ({
            let s = subscriber_of_request(*pb, server_address@, now);
            &&& final(conns).connections() == kput(
                old(conns).connections(),
                s.client_id,
                new_connection(s.client_id, connect_id_text(s.source_address), now),
            )
            &&& final(registry).conn_index() == crate::registry::conn_after_register::<Subscriber>(
                old(registry).conn_index(),
                s,
            )
            &&& final(registry).data_index() == crate::registry::data_after_register::<Subscriber>(
                old(registry).data_index(),
                s,
            )
            &&& r.success && !r.refused && r.regist_id@ == s.regist_id && r.version == now
            &&& r.message@.len() == 0
        }),
{
    let subscriber = subscriber_from_register_at(pb, server_address, now);
    let regist_id = subscriber.regist_id.clone();
    conns.connect_at(subscriber.client_id.clone(), subscriber.source_address.to_string(), now);
    registry.register(subscriber);
    accepted(regist_id, now)
}

/// A client's request to withdraw a registration.
#[derive(Debug)]
pub struct UnregisterRequest {
    pub registry_type: String,
    pub base: Option<BaseRegisterPb>,
}

/// Why a request was refused.
#[derive(Debug, PartialEq, Eq)]
pub enum RpcError {
    InvalidArgument(String),
}

/// The message refusing an unregistration without a base.
pub open spec fn missing_base_message() -> Seq<char> {
    "Missing base register info"@
}

/// The message refusing an unregistration of an unknown type.
pub open spec fn unknown_type_message(t: Seq<char>) -> Seq<char> {
    "Unknown registry type: "@ + t
}

/// Withdraws the registration a request names, at `now`. A publisher's
/// withdrawal returns the write to forward when it was registered.
pub fn unregister_at(
    pubs: &mut PublisherRegistry,
    subs: &mut SubscriberRegistry,
    req: &UnregisterRequest,
    now: i64,
) -> (r: Result<(RegisterResponse, Option<WriteRequest>), RpcError>)
    ensures
        match req.base {
            None => {
                &&& r matches Err(RpcError::InvalidArgument(m)) && m@ == missing_base_message()
                &&& final(pubs).data_index() == old(pubs).data_index()
                &&& final(pubs).conn_index() == old(pubs).conn_index()
                &&& final(subs).data_index() == old(subs).data_index()
                &&& final(subs).conn_index() == old(subs).conn_index()
            },
            Some(b) => if req.registry_type@ == PUBLISH@ {
                let l = entry_of(old(pubs).data_index(), b.data_info_id@);
                let p = reg_pos::<Publisher>(l, b.regist_id@);
                &&& r matches Ok((resp, w)) && resp.success && resp.regist_id@ == b.regist_id@
                    && resp.version == now && (p >= 0 <==> w is Some) && (w matches Some(
                    WriteRequest::Unpublish { data_info_id, regist_id },
                ) ==> data_info_id@ == l[p].data_info_id && regist_id@ == l[p].regist_id)
                &&& p < 0 ==> final(pubs).data_index() == old(pubs).data_index() && final(pubs).conn_index()
                    == old(pubs).conn_index()
                &&& p >= 0 ==> final(pubs).data_index() == crate::registry::set_entry(
                    old(pubs).data_index(),
                    b.data_info_id@,
                    l.remove(p),
                ) && final(pubs).conn_index() == crate::registry::set_entry(
                    old(pubs).conn_index(),
                    <Publisher as Registration>::conn_key(l[p]),
                    without::<Publisher>(
                        entry_of(old(pubs).conn_index(), <Publisher as Registration>::conn_key(l[p])),
                        b.regist_id@,
                    ),
                )
                &&& final(subs).data_index() == old(subs).data_index()
                &&& final(subs).conn_index() == old(subs).conn_index()
            } else if req.registry_type@ == SUBSCRIBE@ {
                let l = entry_of(old(subs).data_index(), b.data_info_id@);
                let p = reg_pos::<Subscriber>(l, b.regist_id@);
                &&& r matches Ok((resp, w)) && resp.success && resp.regist_id@ == b.regist_id@
                    && resp.version == now && w is None
                &&& p < 0 ==> final(subs).data_index() == old(subs).data_index() && final(subs).conn_index()
                    == old(subs).conn_index()
                &&& p >= 0 ==> final(subs).data_index() == crate::registry::set_entry(
                    old(subs).data_index(),
                    b.data_info_id@,
                    l.remove(p),
                ) && final(subs).conn_index() == crate::registry::set_entry(
                    old(subs).conn_index(),
                    <Subscriber as Registration>::conn_key(l[p]),
                    without::<Subscriber>(
                        entry_of(old(subs).conn_index(), <Subscriber as Registration>::conn_key(l[p])),
                        b.regist_id@,
                    ),
                )
                &&& final(pubs).data_index() == old(pubs).data_index()
                &&& final(pubs).conn_index() == old(pubs).conn_index()
            } else {
                &&& r matches Err(RpcError::InvalidArgument(m)) && m@ == unknown_type_message(
                    req.registry_type@,
                )
                &&& final(pubs).data_index() == old(pubs).data_index()
                &&& final(pubs).conn_index() == old(pubs).conn_index()
                &&& final(subs).data_index() == old(subs).data_index()
                &&& final(subs).conn_index() == old(subs).conn_index()
            },
        },
{
    match &req.base {
        None => {
            let m = String::from_str("Missing base register info");
            proof {
                reveal_strlit("Missing base register info");
            }
            Err(RpcError::InvalidArgument(m))
        },
        Some(b) => {
            if str_eq(req.registry_type.as_str(), PUBLISH) {
                let removed = pubs.unregister(b.data_info_id.as_str(), b.regist_id.as_str());
                let w = match removed {
                    Some(p) => Some(WriteRequest::Unpublish { data_info_id: p.data_info_id, regist_id: p.regist_id }),
                    None => None,
                };
                Ok((accepted(b.regist_id.clone(), now), w))
            } else if str_eq(req.registry_type.as_str(), SUBSCRIBE) {
                let _ = subs.unregister(b.data_info_id.as_str(), b.regist_id.as_str());
                Ok((accepted(b.regist_id.clone(), now), None))
            } else {
                let mut m = String::from_str("Unknown registry type: ");
                m.append(req.registry_type.as_str());
                Err(RpcError::InvalidArgument(m))
            }
        },
    }
}

/// The answer to a client heartbeat.
#[derive(Debug)]
pub struct ClientHeartbeatResponse {
    pub success: bool,
    pub server_timestamp: i64,
}

/// Takes in a client's heartbeat at `now`: a connected client's heartbeat
/// time is refreshed, an unknown client is recorded with an empty address.
pub fn client_heartbeat_at(conns: &mut ConnectionService, client_id: &str, now: i64) -> (r: ClientHeartbeatResponse)
    ensures
        r.success && r.server_timestamp == now,
        match kget(old(conns).connections(), client_id@) {
            Some(c) => final(conns).connections() == kput(
                old(conns).connections(),
                client_id@,
                crate::connection_service::ConnectionView { last_heartbeat: now, ..c },
            ),
            None => final(conns).connections() == kput(
                old(conns).connections(),
                client_id@,
                new_connection(client_id@, Seq::empty(), now),
            ),
        },
{
    if conns.is_connected(client_id) {
        conns.touch_heartbeat_at(client_id, now);
    } else {
        let e = String::new();
        conns.connect_at(client_id.to_string(), e, now);
        assert(new_connection(client_id@, e@, now) == new_connection(client_id@, Seq::<char>::empty(), now)) by {
            assert(e@ =~= Seq::<char>::empty());
        }
    }
    ClientHeartbeatResponse { success: true, server_timestamp: now }
}

/// Data to push to the clients subscribed to a data id.
#[derive(Debug)]
pub struct PushPlan {
    pub data_info_id: String,
    pub client_ids: Vec<String>,
}

/// The client ids of a list of subscribers, in order.
pub open spec fn client_ids_of(s: Seq<SubscriberView>) -> Seq<Seq<char>> {
    s.map_values(|v: SubscriberView| v.client_id)
}

/// Takes in a data server's notice that `data_info_id` changed to
/// `version`: when that is newer than the cached version (or none is
/// cached), the cache takes it, and the subscribers of the data id, if any,
/// are to get a push.
pub fn on_data_change(
    cache: &mut SessionCacheService,
    subs: &SubscriberRegistry,
    data_info_id: &str,
    version: i64,
) -> (plan: Option<PushPlan>)
    ensures
        ({
            let stale = match kget(old(cache).versions(), data_info_id@) {
                Some(c) => version > c.value,
                None => true,
            };
            let l = entry_of(subs.data_index(), data_info_id@);
            &&& !stale ==> final(cache).versions() == old(cache).versions() && plan is None
            &&& stale ==> final(cache).versions() == kput(
                old(cache).versions(),
                data_info_id@,
                DatumVersion { value: version },
            )
            &&& stale && l.len() == 0 ==> plan is None
            &&& stale && l.len() > 0 ==> (plan matches Some(p) && p.data_info_id@ == data_info_id@ && strs(
                p.client_ids@,
            ) == client_ids_of(l))
        }),
{
    let remote = DatumVersion { value: version };
    if !cache.is_stale(data_info_id, &remote) {
        return None;
    }
    cache.update_version(data_info_id, remote);
    let subscribers = subs.get_by_data_info_id(data_info_id);
    if subscribers.len() == 0 {
        return None;
    }
    let ghost l = views(subscribers@);
    let mut ids: Vec<String> = Vec::new();
    let mut i: usize = 0;
    while i < subscribers.len()
        invariant
            i <= subscribers.len(),
            l == views(subscribers@),
            strs(ids@) == client_ids_of(l).take(i as int),
        decreases subscribers.len() - i,
    {
        let ghost before = strs(ids@);
        ids.push(subscribers[i].client_id.clone());
        assert(strs(ids@) =~= before.push(l[i as int].client_id));
        assert(client_ids_of(l).take(i + 1) =~= client_ids_of(l).take(i as int).push(l[i as int].client_id));
        i = i + 1;
    }
    assert(client_ids_of(l).take(subscribers.len() as int) =~= client_ids_of(l));
    Some(PushPlan { data_info_id: data_info_id.to_string(), client_ids: ids })
}

} // verus!
