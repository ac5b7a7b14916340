//! The registration model: connections, process ids, versions, publishers
//! and subscribers.
use vstd::prelude::*;
use crate::clock::now_millis;
use crate::text::{format_host_port, host_port, push_char, push_signed_decimal, signed_decimal};

verus! {

/// A client connection to a session server: the client's and the server's
/// host and port.
#[derive(Debug)]
pub struct ConnectId {
    pub client_host_address: String,
    pub client_port: u16,
    pub session_host_address: String,
    pub session_port: u16,
}

/// The model of a connection id.
pub struct ConnectIdView {
    pub client_host_address: Seq<char>,
    pub client_port: u16,
    pub session_host_address: Seq<char>,
    pub session_port: u16,
}

impl View for ConnectId {
    type V = ConnectIdView;

    open spec fn view(&self) -> ConnectIdView {
        ConnectIdView {
            client_host_address: self.client_host_address@,
            client_port: self.client_port,
            session_host_address: self.session_host_address@,
            session_port: self.session_port,
        }
    }
}

/// The text of a connection id: `clientHost:clientPort-serverHost:serverPort`.
pub open spec fn connect_id_text(c: ConnectIdView) -> Seq<char> {
    host_port(c.client_host_address, c.client_port as nat) + seq!['-'] + host_port(
        c.session_host_address,
        c.session_port as nat,
    )
}

impl ConnectId {
    /// A connection id from its parts.
    pub fn new(client_host: &str, client_port: u16, session_host: &str, session_port: u16) -> (c: ConnectId)
        ensures
            c@ == (ConnectIdView {
                client_host_address: client_host@,
                client_port,
                session_host_address: session_host@,
                session_port,
            }),
    {
        ConnectId {
            client_host_address: client_host.to_string(),
            client_port,
            session_host_address: session_host.to_string(),
            session_port,
        }
    }

    /// `clientHost:clientPort-serverHost:serverPort`.
    pub fn to_string(&self) -> (s: String)
        ensures
            s@ == connect_id_text(self@),
    {
        let mut s = format_host_port(self.client_host_address.as_str(), self.client_port);
        push_char(&mut s, '-');
        let server = format_host_port(self.session_host_address.as_str(), self.session_port);
        s.append(server.as_str());
        assert(s@ =~= connect_id_text(self@));
        s
    }

    /// A copy of this connection id.
    pub fn copy(&self) -> (c: ConnectId)
        ensures
            c@ == self@,
    {
        ConnectId {
            client_host_address: self.client_host_address.clone(),
            client_port: self.client_port,
            session_host_address: self.session_host_address.clone(),
            session_port: self.session_port,
        }
    }
}

/// A client process: host, start time and sequence number.
#[derive(Debug)]
pub struct ProcessId {
    pub host_address: String,
    pub timestamp: i64,
    pub sequence: i32,
}

/// The model of a process id.
pub struct ProcessIdView {
    pub host_address: Seq<char>,
    pub timestamp: i64,
    pub sequence: i32,
}

impl View for ProcessId {
    type V = ProcessIdView;

    open spec fn view(&self) -> ProcessIdView {
        ProcessIdView { host_address: self.host_address@, timestamp: self.timestamp, sequence: self.sequence }
    }
}

/// The text of a process id: `host-timestamp-sequence`.
pub open spec fn process_id_text(p: ProcessIdView) -> Seq<char> {
    p.host_address + seq!['-'] + signed_decimal(p.timestamp as int) + seq!['-'] + signed_decimal(
        p.sequence as int,
    )
}

impl ProcessId {
    /// A process id from its parts.
    pub fn new(host: &str, timestamp: i64, sequence: i32) -> (p: ProcessId)
        ensures
            p@ == (ProcessIdView { host_address: host@, timestamp, sequence }),
    {
        ProcessId { host_address: host.to_string(), timestamp, sequence }
    }

    /// `host-timestamp-sequence`.
    pub fn to_string(&self) -> (s: String)
        ensures
            s@ == process_id_text(self@),
    {
        let mut s = self.host_address.clone();
        push_char(&mut s, '-');
        push_signed_decimal(&mut s, self.timestamp);
        push_char(&mut s, '-');
        push_signed_decimal(&mut s, self.sequence as i64);
        assert(s@ =~= process_id_text(self@));
        s
    }

    /// A copy of this process id.
    pub fn copy(&self) -> (p: ProcessId)
        ensures
            p@ == self@,
    {
        ProcessId { host_address: self.host_address.clone(), timestamp: self.timestamp, sequence: self.sequence }
    }
}

/// The version of a registration and when it was made.
#[derive(Clone, Copy, Debug, PartialEq, Eq, Structural)]
pub struct RegisterVersion {
    pub version: i64,
    pub timestamp: i64,
}

impl RegisterVersion {
    /// A version with its timestamp.
    pub fn new(version: i64, timestamp: i64) -> (v: RegisterVersion)
        ensures
            v == (RegisterVersion { version, timestamp }),
    {
        RegisterVersion { version, timestamp }
    }

    /// A version stamped now.
    pub fn of(version: i64) -> (v: RegisterVersion)
        ensures
            v.version == version,
    {
        RegisterVersion { version, timestamp: now_millis() }
    }
}

/// The version of a datum as a data server holds it.
#[derive(Clone, Copy, Debug, PartialEq, Eq, Structural)]
pub struct DatumVersion {
    pub value: i64,
}

impl View for DatumVersion {
    type V = DatumVersion;

    open spec fn view(&self) -> DatumVersion {
        *self
    }
}

/// Whether a publication outlives its client.
#[derive(Clone, Copy, Debug, PartialEq, Eq, Structural)]
pub enum PublishType {
    Normal,
    Temporary,
}

/// Who made a publication.
#[derive(Clone, Copy, Debug, PartialEq, Eq, Structural)]
pub enum PublishSource {
    Client,
    SessionSync,
}

/// How far a subscription reaches.
#[derive(Clone, Copy, Debug, PartialEq, Eq, Structural)]
pub enum Scope {
    Zone,
    DataCenter,
    Global,
}

/// One published data item, as bytes.
#[derive(Debug)]
pub struct ServerDataBox {
    pub data: Vec<u8>,
}

/// A copy of a byte string.
pub fn copy_bytes(v: &Vec<u8>) -> (r: Vec<u8>)
    ensures
        r@ == v@,
{
    let mut r: Vec<u8> = Vec::new();
    let mut i: usize = 0;
    while i < v.len()
        invariant
            i <= v.len(),
            r@ == v@.take(i as int),
        decreases v.len() - i,
    {
        r.push(v[i]);
        assert(r@ =~= v@.take(i + 1));
        i = i + 1;
    }
    assert(v@.take(v.len() as int) =~= v@);
    r
}

/// A copy of an optional string.
pub fn copy_opt(o: &Option<String>) -> (r: Option<String>)
    ensures
        opt_view(r) == opt_view(*o),
{
    match o {
        Some(s) => Some(s.clone()),
        None => None,
    }
}

/// The model of an optional string.
pub open spec fn opt_view(o: Option<String>) -> Option<Seq<char>> {
    match o {
        Some(s) => Some(s@),
        None => None,
    }
}

/// The models of published data items.
pub open spec fn boxes_view(v: Seq<ServerDataBox>) -> Seq<Seq<u8>> {
    v.map_values(|b: ServerDataBox| b.data@)
}

/// The models of attribute pairs.
pub open spec fn pairs_view(v: Seq<(String, String)>) -> Seq<(Seq<char>, Seq<char>)> {
    v.map_values(|p: (String, String)| (p.0@, p.1@))
}

/// A copy of a list of data items.
pub fn copy_boxes(v: &Vec<ServerDataBox>) -> (r: Vec<ServerDataBox>)
    ensures
        boxes_view(r@) == boxes_view(v@),
{
    let mut r: Vec<ServerDataBox> = Vec::new();
    let mut i: usize = 0;
    while i < v.len()
        invariant
            i <= v.len(),
            boxes_view(r@) == boxes_view(v@).take(i as int),
        decreases v.len() - i,
    {
        let ghost before = boxes_view(r@);
        let b = ServerDataBox { data: copy_bytes(&v[i].data) };
        r.push(b);
        assert(boxes_view(r@) =~= before.push(v@[i as int].data@));
        assert(boxes_view(r@) =~= boxes_view(v@).take(i + 1));
        i = i + 1;
    }
    assert(boxes_view(v@).take(v.len() as int) =~= boxes_view(v@));
    r
}

/// A copy of a list of attribute pairs.
pub fn copy_pairs(v: &Vec<(String, String)>) -> (r: Vec<(String, String)>)
    ensures
        pairs_view(r@) == pairs_view(v@),
{
    let mut r: Vec<(String, String)> = Vec::new();
    let mut i: usize = 0;
    while i < v.len()
        invariant
            i <= v.len(),
            pairs_view(r@) == pairs_view(v@).take(i as int),
        decreases v.len() - i,
    {
        let ghost before = pairs_view(r@);
        let p = (v[i].0.clone(), v[i].1.clone());
        r.push(p);
        assert(pairs_view(r@) =~= before.push((v@[i as int].0@, v@[i as int].1@)));
        assert(pairs_view(r@) =~= pairs_view(v@).take(i + 1));
        i = i + 1;
    }
    assert(pairs_view(v@).take(v.len() as int) =~= pairs_view(v@));
    r
}

/// A publication of data under a data id by a client.
#[derive(Debug)]
pub struct Publisher {
    pub data_info_id: String,
    pub data_id: String,
    pub instance_id: String,
    pub group: String,
    pub regist_id: String,
    pub client_id: String,
    pub cell: Option<String>,
    pub app_name: Option<String>,
    pub process_id: ProcessId,
    pub version: RegisterVersion,
    pub source_address: ConnectId,
    pub session_process_id: ProcessId,
    pub data_list: Vec<ServerDataBox>,
    pub publish_type: PublishType,
    pub publish_source: PublishSource,
    pub attributes: Vec<(String, String)>,
    pub register_timestamp: i64,
}

/// The model of a publisher.
pub struct PublisherView {
    pub data_info_id: Seq<char>,
    pub data_id: Seq<char>,
    pub instance_id: Seq<char>,
    pub group: Seq<char>,
    pub regist_id: Seq<char>,
    pub client_id: Seq<char>,
    pub cell: Option<Seq<char>>,
    pub app_name: Option<Seq<char>>,
    pub process_id: ProcessIdView,
    pub version: RegisterVersion,
    pub source_address: ConnectIdView,
    pub session_process_id: ProcessIdView,
    pub data_list: Seq<Seq<u8>>,
    pub publish_type: PublishType,
    pub publish_source: PublishSource,
    pub attributes: Seq<(Seq<char>, Seq<char>)>,
    pub register_timestamp: i64,
}

impl View for Publisher {
    type V = PublisherView;

    open spec fn view(&self) -> PublisherView {
        PublisherView {
            data_info_id: self.data_info_id@,
            data_id: self.data_id@,
            instance_id: self.instance_id@,
            group: self.group@,
            regist_id: self.regist_id@,
            client_id: self.client_id@,
            cell: opt_view(self.cell),
            app_name: opt_view(self.app_name),
            process_id: self.process_id@,
            version: self.version,
            source_address: self.source_address@,
            session_process_id: self.session_process_id@,
            data_list: boxes_view(self.data_list@),
            publish_type: self.publish_type,
            publish_source: self.publish_source,
            attributes: pairs_view(self.attributes@),
            register_timestamp: self.register_timestamp,
        }
    }
}

impl Publisher {
    /// A copy of this publisher.
    pub fn copy(&self) -> (p: Publisher)
        ensures
            p@ == self@,
    {
        Publisher {
            data_info_id: self.data_info_id.clone(),
            data_id: self.data_id.clone(),
            instance_id: self.instance_id.clone(),
            group: self.group.clone(),
            regist_id: self.regist_id.clone(),
            client_id: self.client_id.clone(),
            cell: copy_opt(&self.cell),
            app_name: copy_opt(&self.app_name),
            process_id: self.process_id.copy(),
            version: self.version,
            source_address: self.source_address.copy(),
            session_process_id: self.session_process_id.copy(),
            data_list: copy_boxes(&self.data_list),
            publish_type: self.publish_type,
            publish_source: self.publish_source,
            attributes: copy_pairs(&self.attributes),
            register_timestamp: self.register_timestamp,
        }
    }
}

/// A subscription of a client to a data id.
#[derive(Debug)]
pub struct Subscriber {
    pub data_info_id: String,
    pub data_id: String,
    pub instance_id: String,
    pub group: String,
    pub regist_id: String,
    pub client_id: String,
    pub scope: Scope,
    pub cell: Option<String>,
    pub app_name: Option<String>,
    pub process_id: ProcessId,
    pub source_address: ConnectId,
    pub accept_encoding: Option<String>,
    pub accept_multi: bool,
    pub register_timestamp: i64,
}

/// The model of a subscriber.
pub struct SubscriberView {
    pub data_info_id: Seq<char>,
    pub data_id: Seq<char>,
    pub instance_id: Seq<char>,
    pub group: Seq<char>,
    pub regist_id: Seq<char>,
    pub client_id: Seq<char>,
    pub scope: Scope,
    pub cell: Option<Seq<char>>,
    pub app_name: Option<Seq<char>>,
    pub process_id: ProcessIdView,
    pub source_address: ConnectIdView,
    pub accept_encoding: Option<Seq<char>>,
    pub accept_multi: bool,
    pub register_timestamp: i64,
}

impl View for Subscriber {
    type V = SubscriberView;

    open spec fn view(&self) -> SubscriberView {
        SubscriberView {
            data_info_id: self.data_info_id@,
            data_id: self.data_id@,
            instance_id: self.instance_id@,
            group: self.group@,
            regist_id: self.regist_id@,
            client_id: self.client_id@,
            scope: self.scope,
            cell: opt_view(self.cell),
            app_name: opt_view(self.app_name),
            process_id: self.process_id@,
            source_address: self.source_address@,
            accept_encoding: opt_view(self.accept_encoding),
            accept_multi: self.accept_multi,
            register_timestamp: self.register_timestamp,
        }
    }
}

impl Subscriber {
    /// A copy of this subscriber.
    pub fn copy(&self) -> (s: Subscriber)
        ensures
            s@ == self@,
    {
        Subscriber {
            data_info_id: self.data_info_id.clone(),
            data_id: self.data_id.clone(),
            instance_id: self.instance_id.clone(),
            group: self.group.clone(),
            regist_id: self.regist_id.clone(),
            client_id: self.client_id.clone(),
            scope: self.scope,
            cell: copy_opt(&self.cell),
            app_name: copy_opt(&self.app_name),
            process_id: self.process_id.copy(),
            source_address: self.source_address.copy(),
            accept_encoding: copy_opt(&self.accept_encoding),
            accept_multi: self.accept_multi,
            register_timestamp: self.register_timestamp,
        }
    }
}

impl Clone for ConnectId {
    fn clone(&self) -> (c: Self)
        ensures
            c@ == self@,
    {
        self.copy()
    }
}

impl Clone for ProcessId {
    fn clone(&self) -> (p: Self)
        ensures
            p@ == self@,
    {
        self.copy()
    }
}

impl Clone for Publisher {
    fn clone(&self) -> (p: Self)
        ensures
            p@ == self@,
    {
        self.copy()
    }
}

impl Clone for Subscriber {
    fn clone(&self) -> (s: Self)
        ensures
            s@ == self@,
    {
        self.copy()
    }
}

} // verus!
