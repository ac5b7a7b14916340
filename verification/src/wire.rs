//! The wire forms of registrations exchanged between session and data
//! servers, and the conversions between them and the registration model.
use vstd::prelude::*;
use crate::model::{
    boxes_view, connect_id_text, copy_bytes, copy_pairs, opt_view, pairs_view, process_id_text,
    PublishSource, PublishType, Publisher, PublisherView, RegisterVersion, ServerDataBox,
};
use crate::parse::{
    connect_id_of, lemma_connect_id_round_trip, lemma_process_id_round_trip, parse_connect_id,
    parse_process_id, process_id_of,
};
use crate::strings::str_eq;

verus! {

/// A publisher as sent to a data server.
#[derive(Debug)]
pub struct PublisherPb {
    pub data_info_id: String,
    pub data_id: String,
    pub instance_id: String,
    pub group: String,
    pub regist_id: String,
    pub client_id: String,
    pub cell: String,
    pub app_name: String,
    pub process_id: String,
    pub version: i64,
    pub version_timestamp: i64,
    pub source_address: String,
    pub session_process_id: String,
    pub data_list: Vec<Vec<u8>>,
    pub publish_type: String,
    pub publish_source: String,
    pub attributes: Vec<(String, String)>,
    pub register_timestamp: i64,
}

/// The model of a wire publisher.
pub struct PublisherPbView {
    pub data_info_id: Seq<char>,
    pub data_id: Seq<char>,
    pub instance_id: Seq<char>,
    pub group: Seq<char>,
    pub regist_id: Seq<char>,
    pub client_id: Seq<char>,
    pub cell: Seq<char>,
    pub app_name: Seq<char>,
    pub process_id: Seq<char>,
    pub version: i64,
    pub version_timestamp: i64,
    pub source_address: Seq<char>,
    pub session_process_id: Seq<char>,
    pub data_list: Seq<Seq<u8>>,
    pub publish_type: Seq<char>,
    pub publish_source: Seq<char>,
    pub attributes: Seq<(Seq<char>, Seq<char>)>,
    pub register_timestamp: i64,
}

/// The models of byte strings.
pub open spec fn bytes_view(v: Seq<Vec<u8>>) -> Seq<Seq<u8>> {
    v.map_values(|b: Vec<u8>| b@)
}

impl View for PublisherPb {
    type V = PublisherPbView;

    open spec fn view(&self) -> PublisherPbView {
        PublisherPbView {
            data_info_id: self.data_info_id@,
            data_id: self.data_id@,
            instance_id: self.instance_id@,
            group: self.group@,
            regist_id: self.regist_id@,
            client_id: self.client_id@,
            cell: self.cell@,
            app_name: self.app_name@,
            process_id: self.process_id@,
            version: self.version,
            version_timestamp: self.version_timestamp,
            source_address: self.source_address@,
            session_process_id: self.session_process_id@,
            data_list: bytes_view(self.data_list@),
            publish_type: self.publish_type@,
            publish_source: self.publish_source@,
            attributes: pairs_view(self.attributes@),
            register_timestamp: self.register_timestamp,
        }
    }
}

/// An optional text as the wire carries it: empty when absent.
pub open spec fn or_empty(o: Option<Seq<char>>) -> Seq<char> {
    match o {
        Some(s) => s,
        None => Seq::empty(),
    }
}

/// A text from the wire as an option: absent when empty.
pub open spec fn non_empty(s: Seq<char>) -> Option<Seq<char>> {
    if s.len() == 0 {
        None
    } else {
        Some(s)
    }
}

/// The wire name of a publish type.
pub open spec fn publish_type_name(t: PublishType) -> Seq<char> {
    match t {
        PublishType::Temporary => seq!['T', 'E', 'M', 'P', 'O', 'R', 'A', 'R', 'Y'],
        PublishType::Normal => seq!['N', 'O', 'R', 'M', 'A', 'L'],
    }
}

/// The wire name of a publish source.
pub open spec fn publish_source_name(s: PublishSource) -> Seq<char> {
    match s {
        PublishSource::SessionSync => seq!['S', 'E', 'S', 'S', 'I', 'O', 'N', '_', 'S', 'Y', 'N', 'C'],
        PublishSource::Client => seq!['C', 'L', 'I', 'E', 'N', 'T'],
    }
}

/// The publish type a wire name denotes; any other name is normal.
pub open spec fn publish_type_of(s: Seq<char>) -> PublishType {
    if s == publish_type_name(PublishType::Temporary) {
        PublishType::Temporary
    } else {
        PublishType::Normal
    }
}

/// The publish source a wire name denotes; any other name is a client.
pub open spec fn publish_source_of(s: Seq<char>) -> PublishSource {
    if s == publish_source_name(PublishSource::SessionSync) {
        PublishSource::SessionSync
    } else {
        PublishSource::Client
    }
}

/// The wire form of a publisher.
pub open spec fn pb_of_publisher(p: PublisherView) -> PublisherPbView {
    PublisherPbView {
        data_info_id: p.data_info_id,
        data_id: p.data_id,
        instance_id: p.instance_id,
        group: p.group,
        regist_id: p.regist_id,
        client_id: p.client_id,
        cell: or_empty(p.cell),
        app_name: or_empty(p.app_name),
        process_id: process_id_text(p.process_id),
        version: p.version.version,
        version_timestamp: p.version.timestamp,
        source_address: connect_id_text(p.source_address),
        session_process_id: process_id_text(p.session_process_id),
        data_list: p.data_list,
        publish_type: publish_type_name(p.publish_type),
        publish_source: publish_source_name(p.publish_source),
        attributes: p.attributes,
        register_timestamp: p.register_timestamp,
    }
}

/// The publisher a wire form denotes.
pub open spec fn publisher_of_pb(pb: PublisherPbView) -> PublisherView {
    PublisherView {
        data_info_id: pb.data_info_id,
        data_id: pb.data_id,
        instance_id: pb.instance_id,
        group: pb.group,
        regist_id: pb.regist_id,
        client_id: pb.client_id,
        cell: non_empty(pb.cell),
        app_name: non_empty(pb.app_name),
        process_id: process_id_of(pb.process_id),
        version: RegisterVersion { version: pb.version, timestamp: pb.version_timestamp },
        source_address: connect_id_of(pb.source_address),
        session_process_id: process_id_of(pb.session_process_id),
        data_list: pb.data_list,
        publish_type: publish_type_of(pb.publish_type),
        publish_source: publish_source_of(pb.publish_source),
        attributes: pb.attributes,
        register_timestamp: pb.register_timestamp,
    }
}

/// Reading back the wire form of a publisher gives the publisher, when its
/// optional texts are not empty, its process ids have hosts without `-` and
/// non-negative timestamps, and its client host has no `-`.
pub proof fn lemma_publisher_wire_round_trip(p: PublisherView)
    requires
        p.cell != Some(Seq::<char>::empty()),
        p.app_name != Some(Seq::<char>::empty()),
        !p.process_id.host_address.contains('-'),
        p.process_id.timestamp >= 0,
        !p.session_process_id.host_address.contains('-'),
        p.session_process_id.timestamp >= 0,
        !p.source_address.client_host_address.contains('-'),
    ensures
        publisher_of_pb(pb_of_publisher(p)) == p,
{
    lemma_process_id_round_trip(p.process_id);
    lemma_process_id_round_trip(p.session_process_id);
    lemma_connect_id_round_trip(p.source_address);
    assert(publish_type_name(PublishType::Normal) != publish_type_name(PublishType::Temporary)) by {
        assert(publish_type_name(PublishType::Normal).len() != publish_type_name(PublishType::Temporary).len());
    }
    assert(publish_source_name(PublishSource::Client) != publish_source_name(PublishSource::SessionSync)) by {
        assert(publish_source_name(PublishSource::Client).len() != publish_source_name(
            PublishSource::SessionSync,
        ).len());
    }
    match p.cell {
        Some(c) => {
            assert(c.len() != 0) by {
                if c.len() == 0 {
                    assert(c =~= Seq::<char>::empty());
                }
            }
        },
        None => {},
    }
    match p.app_name {
        Some(c) => {
            assert(c.len() != 0) by {
                if c.len() == 0 {
                    assert(c =~= Seq::<char>::empty());
                }
            }
        },
        None => {},
    }
}

fn opt_or_empty(o: &Option<String>) -> (s: String)
    ensures
        s@ == or_empty(opt_view(*o)),
{
    match o {
        Some(s) => s.clone(),
        None => {
            let s = String::new();
            assert(s@ =~= Seq::<char>::empty());
            s
        },
    }
}

fn empty_to_none(s: &String) -> (o: Option<String>)
    ensures
        opt_view(o) == non_empty(s@),
{
    if s.as_str().is_empty() {
        None
    } else {
        Some(s.clone())
    }
}

fn publish_type_text(t: PublishType) -> (s: String)
    ensures
        s@ == publish_type_name(t),
{
    match t {
        PublishType::Temporary => {
            let s = String::from_str("TEMPORARY");
            proof {
                reveal_strlit("TEMPORARY");
            }
            assert(s@ =~= publish_type_name(t));
            s
        },
        PublishType::Normal => {
            let s = String::from_str("NORMAL");
            proof {
                reveal_strlit("NORMAL");
            }
            assert(s@ =~= publish_type_name(t));
            s
        },
    }
}

fn publish_source_text(t: PublishSource) -> (s: String)
    ensures
        s@ == publish_source_name(t),
{
    match t {
        PublishSource::SessionSync => {
            let s = String::from_str("SESSION_SYNC");
            proof {
                reveal_strlit("SESSION_SYNC");
            }
            assert(s@ =~= publish_source_name(t));
            s
        },
        PublishSource::Client => {
            let s = String::from_str("CLIENT");
            proof {
                reveal_strlit("CLIENT");
            }
            assert(s@ =~= publish_source_name(t));
            s
        },
    }
}

fn boxes_to_bytes(v: &Vec<ServerDataBox>) -> (r: Vec<Vec<u8>>)
    ensures
        bytes_view(r@) == boxes_view(v@),
{
    let mut out: Vec<Vec<u8>> = Vec::new();
    let mut i: usize = 0;
    while i < v.len()
        invariant
            i <= v.len(),
            bytes_view(out@) == boxes_view(v@).take(i as int),
        decreases v.len() - i,
    {
        let ghost before = bytes_view(out@);
        let b = copy_bytes(&v[i].data);
        out.push(b);
        assert(bytes_view(out@) =~= before.push(v@[i as int].data@));
        assert(boxes_view(v@).take(i + 1) =~= boxes_view(v@).take(i as int).push(v@[i as int].data@));
        i = i + 1;
    }
    assert(boxes_view(v@).take(v.len() as int) =~= boxes_view(v@));
    out
}

fn bytes_to_boxes(v: &Vec<Vec<u8>>) -> (r: Vec<ServerDataBox>)
    ensures
        boxes_view(r@) == bytes_view(v@),
{
    let mut out: Vec<ServerDataBox> = Vec::new();
    let mut i: usize = 0;
    while i < v.len()
        invariant
            i <= v.len(),
            boxes_view(out@) == bytes_view(v@).take(i as int),
        decreases v.len() - i,
    {
        let ghost before = boxes_view(out@);
        let b = ServerDataBox { data: copy_bytes(&v[i]) };
        out.push(b);
        assert(boxes_view(out@) =~= before.push(v@[i as int]@));
        assert(bytes_view(v@).take(i + 1) =~= bytes_view(v@).take(i as int).push(v@[i as int]@));
        i = i + 1;
    }
    assert(bytes_view(v@).take(v.len() as int) =~= bytes_view(v@));
    out
}

/// The wire form of a publisher.
pub fn publisher_to_pb(p: &Publisher) -> (pb: PublisherPb)
    ensures
        pb@ == pb_of_publisher(p@),
{
    PublisherPb {
        data_info_id: p.data_info_id.clone(),
        data_id: p.data_id.clone(),
        instance_id: p.instance_id.clone(),
        group: p.group.clone(),
        regist_id: p.regist_id.clone(),
        client_id: p.client_id.clone(),
        cell: opt_or_empty(&p.cell),
        app_name: opt_or_empty(&p.app_name),
        process_id: p.process_id.to_string(),
        version: p.version.version,
        version_timestamp: p.version.timestamp,
        source_address: p.source_address.to_string(),
        session_process_id: p.session_process_id.to_string(),
        data_list: boxes_to_bytes(&p.data_list),
        publish_type: publish_type_text(p.publish_type),
        publish_source: publish_source_text(p.publish_source),
        attributes: copy_pairs(&p.attributes),
        register_timestamp: p.register_timestamp,
    }
}

/// The publisher a wire form denotes.
pub fn pb_to_publisher(pb: &PublisherPb) -> (p: Publisher)
    ensures
        p@ == publisher_of_pb(pb@),
{
    let temporary = str_eq(pb.publish_type.as_str(), "TEMPORARY");
    let sync = str_eq(pb.publish_source.as_str(), "SESSION_SYNC");
    proof {
        reveal_strlit("TEMPORARY");
        reveal_strlit("SESSION_SYNC");
        assert("TEMPORARY"@ =~= publish_type_name(PublishType::Temporary));
        assert("SESSION_SYNC"@ =~= publish_source_name(PublishSource::SessionSync));
    }
    Publisher {
        data_info_id: pb.data_info_id.clone(),
        data_id: pb.data_id.clone(),
        instance_id: pb.instance_id.clone(),
        group: pb.group.clone(),
        regist_id: pb.regist_id.clone(),
        client_id: pb.client_id.clone(),
        cell: empty_to_none(&pb.cell),
        app_name: empty_to_none(&pb.app_name),
        process_id: parse_process_id(pb.process_id.as_str()),
        version: RegisterVersion::new(pb.version, pb.version_timestamp),
        source_address: parse_connect_id(pb.source_address.as_str()),
        session_process_id: parse_process_id(pb.session_process_id.as_str()),
        data_list: bytes_to_boxes(&pb.data_list),
        publish_type: if temporary {
            PublishType::Temporary
        } else {
            PublishType::Normal
        },
        publish_source: if sync {
            PublishSource::SessionSync
        } else {
            PublishSource::Client
        },
        attributes: copy_pairs(&pb.attributes),
        register_timestamp: pb.register_timestamp,
    }
}

} // verus!
