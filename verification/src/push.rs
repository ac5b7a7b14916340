//! The data pushed to subscribed clients: what a session server assembles
//! for a push, and the wire message it is sent as.
use vstd::prelude::*;
use crate::model::{boxes_view, copy_boxes, opt_view, ServerDataBox};
use crate::session_rpc::PushPlan;
use crate::slot_table::copy_strings;
use crate::strings::strs;
use crate::wire::or_empty;

verus! {

/// Data for the subscribers of one data id, as a session server holds it.
/// Each entry of `data` is a zone and the items published there.
#[derive(Debug)]
pub struct ReceivedData {
    pub data_id: String,
    pub group: String,
    pub instance_id: String,
    pub segment: Option<String>,
    pub scope: Option<String>,
    pub subscriber_regist_ids: Vec<String>,
    pub data: Vec<(String, Vec<ServerDataBox>)>,
    pub version: Option<i64>,
    pub local_zone: Option<String>,
    pub data_count: Vec<(String, i32)>,
}

/// The items of one zone on the wire.
#[derive(Debug)]
pub struct DataBoxListPb {
    pub data_box: Vec<ServerDataBox>,
}

/// The wire form of [`ReceivedData`]: absent texts are empty, an absent
/// version is 0.
#[derive(Debug)]
pub struct ReceivedDataPb {
    pub data_id: String,
    pub group: String,
    pub instance_id: String,
    pub segment: String,
    pub scope: String,
    pub subscriber_regist_ids: Vec<String>,
    pub data: Vec<(String, DataBoxListPb)>,
    pub version: i64,
    pub local_zone: String,
    pub data_count: Vec<(String, i32)>,
}

/// The model of the zones of [`ReceivedData`] and their items.
pub open spec fn zones_view(v: Seq<(String, Vec<ServerDataBox>)>) -> Seq<(Seq<char>, Seq<Seq<u8>>)> {
    v.map_values(|z: (String, Vec<ServerDataBox>)| (z.0@, boxes_view(z.1@)))
}

/// The model of the zones of [`ReceivedDataPb`] and their items.
pub open spec fn zones_pb_view(v: Seq<(String, DataBoxListPb)>) -> Seq<(Seq<char>, Seq<Seq<u8>>)> {
    v.map_values(|z: (String, DataBoxListPb)| (z.0@, boxes_view(z.1.data_box@)))
}

/// The model of per-zone counts.
pub open spec fn counts_view(v: Seq<(String, i32)>) -> Seq<(Seq<char>, i32)> {
    v.map_values(|c: (String, i32)| (c.0@, c.1))
}

fn text_or_empty(o: &Option<String>) -> (s: String)
    ensures
        s@ == or_empty(opt_view(*o)),
{
    match o {
        Some(s) => s.clone(),
        None => String::new(),
    }
}

fn copy_counts(v: &Vec<(String, i32)>) -> (r: Vec<(String, i32)>)
    ensures
        counts_view(r@) == counts_view(v@),
{
    let mut r: Vec<(String, i32)> = Vec::new();
    let mut i: usize = 0;
    while i < v.len()
        invariant
            i <= v.len(),
            counts_view(r@) == counts_view(v@).take(i as int),
        decreases v.len() - i,
    {
        let ghost before = counts_view(r@);
        r.push((v[i].0.clone(), v[i].1));
        assert(counts_view(r@) =~= before.push((v@[i as int].0@, v@[i as int].1)));
        assert(counts_view(r@) =~= counts_view(v@).take(i + 1));
        i = i + 1;
    }
    assert(counts_view(v@).take(v.len() as int) =~= counts_view(v@));
    r
}

fn zones_to_pb(v: &Vec<(String, Vec<ServerDataBox>)>) -> (r: Vec<(String, DataBoxListPb)>)
    ensures
        zones_pb_view(r@) == zones_view(v@),
{
    let mut r: Vec<(String, DataBoxListPb)> = Vec::new();
    let mut i: usize = 0;
    while i < v.len()
        invariant
            i <= v.len(),
            zones_pb_view(r@) == zones_view(v@).take(i as int),
        decreases v.len() - i,
    {
        let ghost before = zones_pb_view(r@);
        let list = DataBoxListPb { data_box: copy_boxes(&v[i].1) };
        r.push((v[i].0.clone(), list));
        assert(zones_pb_view(r@) =~= before.push((v@[i as int].0@, boxes_view(v@[i as int].1@))));
        assert(zones_pb_view(r@) =~= zones_view(v@).take(i + 1));
        i = i + 1;
    }
    assert(zones_view(v@).take(v.len() as int) =~= zones_view(v@));
    r
}

/// The wire message for pushed data: every field carried over, absent
/// texts as empty texts and an absent version as 0.
pub fn received_data_to_pb(data: &ReceivedData) -> (pb: ReceivedDataPb)
    ensures
        pb.data_id@ == data.data_id@,
        pb.group@ == data.group@,
        pb.instance_id@ == data.instance_id@,
        pb.segment@ == or_empty(opt_view(data.segment)),
        pb.scope@ == or_empty(opt_view(data.scope)),
        strs(pb.subscriber_regist_ids@) == strs(data.subscriber_regist_ids@),
        zones_pb_view(pb.data@) == zones_view(data.data@),
        pb.version == (match data.version {
            Some(v) => v,
            None => 0,
        }),
        pb.local_zone@ == or_empty(opt_view(data.local_zone)),
        counts_view(pb.data_count@) == counts_view(data.data_count@),
{
    ReceivedDataPb {
        data_id: data.data_id.clone(),
        group: data.group.clone(),
        instance_id: data.instance_id.clone(),
        segment: text_or_empty(&data.segment),
        scope: text_or_empty(&data.scope),
        subscriber_regist_ids: copy_strings(&data.subscriber_regist_ids),
        data: zones_to_pb(&data.data),
        version: match data.version {
            Some(v) => v,
            None => 0,
        },
        local_zone: text_or_empty(&data.local_zone),
        data_count: copy_counts(&data.data_count),
    }
}

/// The data a session server pushes on a change notice before it has the
/// data itself: the data id, the subscribers and the new version, nothing
/// else.
pub fn change_notice_data(data_info_id: &str, subscriber_regist_ids: &Vec<String>, version: i64) -> (d: ReceivedData)
    ensures
        d.data_id@ == data_info_id@,
        d.group@ == Seq::<char>::empty(),
        d.instance_id@ == Seq::<char>::empty(),
        d.segment is None,
        d.scope is None,
        strs(d.subscriber_regist_ids@) == strs(subscriber_regist_ids@),
        d.data@.len() == 0,
        d.version == Some(version),
        d.local_zone is None,
        d.data_count@.len() == 0,
{
    ReceivedData {
        data_id: data_info_id.to_string(),
        group: String::new(),
        instance_id: String::new(),
        segment: None,
        scope: None,
        subscriber_regist_ids: copy_strings(subscriber_regist_ids),
        data: Vec::new(),
        version: Some(version),
        local_zone: None,
        data_count: Vec::new(),
    }
}

/// Data to be pushed to a set of subscribers of a data id.
#[derive(Debug)]
pub struct PushTask {
    pub data_info_id: String,
    pub subscriber_regist_ids: Vec<String>,
    pub data: ReceivedData,
}

/// The push task for a change notice: the plan's data id and clients, with
/// the data that announces the new version.
pub fn push_task_for(plan: PushPlan, version: i64) -> (t: PushTask)
    ensures
        t.data_info_id@ == plan.data_info_id@,
        strs(t.subscriber_regist_ids@) == strs(plan.client_ids@),
        t.data.data_id@ == plan.data_info_id@,
        strs(t.data.subscriber_regist_ids@) == strs(plan.client_ids@),
        t.data.version == Some(version),
        t.data.data@.len() == 0,
        t.data.data_count@.len() == 0,
        t.data.group@ == Seq::<char>::empty(),
        t.data.instance_id@ == Seq::<char>::empty(),
        t.data.segment is None,
        t.data.scope is None,
        t.data.local_zone is None,
{
    let data = change_notice_data(plan.data_info_id.as_str(), &plan.client_ids, version);
    PushTask { data_info_id: plan.data_info_id, subscriber_regist_ids: plan.client_ids, data }
}

} // verus!
