use sofa_registry::model::ServerDataBox;
use sofa_registry::push::{change_notice_data, push_task_for, received_data_to_pb, ReceivedData};
use sofa_registry::session_rpc::PushPlan;

#[test]
fn received_data_to_pb_fills_absent_fields() {
    let data = change_notice_data("svc#@#DEFAULT_INSTANCE_ID#@#GRP", &vec!["c1".to_string()], 7);
    let pb = received_data_to_pb(&data);
    assert_eq!(pb.data_id, "svc#@#DEFAULT_INSTANCE_ID#@#GRP");
    assert_eq!(pb.group, "");
    assert_eq!(pb.segment, "");
    assert_eq!(pb.scope, "");
    assert_eq!(pb.local_zone, "");
    assert_eq!(pb.version, 7);
    assert_eq!(pb.subscriber_regist_ids, vec!["c1".to_string()]);
    assert!(pb.data.is_empty());
    assert!(pb.data_count.is_empty());
}

#[test]
fn received_data_to_pb_carries_every_field() {
    let data = ReceivedData {
        data_id: "svc".to_string(),
        group: "GRP".to_string(),
        instance_id: "inst".to_string(),
        segment: Some("seg".to_string()),
        scope: Some("zone".to_string()),
        subscriber_regist_ids: vec!["a".to_string(), "b".to_string()],
        data: vec![(
            "zone-a".to_string(),
            vec![ServerDataBox { data: vec![1, 2] }, ServerDataBox { data: vec![3] }],
        )],
        version: None,
        local_zone: Some("zone-a".to_string()),
        data_count: vec![("zone-a".to_string(), 2)],
    };
    let pb = received_data_to_pb(&data);
    assert_eq!(pb.group, "GRP");
    assert_eq!(pb.instance_id, "inst");
    assert_eq!(pb.segment, "seg");
    assert_eq!(pb.scope, "zone");
    assert_eq!(pb.local_zone, "zone-a");
    assert_eq!(pb.version, 0);
    assert_eq!(pb.data.len(), 1);
    assert_eq!(pb.data[0].0, "zone-a");
    assert_eq!(pb.data[0].1.data_box.len(), 2);
    assert_eq!(pb.data[0].1.data_box[0].data, vec![1, 2]);
    assert_eq!(pb.data[0].1.data_box[1].data, vec![3]);
    assert_eq!(pb.data_count, vec![("zone-a".to_string(), 2)]);
}

#[test]
fn push_task_for_plan_announces_version() {
    let plan = PushPlan { data_info_id: "d1".to_string(), client_ids: vec!["x".to_string(), "y".to_string()] };
    let task = push_task_for(plan, 42);
    assert_eq!(task.data_info_id, "d1");
    assert_eq!(task.subscriber_regist_ids, vec!["x".to_string(), "y".to_string()]);
    assert_eq!(task.data.data_id, "d1");
    assert_eq!(task.data.version, Some(42));
    assert!(task.data.data.is_empty());
}
