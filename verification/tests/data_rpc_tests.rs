use sofa_registry::data_rpc::{
    check_slot_leader, get_data_response, notification_for, renew_named_sessions_at, resolve_data_center,
    slot_diff_publisher_response, slot_diff_response, notifications_for, ChangeBatch, ChangeMerger, DataChangeEvent,
    DataRpcError, Datum, MergeAction, MergeInput, NotifyAction, SessionNotifier,
};
use sofa_registry::channel_pool::CallOutcome;
use sofa_registry::data_slot_manager::DataSlotManager;
use sofa_registry::model::{ConnectId, DatumVersion, ProcessId, PublishSource, PublishType, Publisher, RegisterVersion};
use sofa_registry::session_lease_manager::SessionLeaseManager;
use sofa_registry::slot_diff::{DatumDigest, DatumSummary, SlotDiffSyncer};
use sofa_registry::slot_table::{Slot, SlotTable};
use sofa_registry::wire::{pb_to_publisher, publisher_to_pb};

fn publisher(session: &str) -> Publisher {
    Publisher {
        data_info_id: "d#i#g".to_string(),
        data_id: "d".to_string(),
        instance_id: "i".to_string(),
        group: "g".to_string(),
        regist_id: "r".to_string(),
        client_id: "c".to_string(),
        cell: Some("cell-1".to_string()),
        app_name: None,
        process_id: ProcessId::new("10.0.0.1", 1000, 1),
        version: RegisterVersion::new(4, 99),
        source_address: ConnectId::new("10.0.0.1", 12345, "10.0.0.100", 9600),
        session_process_id: ProcessId::new(session, 0, 0),
        data_list: vec![],
        publish_type: PublishType::Temporary,
        publish_source: PublishSource::SessionSync,
        attributes: vec![("a".to_string(), "b".to_string())],
        register_timestamp: 5,
    }
}

#[test]
fn data_center_defaults_to_own() {
    assert_eq!(resolve_data_center("", "dc-own"), "dc-own");
    assert_eq!(resolve_data_center("dc-x", "dc-own"), "dc-x");
}

#[test]
fn slot_leader_check() {
    let mut slots = DataSlotManager::new("me");
    slots.update_slot_table(SlotTable::new(
        1,
        vec![Slot::new(0, "me".to_string(), 1), Slot::new(1, "other".to_string(), 1)],
    ));
    assert_eq!(check_slot_leader(&slots, 0), Ok(()));
    assert_eq!(
        check_slot_leader(&slots, 1),
        Err(DataRpcError::SlotMoved { slot_id: 1, new_leader: "other".to_string() })
    );
    assert_eq!(
        check_slot_leader(&slots, 7),
        Err(DataRpcError::SlotMoved { slot_id: 7, new_leader: String::new() })
    );
}

#[test]
fn publisher_wire_round_trip() {
    let p = publisher("sess");
    let pb = publisher_to_pb(&p);
    assert_eq!(pb.process_id, "10.0.0.1-1000-1");
    assert_eq!(pb.source_address, "10.0.0.1:12345-10.0.0.100:9600");
    assert_eq!(pb.publish_type, "TEMPORARY");
    assert_eq!(pb.publish_source, "SESSION_SYNC");
    assert_eq!(pb.cell, "cell-1");
    assert_eq!(pb.app_name, "");
    let back = pb_to_publisher(&pb);
    assert_eq!(back.cell, Some("cell-1".to_string()));
    assert_eq!(back.app_name, None);
    assert_eq!(back.process_id.to_string(), "10.0.0.1-1000-1");
    assert_eq!(back.source_address.client_port, 12345);
    assert_eq!(back.session_process_id.host_address, "sess");
    assert_eq!(back.publish_type, PublishType::Temporary);
    assert_eq!(back.publish_source, PublishSource::SessionSync);
    assert_eq!(back.version, RegisterVersion::new(4, 99));
}

#[test]
fn unknown_wire_names_are_defaults() {
    let mut pb = publisher_to_pb(&publisher("s"));
    pb.publish_type = "weird".to_string();
    pb.publish_source = "".to_string();
    let back = pb_to_publisher(&pb);
    assert_eq!(back.publish_type, PublishType::Normal);
    assert_eq!(back.publish_source, PublishSource::Client);
}

#[test]
fn named_sessions_get_renewed() {
    let mut leases = SessionLeaseManager::new(30);
    let pbs = vec![publisher_to_pb(&publisher("s1")), publisher_to_pb(&publisher("s2")), publisher_to_pb(&publisher("s1"))];
    renew_named_sessions_at(&mut leases, &pbs, 1_000);
    // Session process ids render as "host-0-0".
    assert_eq!(leases.session_count(), 2);
    assert!(leases.is_active_at("s1-0-0", 1_000));
    assert!(leases.is_active_at("s2-0-0", 30_999));
    assert!(!leases.is_active_at("s2-0-0", 31_000));
}

#[test]
fn slot_diff_answer() {
    let syncer = SlotDiffSyncer::new(1);
    let entries = vec![
        DatumSummary { data_info_id: "a".to_string(), version: 2, publisher_count: 1 },
        DatumSummary { data_info_id: "b".to_string(), version: 1, publisher_count: 1 },
    ];
    let follower = vec![
        DatumDigest { data_info_id: "a".to_string(), version: 1, publisher_count: 1 },
        DatumDigest { data_info_id: "b".to_string(), version: 1, publisher_count: 1 },
        DatumDigest { data_info_id: "z".to_string(), version: 1, publisher_count: 1 },
    ];
    let r = slot_diff_response(&syncer, &entries, 0, &follower);
    assert!(r.success);
    assert_eq!(r.updated_data_info_ids, vec!["a".to_string()]);
    assert_eq!(r.removed_data_info_ids, vec!["z".to_string()]);
    assert_eq!(r.updated_digests.len(), 1);
    assert_eq!(r.updated_digests[0].version, 2);
}

#[test]
fn change_batch_keeps_latest_per_id() {
    let ev = |id: &str, v: i64| DataChangeEvent {
        data_center: "dc".to_string(),
        data_info_id: id.to_string(),
        version: DatumVersion { value: v },
    };
    let mut b = ChangeBatch::new();
    assert!(b.is_empty());
    b.add(ev("x", 1));
    b.add(ev("y", 1));
    b.add(ev("x", 3));
    assert_eq!(b.len(), 2);
    let all = b.to_vec();
    assert_eq!(all[0].data_info_id, "x");
    assert_eq!(all[0].version.value, 3);
    assert_eq!(all[1].data_info_id, "y");
    let n = notification_for(&all[0], "data-1:9621");
    assert_eq!(n.version, 3);
    assert_eq!(n.slot_id, 0);
    assert_eq!(n.data_server_address, "data-1:9621");
}

fn datum(id: &str, version: i64) -> Datum {
    Datum {
        data_info_id: id.to_string(),
        data_center: "dc".to_string(),
        data_id: "d".to_string(),
        instance_id: "i".to_string(),
        group: "g".to_string(),
        publishers: vec![publisher("10.0.0.100"), publisher("10.0.0.101")],
        version: DatumVersion { value: version },
    }
}

#[test]
fn get_data_found_and_not_found() {
    let d = datum("d#i#g", 12);
    let found = get_data_response(3, Some(&d));
    assert!(found.success);
    assert_eq!(found.slot_id, 3);
    assert_eq!(found.status, "OK");
    let sub = found.datum.unwrap();
    assert_eq!(sub.data_info_id, "d#i#g");
    assert_eq!(sub.data_center, "dc");
    assert_eq!(sub.version, 12);
    assert_eq!(sub.publishers.len(), 2);
    assert_eq!(sub.publishers[0].session_process_id, "10.0.0.100-0-0");
    assert_eq!(sub.publishers[1].session_process_id, "10.0.0.101-0-0");
    assert_eq!(sub.publishers[0].publish_type, "TEMPORARY");
    let missing = get_data_response(4, None);
    assert!(missing.success);
    assert_eq!(missing.slot_id, 4);
    assert_eq!(missing.status, "NOT_FOUND");
    assert!(missing.datum.is_none());
}

#[test]
fn slot_diff_publishers_leave_out_missing_datums() {
    let found = vec![Some(datum("a", 1)), None, Some(datum("c", 3))];
    let r = slot_diff_publisher_response(&found);
    assert!(r.success);
    assert_eq!(r.datums.len(), 2);
    assert_eq!(r.datums[0].data_info_id, "a");
    assert_eq!(r.datums[1].data_info_id, "c");
    assert_eq!(r.datums[1].version, 3);
}

fn change(id: &str, version: i64) -> DataChangeEvent {
    DataChangeEvent { data_center: "dc".to_string(), data_info_id: id.to_string(), version: DatumVersion { value: version } }
}

#[test]
fn merger_opens_window_merges_and_notifies() {
    let mut m = ChangeMerger::new();
    assert!(matches!(m.step(MergeInput::Event(change("a", 1))), MergeAction::OpenWindow));
    assert!(matches!(m.step(MergeInput::Event(change("b", 1))), MergeAction::Wait));
    assert!(matches!(m.step(MergeInput::Event(change("a", 3))), MergeAction::Wait));
    match m.step(MergeInput::WindowElapsed) {
        MergeAction::Notify(events) => {
            assert_eq!(events.len(), 2);
            assert_eq!(events[0].data_info_id, "a");
            assert_eq!(events[0].version.value, 3);
            assert_eq!(events[1].data_info_id, "b");
        }
        other => panic!("expected a notification, got {:?}", other),
    }
    assert!(matches!(m.step(MergeInput::Event(change("c", 1))), MergeAction::OpenWindow));
}

#[test]
fn merger_flushes_on_close_then_stops() {
    let mut m = ChangeMerger::new();
    m.step(MergeInput::Event(change("a", 1)));
    match m.step(MergeInput::ChannelClosed) {
        MergeAction::Notify(events) => assert_eq!(events.len(), 1),
        other => panic!("expected a notification, got {:?}", other),
    }
    assert!(matches!(m.step(MergeInput::ChannelClosed), MergeAction::Stop));
}

#[test]
fn merger_stops_on_cancel_without_notifying() {
    let mut m = ChangeMerger::new();
    m.step(MergeInput::Event(change("a", 1)));
    assert!(matches!(m.step(MergeInput::Cancelled), MergeAction::Stop));
    let mut idle = ChangeMerger::new();
    assert!(matches!(idle.step(MergeInput::WindowElapsed), MergeAction::Wait));
}

#[test]
fn notifications_one_per_change() {
    let events = vec![change("a", 2), change("b", 5)];
    let n = notifications_for(&events, "10.0.0.9:9621");
    assert_eq!(n.len(), 2);
    assert_eq!(n[0].data_info_id, "a");
    assert_eq!(n[0].version, 2);
    assert_eq!(n[1].data_info_id, "b");
    assert_eq!(n[1].version, 5);
    assert_eq!(n[1].slot_id, 0);
    assert_eq!(n[1].data_server_address, "10.0.0.9:9621");
    assert_eq!(n[1].data_center, "dc");
}

#[test]
fn notifier_walks_servers_and_changes_in_order() {
    let (mut n, first) = SessionNotifier::new(2, 2);
    assert_eq!(first, NotifyAction::Connect { session: 0 });
    assert_eq!(n.step(CallOutcome::Answered), NotifyAction::Send { session: 0, event: 0 });
    assert_eq!(n.step(CallOutcome::Answered), NotifyAction::Send { session: 0, event: 1 });
    assert_eq!(n.step(CallOutcome::Answered), NotifyAction::Connect { session: 1 });
    assert_eq!(n.step(CallOutcome::Answered), NotifyAction::Send { session: 1, event: 0 });
    assert_eq!(n.step(CallOutcome::Answered), NotifyAction::Send { session: 1, event: 1 });
    assert_eq!(n.step(CallOutcome::Answered), NotifyAction::Done);
    assert_eq!(n.step(CallOutcome::CallFailed), NotifyAction::Done);
}

#[test]
fn notifier_skips_a_server_after_a_failure() {
    let (mut n, first) = SessionNotifier::new(3, 3);
    assert_eq!(first, NotifyAction::Connect { session: 0 });
    assert_eq!(n.step(CallOutcome::ConnectFailed), NotifyAction::Connect { session: 1 });
    assert_eq!(n.step(CallOutcome::Answered), NotifyAction::Send { session: 1, event: 0 });
    assert_eq!(n.step(CallOutcome::CallFailed), NotifyAction::Connect { session: 2 });
    assert_eq!(n.step(CallOutcome::Answered), NotifyAction::Send { session: 2, event: 0 });
    assert_eq!(n.step(CallOutcome::Answered), NotifyAction::Send { session: 2, event: 1 });
    assert_eq!(n.step(CallOutcome::Answered), NotifyAction::Send { session: 2, event: 2 });
    assert_eq!(n.step(CallOutcome::Answered), NotifyAction::Done);
}

#[test]
fn notifier_with_no_servers_or_no_changes() {
    let (_, first) = SessionNotifier::new(0, 4);
    assert_eq!(first, NotifyAction::Done);
    let (mut n, first) = SessionNotifier::new(2, 0);
    assert_eq!(first, NotifyAction::Connect { session: 0 });
    assert_eq!(n.step(CallOutcome::Answered), NotifyAction::Connect { session: 1 });
    assert_eq!(n.step(CallOutcome::Answered), NotifyAction::Done);
}
