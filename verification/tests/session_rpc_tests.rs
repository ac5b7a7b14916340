use sofa_registry::connection_service::ConnectionService;
use sofa_registry::model::{DatumVersion, PublishType, Scope};
use sofa_registry::registry::{PublisherRegistry, SubscriberRegistry};
use sofa_registry::session_cache::SessionCacheService;
use sofa_registry::session_rpc::{
    client_heartbeat_at, on_data_change, publisher_from_register_at, register_publisher_at, register_subscriber_at,
    subscriber_from_register_at, unregister_at, BaseRegisterPb, PublisherRegisterPb, RpcError, SubscriberRegisterPb,
    UnregisterRequest, WriteForwarder, WriteRequest,
};
use sofa_registry::session_slot_manager::SessionSlotManager;
use sofa_registry::slot_table::{Slot, SlotTable};

fn base(data_info_id: &str, regist_id: &str, client_id: &str) -> BaseRegisterPb {
    BaseRegisterPb {
        data_info_id: data_info_id.to_string(),
        data_id: "svc".to_string(),
        instance_id: "default".to_string(),
        group: "GRP".to_string(),
        regist_id: regist_id.to_string(),
        client_id: client_id.to_string(),
        ip: "10.0.0.7".to_string(),
        port: 70_000,
        version: 3,
        timestamp: 44,
        process_id: "proc-1".to_string(),
        app_name: String::new(),
        attributes: vec![("k".to_string(), "v".to_string())],
    }
}

#[test]
fn publisher_from_request_fields() {
    let pb = PublisherRegisterPb { base: Some(base("d#i#g", "r1", "c1")) };
    let p = publisher_from_register_at(&pb, "10.0.0.100:9601", 1234);
    assert_eq!(p.data_info_id, "d#i#g");
    assert_eq!(p.regist_id, "r1");
    assert_eq!(p.app_name, None);
    assert_eq!(p.process_id.host_address, "proc-1");
    assert_eq!(p.version.version, 3);
    assert_eq!(p.version.timestamp, 44);
    assert_eq!(p.source_address.to_string(), format!("10.0.0.7:{}-10.0.0.100:9601:0", 70_000u32 as u16));
    assert_eq!(p.session_process_id.host_address, "10.0.0.100:9601");
    assert_eq!(p.publish_type, PublishType::Normal);
    assert_eq!(p.register_timestamp, 1234);
    assert_eq!(p.attributes, vec![("k".to_string(), "v".to_string())]);
}

#[test]
fn request_without_base_gives_empty_publisher() {
    let p = publisher_from_register_at(&PublisherRegisterPb { base: None }, "s", 9);
    assert_eq!(p.data_info_id, "");
    assert_eq!(p.source_address.to_string(), ":0-s:0");
    assert_eq!(p.version.version, 0);
}

#[test]
fn subscriber_scope_and_encoding() {
    let mut pb = SubscriberRegisterPb {
        base: Some(base("d", "s1", "c")),
        scope: "zone".to_string(),
        accept_encoding: String::new(),
        accept_multi: true,
    };
    let s = subscriber_from_register_at(&pb, "srv", 5);
    assert_eq!(s.scope, Scope::Zone);
    assert_eq!(s.accept_encoding, None);
    assert!(s.accept_multi);
    pb.scope = "global".to_string();
    pb.accept_encoding = "gzip".to_string();
    let s = subscriber_from_register_at(&pb, "srv", 5);
    assert_eq!(s.scope, Scope::Global);
    assert_eq!(s.accept_encoding, Some("gzip".to_string()));
    pb.scope = "anything".to_string();
    assert_eq!(subscriber_from_register_at(&pb, "srv", 5).scope, Scope::DataCenter);
}

#[test]
fn register_then_unregister_publisher_forwards_writes() {
    let mut conns = ConnectionService::new();
    let mut pubs = PublisherRegistry::new();
    let mut subs = SubscriberRegistry::new();
    let pb = PublisherRegisterPb { base: Some(base("d", "r1", "c1")) };
    let (resp, write) = register_publisher_at(&mut conns, &mut pubs, &pb, "srv", 77);
    assert!(resp.success && !resp.refused);
    assert_eq!(resp.regist_id, "r1");
    assert_eq!(resp.version, 77);
    assert!(matches!(write, WriteRequest::Publish { .. }));
    assert!(conns.is_connected("c1"));
    assert_eq!(pubs.count(), 1);

    let req = UnregisterRequest { registry_type: "PUBLISH".to_string(), base: Some(base("d", "r1", "c1")) };
    let (resp, w) = unregister_at(&mut pubs, &mut subs, &req, 80).unwrap();
    assert!(resp.success);
    match w {
        Some(WriteRequest::Unpublish { data_info_id, regist_id }) => {
            assert_eq!(data_info_id, "d");
            assert_eq!(regist_id, "r1");
        }
        _ => panic!("expected an unpublish"),
    }
    assert_eq!(pubs.count(), 0);
    let (_, w) = unregister_at(&mut pubs, &mut subs, &req, 81).unwrap();
    assert!(w.is_none());
}

#[test]
fn unregister_refusals() {
    let mut pubs = PublisherRegistry::new();
    let mut subs = SubscriberRegistry::new();
    let req = UnregisterRequest { registry_type: "PUBLISH".to_string(), base: None };
    assert_eq!(
        unregister_at(&mut pubs, &mut subs, &req, 1).unwrap_err(),
        RpcError::InvalidArgument("Missing base register info".to_string())
    );
    let req = UnregisterRequest { registry_type: "OTHER".to_string(), base: Some(base("d", "r", "c")) };
    assert_eq!(
        unregister_at(&mut pubs, &mut subs, &req, 1).unwrap_err(),
        RpcError::InvalidArgument("Unknown registry type: OTHER".to_string())
    );
}

#[test]
fn subscriber_registration_and_withdrawal() {
    let mut conns = ConnectionService::new();
    let mut pubs = PublisherRegistry::new();
    let mut subs = SubscriberRegistry::new();
    let pb = SubscriberRegisterPb {
        base: Some(base("d", "s1", "c9")),
        scope: String::new(),
        accept_encoding: String::new(),
        accept_multi: false,
    };
    let resp = register_subscriber_at(&mut conns, &mut subs, &pb, "srv", 3);
    assert_eq!(resp.regist_id, "s1");
    assert_eq!(subs.count(), 1);
    let req = UnregisterRequest { registry_type: "SUBSCRIBE".to_string(), base: Some(base("d", "s1", "c9")) };
    let (_, w) = unregister_at(&mut pubs, &mut subs, &req, 4).unwrap();
    assert!(w.is_none());
    assert_eq!(subs.count(), 0);
}

#[test]
fn heartbeat_connects_unknown_client() {
    let mut conns = ConnectionService::new();
    let r = client_heartbeat_at(&mut conns, "c1", 10);
    assert!(r.success);
    assert_eq!(r.server_timestamp, 10);
    assert_eq!(conns.get("c1").unwrap().address, "");
    client_heartbeat_at(&mut conns, "c1", 20);
    let info = conns.get("c1").unwrap();
    assert_eq!(info.connected_at, 10);
    assert_eq!(info.last_heartbeat, 20);
}

#[test]
fn data_change_pushes_to_subscribers_once_per_version() {
    let mut cache = SessionCacheService::new();
    let mut conns = ConnectionService::new();
    let mut subs = SubscriberRegistry::new();
    let pb = SubscriberRegisterPb {
        base: Some(base("d", "s1", "client-a")),
        scope: String::new(),
        accept_encoding: String::new(),
        accept_multi: false,
    };
    register_subscriber_at(&mut conns, &mut subs, &pb, "srv", 3);
    let plan = on_data_change(&mut cache, &subs, "d", 5).unwrap();
    assert_eq!(plan.data_info_id, "d");
    assert_eq!(plan.client_ids, vec!["client-a".to_string()]);
    assert_eq!(cache.get_version("d"), Some(DatumVersion { value: 5 }));
    assert!(on_data_change(&mut cache, &subs, "d", 5).is_none());
    assert!(on_data_change(&mut cache, &subs, "d", 4).is_none());
    assert!(on_data_change(&mut cache, &subs, "other", 1).is_none());
    assert_eq!(cache.get_version("other"), Some(DatumVersion { value: 1 }));
}

#[test]
fn writes_forward_to_slot_leader() {
    let mut slots = SessionSlotManager::new(1);
    let fwd = WriteForwarder::new("dc1".to_string(), "sess-1".to_string());
    let p = publisher_from_register_at(&PublisherRegisterPb { base: Some(base("d", "r1", "c1")) }, "srv", 1);
    assert!(fwd.forward_publish(&slots, &p).is_none());
    slots.update_slot_table(SlotTable::new(6, vec![Slot::new(0, "data-1:9621".to_string(), 1)]));
    let (to, req) = fwd.forward_publish(&slots, &p).unwrap();
    assert_eq!(to, "data-1:9621");
    assert_eq!(req.data_center, "dc1");
    assert_eq!(req.slot_id, 0);
    assert_eq!(req.slot_table_epoch, 6);
    assert_eq!(req.publishers.len(), 1);
    assert_eq!(req.publishers[0].regist_id, "r1");
    assert_eq!(req.publishers[0].publish_type, "NORMAL");
    let (to, req) = fwd.forward_unpublish(&slots, "d", "r1").unwrap();
    assert_eq!(to, "data-1:9621");
    assert_eq!(req.regist_ids, vec!["r1".to_string()]);
    assert_eq!(req.session_process_id, "sess-1");
}
