use sofa_registry::model::{
    ConnectId, ProcessId, PublishSource, PublishType, Publisher, RegisterVersion,
};
use sofa_registry::registry::PublisherRegistry;

/// Helper to create a Publisher with the given identifiers.
fn make_publisher(
    data_info_id: &str,
    data_id: &str,
    regist_id: &str,
    connect_id: ConnectId,
) -> Publisher {
    Publisher {
        data_info_id: data_info_id.to_string(),
        data_id: data_id.to_string(),
        instance_id: "default".to_string(),
        group: "DEFAULT_GROUP".to_string(),
        regist_id: regist_id.to_string(),
        client_id: "client-1".to_string(),
        cell: None,
        app_name: Some("test-app".to_string()),
        process_id: ProcessId::new("10.0.0.1", 1000, 1),
        version: RegisterVersion::of(1),
        source_address: connect_id,
        session_process_id: ProcessId::new("10.0.0.100", 2000, 1),
        data_list: vec![],
        publish_type: PublishType::Normal,
        publish_source: PublishSource::Client,
        attributes: vec![],
        register_timestamp: 1000,
    }
}

fn connect_id_a() -> ConnectId {
    ConnectId::new("10.0.0.1", 12345, "10.0.0.100", 9600)
}

fn connect_id_b() -> ConnectId {
    ConnectId::new("10.0.0.2", 12346, "10.0.0.100", 9600)
}

#[test]
fn publisher_registry_tests_new_registry_is_empty() {
    let reg = PublisherRegistry::new();
    assert_eq!(reg.count(), 0);
    assert_eq!(reg.data_info_id_count(), 0);
}

#[test]
fn publisher_registry_tests_default_creates_empty_registry() {
    let reg = PublisherRegistry::default();
    assert_eq!(reg.count(), 0);
}

#[test]
fn register_new_publisher_returns_true() {
    let mut reg = PublisherRegistry::new();
    let pub1 = make_publisher("svc.A#default#GRP", "svc.A", "reg-1", connect_id_a());
    assert!(reg.register(pub1));
}

#[test]
fn publisher_registry_tests_register_duplicate_regist_id_returns_false() {
    let mut reg = PublisherRegistry::new();
    let pub1 = make_publisher("svc.A#default#GRP", "svc.A", "reg-1", connect_id_a());
    let pub1_dup = make_publisher("svc.A#default#GRP", "svc.A", "reg-1", connect_id_a());

    assert!(reg.register(pub1));
    assert!(!reg.register(pub1_dup));
}

#[test]
fn publisher_registry_tests_register_increments_count() {
    let mut reg = PublisherRegistry::new();
    let pub1 = make_publisher("svc.A#default#GRP", "svc.A", "reg-1", connect_id_a());
    let pub2 = make_publisher("svc.A#default#GRP", "svc.A", "reg-2", connect_id_a());
    let pub3 = make_publisher("svc.B#default#GRP", "svc.B", "reg-3", connect_id_b());

    reg.register(pub1);
    reg.register(pub2);
    reg.register(pub3);

    assert_eq!(reg.count(), 3);
    assert_eq!(reg.data_info_id_count(), 2);
}

#[test]
fn get_by_data_info_id_returns_matching_publishers() {
    let mut reg = PublisherRegistry::new();
    let pub1 = make_publisher("svc.A#default#GRP", "svc.A", "reg-1", connect_id_a());
    let pub2 = make_publisher("svc.A#default#GRP", "svc.A", "reg-2", connect_id_b());
    let pub3 = make_publisher("svc.B#default#GRP", "svc.B", "reg-3", connect_id_a());

    reg.register(pub1);
    reg.register(pub2);
    reg.register(pub3);

    let result = reg.get_by_data_info_id("svc.A#default#GRP");
    assert_eq!(result.len(), 2);
    let regist_ids: Vec<&str> = result.iter().map(|p| p.regist_id.as_str()).collect();
    assert!(regist_ids.contains(&"reg-1"));
    assert!(regist_ids.contains(&"reg-2"));
}

#[test]
fn publisher_registry_tests_get_by_data_info_id_returns_empty_for_unknown() {
    let reg = PublisherRegistry::new();
    let result = reg.get_by_data_info_id("does.not.exist#default#GRP");
    assert!(result.is_empty());
}

#[test]
fn get_by_connect_id_returns_matching_publishers() {
    let mut reg = PublisherRegistry::new();
    let cid_a = connect_id_a();
    let pub1 = make_publisher("svc.A#default#GRP", "svc.A", "reg-1", cid_a.clone());
    let pub2 = make_publisher("svc.B#default#GRP", "svc.B", "reg-2", cid_a.clone());
    let pub3 = make_publisher("svc.C#default#GRP", "svc.C", "reg-3", connect_id_b());

    reg.register(pub1);
    reg.register(pub2);
    reg.register(pub3);

    let result = reg.get_by_connect_id(&cid_a.to_string());
    assert_eq!(result.len(), 2);
}

#[test]
fn unregister_removes_publisher() {
    let mut reg = PublisherRegistry::new();
    let pub1 = make_publisher("svc.A#default#GRP", "svc.A", "reg-1", connect_id_a());
    reg.register(pub1);

    let removed = reg.unregister("svc.A#default#GRP", "reg-1");
    assert!(removed.is_some());
    assert_eq!(removed.unwrap().regist_id, "reg-1");
    assert_eq!(reg.count(), 0);
    assert_eq!(reg.data_info_id_count(), 0);
}

#[test]
fn publisher_registry_tests_unregister_nonexistent_returns_none() {
    let mut reg = PublisherRegistry::new();
    assert!(reg.unregister("svc.A#default#GRP", "reg-999").is_none());
}

#[test]
fn publisher_registry_tests_unregister_wrong_regist_id_returns_none() {
    let mut reg = PublisherRegistry::new();
    let pub1 = make_publisher("svc.A#default#GRP", "svc.A", "reg-1", connect_id_a());
    reg.register(pub1);

    assert!(reg.unregister("svc.A#default#GRP", "reg-wrong").is_none());
    assert_eq!(reg.count(), 1);
}

#[test]
fn publisher_registry_tests_unregister_one_of_many_keeps_rest() {
    let mut reg = PublisherRegistry::new();
    let pub1 = make_publisher("svc.A#default#GRP", "svc.A", "reg-1", connect_id_a());
    let pub2 = make_publisher("svc.A#default#GRP", "svc.A", "reg-2", connect_id_b());
    reg.register(pub1);
    reg.register(pub2);

    let removed = reg.unregister("svc.A#default#GRP", "reg-1");
    assert!(removed.is_some());
    assert_eq!(reg.count(), 1);

    let remaining = reg.get_by_data_info_id("svc.A#default#GRP");
    assert_eq!(remaining.len(), 1);
    assert_eq!(remaining[0].regist_id, "reg-2");
}

#[test]
fn remove_by_connect_id_removes_all_publishers_for_connection() {
    let mut reg = PublisherRegistry::new();
    let cid_a = connect_id_a();
    let pub1 = make_publisher("svc.A#default#GRP", "svc.A", "reg-1", cid_a.clone());
    let pub2 = make_publisher("svc.B#default#GRP", "svc.B", "reg-2", cid_a.clone());
    let pub3 = make_publisher("svc.C#default#GRP", "svc.C", "reg-3", connect_id_b());

    reg.register(pub1);
    reg.register(pub2);
    reg.register(pub3);

    let removed = reg.remove_by_connect_id(&cid_a.to_string());
    assert_eq!(removed.len(), 2);
    assert_eq!(reg.count(), 1);

    // Only pub3 should remain.
    let remaining = reg.get_by_data_info_id("svc.C#default#GRP");
    assert_eq!(remaining.len(), 1);
    assert_eq!(remaining[0].regist_id, "reg-3");
}

#[test]
fn publisher_registry_tests_remove_by_connect_id_nonexistent_returns_empty() {
    let mut reg = PublisherRegistry::new();
    let removed = reg.remove_by_connect_id("nonexistent:0-host:0");
    assert!(removed.is_empty());
}

#[test]
fn re_register_with_same_regist_id_updates_publisher() {
    let mut reg = PublisherRegistry::new();
    let mut pub1 = make_publisher("svc.A#default#GRP", "svc.A", "reg-1", connect_id_a());
    pub1.register_timestamp = 100;
    reg.register(pub1);

    let mut pub1_v2 = make_publisher("svc.A#default#GRP", "svc.A", "reg-1", connect_id_a());
    pub1_v2.register_timestamp = 200;
    reg.register(pub1_v2);

    // Count should stay 1 since the duplicate was replaced.
    assert_eq!(reg.count(), 1);

    let pubs = reg.get_by_data_info_id("svc.A#default#GRP");
    assert_eq!(pubs.len(), 1);
    assert_eq!(pubs[0].register_timestamp, 200);
}

#[test]
fn publisher_registry_tests_unregister_cleans_up_empty_data_info_id_entry() {
    let mut reg = PublisherRegistry::new();
    let pub1 = make_publisher("svc.A#default#GRP", "svc.A", "reg-1", connect_id_a());
    reg.register(pub1);

    reg.unregister("svc.A#default#GRP", "reg-1");

    // After removing the only publisher, data_info_id_count should be 0.
    assert_eq!(reg.data_info_id_count(), 0);
}

#[test]
fn unregister_cleans_up_empty_connection_entry() {
    let mut reg = PublisherRegistry::new();
    let cid = connect_id_a();
    let pub1 = make_publisher("svc.A#default#GRP", "svc.A", "reg-1", cid.clone());
    reg.register(pub1);

    reg.unregister("svc.A#default#GRP", "reg-1");

    // After removing the only publisher for this connection, get_by_connect_id
    // should return empty.
    let by_conn = reg.get_by_connect_id(&cid.to_string());
    assert!(by_conn.is_empty());
}

#[test]
fn connect_id_text_is_client_then_server() {
    assert_eq!(connect_id_a().to_string(), "10.0.0.1:12345-10.0.0.100:9600");
    assert_eq!(ConnectId::new("h", 0, "", 0).to_string(), "h:0-:0");
}

#[test]
fn process_id_text_is_host_timestamp_sequence() {
    assert_eq!(ProcessId::new("10.0.0.1", 1000, 1).to_string(), "10.0.0.1-1000-1");
    assert_eq!(ProcessId::new("h", -5, -1).to_string(), "h--5--1");
}

#[test]
fn register_then_unregister_restores_empty_registry() {
    let mut reg = PublisherRegistry::new();
    assert!(reg.register(make_publisher("svc.A#default#GRP", "svc.A", "reg-1", connect_id_a())));
    let removed = reg.unregister("svc.A#default#GRP", "reg-1").unwrap();
    assert_eq!(removed.regist_id, "reg-1");
    assert_eq!(reg.count(), 0);
    assert_eq!(reg.data_info_id_count(), 0);
    assert!(reg.get_by_connect_id(&connect_id_a().to_string()).is_empty());
    assert!(reg.register(make_publisher("svc.A#default#GRP", "svc.A", "reg-1", connect_id_a())));
}

#[test]
fn re_registration_moves_to_end_of_data_list() {
    let mut reg = PublisherRegistry::new();
    reg.register(make_publisher("svc.A#default#GRP", "svc.A", "reg-1", connect_id_a()));
    reg.register(make_publisher("svc.A#default#GRP", "svc.A", "reg-2", connect_id_a()));
    reg.register(make_publisher("svc.A#default#GRP", "svc.A", "reg-1", connect_id_a()));
    let ids: Vec<String> = reg
        .get_by_data_info_id("svc.A#default#GRP")
        .iter()
        .map(|p| p.regist_id.clone())
        .collect();
    assert_eq!(ids, vec!["reg-2".to_string(), "reg-1".to_string()]);
    let by_conn: Vec<String> = reg
        .get_by_connect_id(&connect_id_a().to_string())
        .iter()
        .map(|p| p.regist_id.clone())
        .collect();
    assert_eq!(by_conn, vec!["reg-1".to_string(), "reg-2".to_string()]);
}

#[test]
fn same_regist_id_under_two_data_ids_on_one_connection() {
    let mut reg = PublisherRegistry::new();
    assert!(reg.register(make_publisher("svc.A#default#GRP", "svc.A", "reg-1", connect_id_a())));
    assert!(reg.register(make_publisher("svc.B#default#GRP", "svc.B", "reg-1", connect_id_a())));
    assert_eq!(reg.count(), 2);
    assert_eq!(reg.data_info_id_count(), 2);
    assert_eq!(reg.get_by_connect_id(&connect_id_a().to_string()).len(), 1);
    let removed = reg.remove_by_connect_id(&connect_id_a().to_string());
    assert_eq!(removed.len(), 1);
    assert_eq!(removed[0].data_info_id, "svc.B#default#GRP");
    assert_eq!(reg.count(), 1);
    assert_eq!(reg.get_by_data_info_id("svc.A#default#GRP").len(), 1);
}

#[test]
fn replacing_a_publisher_from_another_connection_is_not_new() {
    let mut reg = PublisherRegistry::new();
    let p1 = make_publisher("svc.A#default#GRP", "svc.A", "reg-1", connect_id_a());
    let p2 = make_publisher("svc.A#default#GRP", "svc.A", "reg-1", connect_id_b());
    assert!(reg.register(p1));
    assert!(!reg.register(p2));
    assert_eq!(reg.count(), 1);
    let list = reg.get_by_data_info_id("svc.A#default#GRP");
    assert_eq!(list.len(), 1);
    assert_eq!(list[0].source_address.to_string(), connect_id_b().to_string());
}
