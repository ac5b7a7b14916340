use sofa_registry::data_server_manager::DataServerManager;
use sofa_registry::elector::{LockInfo, MetaLeaderElector};
use sofa_registry::meta_rpc::{get_leader, get_slot_table, register_node_at, renew_node, slot_table_to_pb};
use sofa_registry::meta_slot_manager::{MetaSlotManager, SlotConfig};
use sofa_registry::session_server_manager::SessionServerManager;
use sofa_registry::slot_table::{Slot, SlotTable};

fn setup() -> (DataServerManager, SessionServerManager, MetaSlotManager, MetaLeaderElector) {
    (
        DataServerManager::new(30),
        SessionServerManager::new(30),
        MetaSlotManager::new(SlotConfig { slot_num: 4, slot_replicas: 2 }),
        MetaLeaderElector::new("m1".to_string(), "dc".to_string(), 30_000, 100),
    )
}

#[test]
fn leader_assigns_slots_when_data_server_registers() {
    let (mut data, mut sessions, mut slots, mut elector) = setup();
    elector.on_compete_result(Some(LockInfo { owner: "m1".to_string(), term: 1, expire_timestamp: 10 }));
    let r = register_node_at(&mut data, &mut sessions, &mut slots, &elector, "DATA", "d1:9621", "dc", "c", 5).unwrap();
    assert!(r.success);
    assert_eq!(r.message, "Registered");
    assert_eq!(r.slot_table.epoch, 1);
    assert_eq!(r.slot_table.slots.len(), 4);
    assert!(r.slot_table.slots.iter().all(|s| s.leader == "d1:9621"));
    assert_eq!(data.count(), 1);
}

#[test]
fn follower_does_not_assign_slots() {
    let (mut data, mut sessions, mut slots, elector) = setup();
    let r = register_node_at(&mut data, &mut sessions, &mut slots, &elector, "DATA", "d1:9621", "dc", "c", 5).unwrap();
    assert_eq!(r.slot_table.epoch, -1);
    assert!(r.slot_table.slots.is_empty());
}

#[test]
fn session_registration_and_unknown_type() {
    let (mut data, mut sessions, mut slots, elector) = setup();
    assert!(register_node_at(&mut data, &mut sessions, &mut slots, &elector, "SESSION", "s1:9601", "dc", "c", 5).is_ok());
    assert_eq!(sessions.count(), 1);
    assert_eq!(
        register_node_at(&mut data, &mut sessions, &mut slots, &elector, "CLIENT", "x", "dc", "c", 5).unwrap_err(),
        "Unknown node type: CLIENT"
    );
}

#[test]
fn renew_by_node_type() {
    let (mut data, mut sessions, mut slots, elector) = setup();
    register_node_at(&mut data, &mut sessions, &mut slots, &elector, "DATA", "d1", "dc", "c", 5).unwrap();
    register_node_at(&mut data, &mut sessions, &mut slots, &elector, "SESSION", "s1", "dc", "c", 5).unwrap();
    assert!(renew_node(&mut data, &mut sessions, &slots, "DATA", "d1").success);
    assert!(!renew_node(&mut data, &mut sessions, &slots, "DATA", "s1").success);
    assert!(renew_node(&mut data, &mut sessions, &slots, "SESSION", "s1").success);
    let r = renew_node(&mut data, &mut sessions, &slots, "OTHER", "d1");
    assert!(!r.success);
    assert_eq!(r.slot_table_epoch, -1);
}

#[test]
fn slot_table_query_by_epoch() {
    let (_, _, mut slots, _) = setup();
    slots.set_slot_table(SlotTable::new(3, vec![Slot::new(0, "a".to_string(), 1).with_followers(vec!["b".to_string()])]));
    let same = get_slot_table(&slots, 3);
    assert!(same.success && same.unchanged && same.slot_table.is_none());
    let fresh = get_slot_table(&slots, 2);
    assert!(!fresh.unchanged);
    let t = fresh.slot_table.unwrap();
    assert_eq!(t.epoch, 3);
    assert_eq!(t.slots[0].leader, "a");
    assert_eq!(t.slots[0].followers, vec!["b".to_string()]);
    assert_eq!(slot_table_to_pb(&SlotTable::new_empty()).slots.len(), 0);
}

#[test]
fn leader_query() {
    let (_, _, _, mut elector) = setup();
    let none = get_leader(&elector);
    assert_eq!(none.leader, "");
    assert_eq!(none.epoch, -1);
    elector.on_compete_result(Some(LockInfo { owner: "m2".to_string(), term: 9, expire_timestamp: 77 }));
    let r = get_leader(&elector);
    assert_eq!(r.leader, "m2");
    assert_eq!(r.epoch, 9);
    assert_eq!(r.expire_timestamp, 77);
}
