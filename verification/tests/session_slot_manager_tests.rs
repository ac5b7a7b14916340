use sofa_registry::checksum::slot_of_checksum;
use sofa_registry::session_slot_manager::SessionSlotManager;
use sofa_registry::slot_table::{Slot, SlotTable};

fn make_test_slot_table() -> SlotTable {
    let slots = vec![
        Slot::new(0, "10.0.0.1:9621".to_string(), 1).with_followers(vec!["10.0.0.2:9621".to_string()]),
        Slot::new(1, "10.0.0.2:9621".to_string(), 1).with_followers(vec!["10.0.0.1:9621".to_string()]),
        Slot::new(2, "10.0.0.1:9621".to_string(), 1),
    ];
    SlotTable::new(5, slots)
}

#[test]
fn test_new_manager_is_not_initialized() {
    let mgr = SessionSlotManager::new(256);
    assert!(!mgr.is_initialized());
    assert_eq!(mgr.get_epoch(), -1);
}

#[test]
fn test_update_and_get_epoch() {
    let mut mgr = SessionSlotManager::new(256);
    mgr.update_slot_table(make_test_slot_table());
    assert_eq!(mgr.get_epoch(), 5);
    assert!(mgr.is_initialized());
}

#[test]
fn test_get_leader_for_slot() {
    let mut mgr = SessionSlotManager::new(256);
    mgr.update_slot_table(make_test_slot_table());
    assert_eq!(mgr.get_leader_for_slot(0), Some("10.0.0.1:9621".to_string()));
    assert_eq!(mgr.get_leader_for_slot(1), Some("10.0.0.2:9621".to_string()));
    assert_eq!(mgr.get_leader_for_slot(999), None);
}

#[test]
fn test_get_leader_for_data() {
    let mut mgr = SessionSlotManager::new(3);
    mgr.update_slot_table(make_test_slot_table());
    let result = mgr.get_leader_for_data("com.example.service");
    assert!(result.is_some());
    let (slot_id, leader) = result.unwrap();
    assert!(slot_id < 3);
    assert!(!leader.is_empty());
}

#[test]
fn test_get_leader_for_data_returns_none_when_empty() {
    let mgr = SessionSlotManager::new(256);
    assert!(mgr.get_leader_for_data("com.example.service").is_none());
}

#[test]
fn test_get_slot_table_clone() {
    let mut mgr = SessionSlotManager::new(256);
    let table = make_test_slot_table();
    mgr.update_slot_table(table.clone());
    let retrieved = mgr.get_slot_table();
    assert_eq!(retrieved.epoch, table.epoch);
    assert_eq!(retrieved.slot_count(), table.slot_count());
}

#[test]
fn test_slot_of_deterministic() {
    let mgr = SessionSlotManager::new(256);
    let s1 = mgr.slot_of("com.example.service#DEFAULT_INSTANCE_ID#DEFAULT_GROUP");
    let s2 = mgr.slot_of("com.example.service#DEFAULT_INSTANCE_ID#DEFAULT_GROUP");
    assert_eq!(s1, s2);
    assert!(s1 < 256);
}

#[test]
fn slot_of_uses_crc32c_check_value() {
    // CRC-32C of "123456789" is 0xE3069283.
    let mgr = SessionSlotManager::new(256);
    assert_eq!(mgr.slot_of("123456789"), 0x83);
    let big = SessionSlotManager::new(u32::MAX);
    assert_eq!(big.slot_of("123456789"), 0xE3069283);
    assert_eq!(big.slot_of(""), 0);
}

#[test]
fn slot_of_checksum_is_remainder() {
    assert_eq!(slot_of_checksum(0xE3069283, 256), 0x83);
    assert_eq!(slot_of_checksum(10, 3), 1);
    assert_eq!(slot_of_checksum(2, 3), 2);
}

#[test]
fn route_slot_skips_empty_leader() {
    let mut mgr = SessionSlotManager::new(4);
    mgr.update_slot_table(SlotTable::new(
        2,
        vec![Slot::new(0, String::new(), 1), Slot::new(1, "d:1".to_string(), 1)],
    ));
    assert_eq!(mgr.route_slot(0), None);
    assert_eq!(mgr.route_slot(1), Some((1, "d:1".to_string())));
    assert_eq!(mgr.route_slot(2), None);
}

#[test]
fn data_routes_to_leader_of_its_slot() {
    let mut mgr = SessionSlotManager::new(256);
    let slots: Vec<Slot> = (0..256u32).map(|i| Slot::new(i, format!("d{}", i % 3), 1)).collect();
    mgr.update_slot_table(SlotTable::new(9, slots));
    let slot = mgr.slot_of("123456789");
    assert_eq!(slot, 0x83);
    assert_eq!(mgr.get_leader_for_data("123456789"), Some((0x83, format!("d{}", 0x83 % 3))));
}

#[test]
fn session_takes_only_newer_tables() {
    let mut mgr = SessionSlotManager::new(3);
    assert!(mgr.accept_newer_table(make_test_slot_table()));
    assert!(!mgr.accept_newer_table(SlotTable::new(5, vec![])));
    assert_eq!(mgr.get_slot_table().slot_count(), 3);
}
