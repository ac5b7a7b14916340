use sofa_registry::connection_service::ConnectionService;
use sofa_registry::data_server_manager::{DataNode, DataServerManager};
use sofa_registry::elector::{LockInfo, MetaLeaderElector};
use sofa_registry::meta_slot_manager::{MetaSlotManager, SlotConfig};
use sofa_registry::session_server_manager::{SessionNode, SessionServerManager};
use sofa_registry::stream_registry::StreamRegistry;
use sofa_registry::ticks::{meta_tick_at, session_eviction_tick_at};

fn leader(addr: &str) -> MetaLeaderElector {
    let mut e = MetaLeaderElector::new(addr.to_string(), "dc".to_string(), 30_000, 100);
    e.on_compete_result(Some(LockInfo { owner: addr.to_string(), term: 1, expire_timestamp: 1_000_000 }));
    e
}

#[test]
fn leading_meta_tick_assigns_slots_then_evicts() {
    let e = leader("m1");
    let mut data = DataServerManager::new(30);
    let mut sessions = SessionServerManager::new(30);
    let mut slots = MetaSlotManager::new(SlotConfig { slot_num: 4, slot_replicas: 1 });
    data.register_at(DataNode::new_at("d1", "dc", "cl", 0), 0);
    sessions.register_at(SessionNode::new_at("s1", "dc", "cl", 0), 0);
    let r = meta_tick_at(&e, &mut data, &mut sessions, &mut slots, 100);
    assert!(r.rebalanced);
    assert!(r.evicted_data.is_empty());
    assert_eq!(slots.get_slot_table().slots.len(), 4);
    let epoch = slots.get_epoch();
    let again = meta_tick_at(&e, &mut data, &mut sessions, &mut slots, 200);
    assert!(!again.rebalanced);
    assert_eq!(slots.get_epoch(), epoch);
    let late = meta_tick_at(&e, &mut data, &mut sessions, &mut slots, 40_000);
    assert_eq!(late.evicted_data.len(), 1);
    assert_eq!(late.evicted_sessions.len(), 1);
    assert_eq!(data.count(), 0);
    assert_eq!(sessions.count(), 0);
    assert!(!late.rebalanced);
    assert_eq!(slots.get_epoch(), epoch);
}

#[test]
fn following_meta_tick_does_not_rebalance() {
    let e = MetaLeaderElector::new("m2".to_string(), "dc".to_string(), 30_000, 100);
    let mut data = DataServerManager::new(30);
    let mut sessions = SessionServerManager::new(30);
    let mut slots = MetaSlotManager::new(SlotConfig { slot_num: 4, slot_replicas: 1 });
    data.register_at(DataNode::new_at("d1", "dc", "cl", 0), 0);
    let r = meta_tick_at(&e, &mut data, &mut sessions, &mut slots, 100);
    assert!(!r.rebalanced);
    assert!(slots.get_slot_table().slots.is_empty());
}

#[test]
fn session_tick_drops_streams_of_idle_clients() {
    let mut conns = ConnectionService::new();
    conns.connect_at("old".to_string(), "a".to_string(), 0);
    conns.connect_at("new".to_string(), "b".to_string(), 50_000);
    let mut streams: StreamRegistry<u32> = StreamRegistry::new();
    streams.register("old", 1);
    streams.register("new", 2);
    let evicted = session_eviction_tick_at(&mut conns, &mut streams, 30, 60_000);
    assert_eq!(evicted, vec!["old".to_string()]);
    assert_eq!(conns.count(), 1);
    assert_eq!(streams.active_client_ids(), vec!["new".to_string()]);
}

#[test]
fn session_tick_leaves_no_stream_to_an_evicted_client() {
    let mut conns = ConnectionService::new();
    conns.connect_at("a".to_string(), "x".to_string(), 0);
    conns.connect_at("b".to_string(), "y".to_string(), 0);
    conns.connect_at("c".to_string(), "z".to_string(), 45_000);
    let mut streams: StreamRegistry<u32> = StreamRegistry::new();
    streams.register("a", 1);
    streams.register("c", 3);
    streams.register("d", 4);
    let evicted = session_eviction_tick_at(&mut conns, &mut streams, 30, 40_000);
    assert_eq!(evicted, vec!["a".to_string(), "b".to_string()]);
    assert_eq!(streams.get("a"), None);
    assert_eq!(streams.get("b"), None);
    assert_eq!(streams.get("c"), Some(3));
    assert_eq!(streams.get("d"), Some(4));
    assert_eq!(streams.count(), 2);
}
