use std::sync::atomic::{AtomicUsize, Ordering};
use std::sync::Arc;

use sofa_registry::data_server_manager::{DataNode, DataServerManager};
use sofa_registry::lease_manager::{Lease, LeaseManager, LeaseObserver};
use sofa_registry::session_server_manager::{SessionNode, SessionServerManager};

// ---------------------------------------------------------------------------
// LeaseManager<String> basic tests
// ---------------------------------------------------------------------------

#[test]
fn test_register_returns_true_for_new_node() {
    let mut mgr: LeaseManager<String> = LeaseManager::new(30);
    assert!(mgr.register("n1".into(), "data1".into()));
}

#[test]
fn test_register_returns_false_for_duplicate_key() {
    let mut mgr: LeaseManager<String> = LeaseManager::new(30);
    assert!(mgr.register("n1".into(), "data1".into()));
    assert!(!mgr.register("n1".into(), "data1-updated".into()));
}

#[test]
fn test_get_returns_registered_value() {
    let mut mgr: LeaseManager<String> = LeaseManager::new(30);
    mgr.register("k".into(), "v".into());
    assert_eq!(mgr.get("k"), Some("v".to_string()));
}

#[test]
fn test_get_returns_none_for_missing_key() {
    let mgr: LeaseManager<String> = LeaseManager::new(30);
    assert_eq!(mgr.get("missing"), None);
}

#[test]
fn test_count_reflects_registrations() {
    let mut mgr: LeaseManager<String> = LeaseManager::new(30);
    assert_eq!(mgr.count(), 0);
    mgr.register("a".into(), "1".into());
    assert_eq!(mgr.count(), 1);
    mgr.register("b".into(), "2".into());
    assert_eq!(mgr.count(), 2);
    mgr.register("a".into(), "1-updated".into());
    assert_eq!(mgr.count(), 2);
}

#[test]
fn test_get_all_returns_all_values() {
    let mut mgr: LeaseManager<String> = LeaseManager::new(30);
    mgr.register("a".into(), "1".into());
    mgr.register("b".into(), "2".into());
    mgr.register("c".into(), "3".into());
    let mut vals = mgr.get_all();
    vals.sort();
    assert_eq!(vals, vec!["1", "2", "3"]);
}

#[test]
fn test_get_all_keys() {
    let mut mgr: LeaseManager<String> = LeaseManager::new(30);
    mgr.register("x".into(), "data-x".into());
    mgr.register("y".into(), "data-y".into());
    let mut keys = mgr.get_all_keys();
    keys.sort();
    assert_eq!(keys, vec!["x", "y"]);
}

#[test]
fn test_contains() {
    let mut mgr: LeaseManager<String> = LeaseManager::new(30);
    assert!(!mgr.contains("n1"));
    mgr.register("n1".into(), "d".into());
    assert!(mgr.contains("n1"));
}

#[test]
fn test_remove() {
    let mut mgr: LeaseManager<String> = LeaseManager::new(30);
    mgr.register("k".into(), "v".into());
    let removed = mgr.remove("k");
    assert_eq!(removed, Some("v".to_string()));
    assert_eq!(mgr.count(), 0);
    assert!(!mgr.contains("k"));
}

#[test]
fn test_remove_nonexistent_returns_none() {
    let mut mgr: LeaseManager<String> = LeaseManager::new(30);
    assert_eq!(mgr.remove("nope"), None);
}

// ---------------------------------------------------------------------------
// Renew
// ---------------------------------------------------------------------------

#[test]
fn test_renew_existing_returns_true() {
    let mut mgr: LeaseManager<String> = LeaseManager::new(30);
    mgr.register("n1".into(), "d".into());
    assert!(mgr.renew("n1"));
}

#[test]
fn test_renew_nonexistent_returns_false() {
    let mut mgr: LeaseManager<String> = LeaseManager::new(30);
    assert!(!mgr.renew("unknown"));
}

// ---------------------------------------------------------------------------
// Eviction, on an explicit clock (milliseconds)
// ---------------------------------------------------------------------------

#[test]
fn test_evict_expired_removes_expired_leases() {
    let mut mgr: LeaseManager<String> = LeaseManager::new(0);
    mgr.register_at("n1".into(), "d1".into(), 1_000);
    mgr.register_at("n2".into(), "d2".into(), 1_000);
    let evicted = mgr.evict_expired_at(1_010);
    assert_eq!(evicted.len(), 2);
    assert_eq!(mgr.count(), 0);
}

#[test]
fn test_evict_does_not_remove_active_leases() {
    let mut mgr: LeaseManager<String> = LeaseManager::new(60);
    mgr.register("n1".into(), "d1".into());

    let evicted = mgr.evict_expired();
    assert_eq!(evicted.len(), 0);
    assert_eq!(mgr.count(), 1);
}

#[test]
fn test_evict_partial_expiry() {
    let mut short: LeaseManager<String> = LeaseManager::new(0);
    short.register_at("short".into(), "s".into(), 1_000);

    let mut long: LeaseManager<String> = LeaseManager::new(60);
    long.register_at("long".into(), "l".into(), 1_000);

    assert_eq!(short.evict_expired_at(1_010).len(), 1);
    assert_eq!(long.evict_expired_at(1_010).len(), 0);
}

#[test]
fn test_renew_prevents_eviction() {
    let mut mgr: LeaseManager<String> = LeaseManager::new(1);
    mgr.register_at("n1".into(), "d".into(), 0);
    let mut now: i64 = 0;
    for _ in 0..3 {
        now += 300;
        assert!(mgr.renew_at("n1", now));
        assert_eq!(mgr.evict_expired_at(now).len(), 0);
    }
    assert_eq!(mgr.count(), 1);
}

#[test]
fn test_evict_expired_returns_correct_nodes() {
    let mut mgr: LeaseManager<String> = LeaseManager::new(0);
    mgr.register_at("a".into(), "alpha".into(), 5);
    mgr.register_at("b".into(), "beta".into(), 5);

    let mut evicted = mgr.evict_expired_at(15);
    evicted.sort();
    assert_eq!(evicted, vec!["alpha", "beta"]);
}

#[test]
fn test_lease_lifecycle() {
    let mut manager: LeaseManager<String> = LeaseManager::new(1);
    assert!(manager.register("node1".into(), "node1-data".into()));
    assert_eq!(manager.count(), 1);
    assert!(manager.renew("node1"));
    assert!(!manager.renew("nonexistent"));
    assert_eq!(manager.get("node1"), Some("node1-data".into()));
    assert_eq!(manager.get("nonexistent"), None);
}

#[test]
fn test_lease_expiry() {
    let mut manager: LeaseManager<String> = LeaseManager::new(0);
    manager.register_at("node1".into(), "data".into(), 100);
    let evicted = manager.evict_expired_at(110);
    assert_eq!(evicted.len(), 1);
    assert_eq!(manager.count(), 0);
}

#[test]
fn lease_expires_only_after_more_than_its_duration() {
    let mut mgr: LeaseManager<String> = LeaseManager::new(1);
    mgr.register_at("n".into(), "d".into(), 0);
    assert_eq!(mgr.evict_expired_at(1_000).len(), 0);
    assert_eq!(mgr.evict_expired_at(1_001), vec!["d".to_string()]);
}

#[test]
fn clock_going_back_does_not_expire_a_lease() {
    let mut mgr: LeaseManager<String> = LeaseManager::new(0);
    mgr.register_at("n".into(), "d".into(), 1_000);
    assert_eq!(mgr.evict_expired_at(500).len(), 0);
    assert_eq!(mgr.evict_expired_at(1_000).len(), 0);
    assert_eq!(mgr.count(), 1);
}

#[test]
fn eviction_keeps_order_of_the_rest() {
    let mut mgr: LeaseManager<String> = LeaseManager::new(1);
    mgr.register_at("a".into(), "A".into(), 0);
    mgr.register_at("b".into(), "B".into(), 0);
    mgr.register_at("c".into(), "C".into(), 0);
    assert!(mgr.renew_at("a", 900));
    assert!(mgr.renew_at("c", 900));
    assert_eq!(mgr.evict_expired_at(1_500), vec!["B".to_string()]);
    assert_eq!(mgr.get_all_keys(), vec!["a".to_string(), "c".to_string()]);
}

#[test]
fn huge_lease_duration_saturates() {
    let mut mgr: LeaseManager<String> = LeaseManager::new(u64::MAX);
    mgr.register_at("n".into(), "d".into(), i64::MIN);
    assert_eq!(mgr.evict_expired_at(i64::MAX).len(), 0);
}

// ---------------------------------------------------------------------------
// Lease<T> struct tests
// ---------------------------------------------------------------------------

#[test]
fn test_lease_new_not_expired() {
    let lease: Lease<String> = Lease::new("node".into(), 30_000);
    assert!(!lease.is_expired());
    assert!(lease.remaining() > 0);
}

#[test]
fn test_lease_zero_duration_is_expired() {
    let lease: Lease<String> = Lease::new_at("node".into(), 0, 1_000, std::time::Instant::now());
    assert!(lease.is_expired_at(1_001));
    assert_eq!(lease.remaining_at(1_001), 0);
}

#[test]
fn test_lease_renew_resets_timer() {
    let mut lease: Lease<String> = Lease::new_at("node".into(), 100, 0, std::time::Instant::now());
    lease.renew_at(60);
    assert!(!lease.is_expired_at(60));
    assert!(lease.remaining_at(60) > 30);
    assert_eq!(lease.remaining_at(60), 100);
    assert_eq!(lease.remaining_at(130), 30);
    assert!(!lease.is_expired_at(160));
    assert!(lease.is_expired_at(161));
    assert_eq!(lease.registered_at, 0);
}

#[test]
fn test_lease_renew_never_moves_back() {
    let mut lease: Lease<String> = Lease::new("node".into(), 100);
    let before = lease.last_renewed;
    lease.renew();
    assert!(lease.last_renewed >= before);
    assert!(!lease.is_expired());
    assert_eq!(lease.registered_at, before);
}

// ---------------------------------------------------------------------------
// Observer notifications
// ---------------------------------------------------------------------------

struct CountingObserver {
    registered: AtomicUsize,
    renewed: AtomicUsize,
    evicted: AtomicUsize,
}

impl CountingObserver {
    fn new() -> Self {
        Self {
            registered: AtomicUsize::new(0),
            renewed: AtomicUsize::new(0),
            evicted: AtomicUsize::new(0),
        }
    }
}

impl LeaseObserver<String> for CountingObserver {
    fn on_registered(&self, _node: &String) {
        self.registered.fetch_add(1, Ordering::Relaxed);
    }
    fn on_renewed(&self, _node: &String) {
        self.renewed.fetch_add(1, Ordering::Relaxed);
    }
    fn on_evicted(&self, _node: &String) {
        self.evicted.fetch_add(1, Ordering::Relaxed);
    }
}

#[test]
fn test_observer_on_register() {
    let mut mgr: LeaseManager<String> = LeaseManager::new(30);
    let obs = Arc::new(CountingObserver::new());
    mgr.add_observer(obs.clone());

    mgr.register("n1".into(), "d1".into());
    mgr.register("n2".into(), "d2".into());

    assert_eq!(obs.registered.load(Ordering::Relaxed), 2);
    assert_eq!(obs.renewed.load(Ordering::Relaxed), 0);
    assert_eq!(obs.evicted.load(Ordering::Relaxed), 0);
}

#[test]
fn test_observer_on_renew() {
    let mut mgr: LeaseManager<String> = LeaseManager::new(30);
    let obs = Arc::new(CountingObserver::new());
    mgr.add_observer(obs.clone());

    mgr.register("n1".into(), "d1".into());
    mgr.renew("n1");
    mgr.renew("n1");

    assert_eq!(obs.registered.load(Ordering::Relaxed), 1);
    assert_eq!(obs.renewed.load(Ordering::Relaxed), 2);
}

#[test]
fn test_observer_on_evict() {
    let mut mgr: LeaseManager<String> = LeaseManager::new(0);
    let obs = Arc::new(CountingObserver::new());
    mgr.add_observer(obs.clone());

    mgr.register_at("n1".into(), "d1".into(), 0);
    mgr.evict_expired_at(10);

    assert_eq!(obs.evicted.load(Ordering::Relaxed), 1);
}

// ---------------------------------------------------------------------------
// Multiple nodes
// ---------------------------------------------------------------------------

#[test]
fn test_multiple_nodes_independent_leases() {
    let mut mgr: LeaseManager<String> = LeaseManager::new(0);
    for i in 0..10 {
        mgr.register_at(format!("node-{}", i), format!("data-{}", i), 0);
    }
    assert_eq!(mgr.count(), 10);

    let evicted = mgr.evict_expired_at(10);
    assert_eq!(evicted.len(), 10);
    assert_eq!(mgr.count(), 0);
}

#[test]
fn test_many_nodes_register_and_retrieve() {
    let mut mgr: LeaseManager<u64> = LeaseManager::new(60);
    for i in 0..1000 {
        mgr.register(format!("node-{}", i), i);
    }
    assert_eq!(mgr.count(), 1000);

    for i in 0..1000 {
        assert_eq!(mgr.get(&format!("node-{}", i)), Some(i));
    }
}

// ---------------------------------------------------------------------------
// DataServerManager
// ---------------------------------------------------------------------------

#[test]
fn test_data_server_manager_register_and_list() {
    let mut mgr = DataServerManager::new(30);

    let n1 = DataNode::new("10.0.0.1:9621", "dc1", "c1");
    let n2 = DataNode::new("10.0.0.2:9621", "dc1", "c1");

    assert!(mgr.register(n1));
    assert!(mgr.register(n2));
    assert_eq!(mgr.count(), 2);

    let mut addrs = mgr.get_data_server_addresses();
    addrs.sort();
    assert_eq!(addrs, vec!["10.0.0.1:9621", "10.0.0.2:9621"]);
}

#[test]
fn test_data_server_manager_renew() {
    let mut mgr = DataServerManager::new(30);
    let n1 = DataNode::new("10.0.0.1:9621", "dc1", "c1");
    mgr.register(n1);

    assert!(mgr.renew("10.0.0.1:9621"));
    assert!(!mgr.renew("unknown"));
}

#[test]
fn test_data_server_manager_contains() {
    let mut mgr = DataServerManager::new(30);
    let n1 = DataNode::new("10.0.0.1:9621", "dc1", "c1");
    mgr.register(n1);

    assert!(mgr.contains("10.0.0.1:9621"));
    assert!(!mgr.contains("10.0.0.2:9621"));
}

#[test]
fn test_data_server_manager_remove() {
    let mut mgr = DataServerManager::new(30);
    let n1 = DataNode::new("10.0.0.1:9621", "dc1", "c1");
    mgr.register(n1);

    let removed = mgr.remove("10.0.0.1:9621");
    assert!(removed.is_some());
    assert_eq!(removed.unwrap().address, "10.0.0.1:9621");
    assert_eq!(mgr.count(), 0);
}

#[test]
fn test_data_server_manager_evict_expired() {
    let mut mgr = DataServerManager::new(0);
    mgr.register_at(DataNode::new_at("10.0.0.1:9621", "dc1", "c1", 0), 0);
    mgr.register_at(DataNode::new_at("10.0.0.2:9621", "dc1", "c1", 0), 0);

    let evicted = mgr.evict_expired_at(10);
    assert_eq!(evicted.len(), 2);
    assert_eq!(mgr.count(), 0);
}

#[test]
fn test_data_server_manager_get_list_returns_node_details() {
    let mut mgr = DataServerManager::new(30);
    mgr.register(DataNode::new("10.0.0.1:9621", "dc1", "cluster-a"));

    let nodes = mgr.get_data_server_list();
    assert_eq!(nodes.len(), 1);
    assert_eq!(nodes[0].address, "10.0.0.1:9621");
    assert_eq!(nodes[0].data_center, "dc1");
    assert_eq!(nodes[0].cluster_id, "cluster-a");
}

#[test]
fn data_server_addresses_keep_registration_order() {
    let mut mgr = DataServerManager::new(30);
    mgr.register(DataNode::new("10.0.0.3:9621", "dc1", "c1"));
    mgr.register(DataNode::new("10.0.0.1:9621", "dc1", "c1"));
    mgr.register(DataNode::new("10.0.0.3:9621", "dc1", "c1"));
    assert_eq!(mgr.get_data_server_addresses(), vec!["10.0.0.3:9621", "10.0.0.1:9621"]);
}

#[test]
fn data_node_timestamp_is_given_time() {
    let n = DataNode::new_at("a:1", "dc", "c", 1234);
    assert_eq!(n.registered_timestamp, 1234);
    let now = DataNode::new("a:1", "dc", "c");
    assert!(now.registered_timestamp > 0);
}

// ---------------------------------------------------------------------------
// SessionServerManager
// ---------------------------------------------------------------------------

#[test]
fn test_session_server_manager_register_and_list() {
    let mut mgr = SessionServerManager::new(30);

    let n1 = SessionNode::new("10.0.0.1:9601", "dc1", "c1");
    let n2 = SessionNode::new("10.0.0.2:9601", "dc1", "c1");

    assert!(mgr.register(n1));
    assert!(mgr.register(n2));
    assert_eq!(mgr.count(), 2);

    let mut addrs = mgr.get_session_server_addresses();
    addrs.sort();
    assert_eq!(addrs, vec!["10.0.0.1:9601", "10.0.0.2:9601"]);
}

#[test]
fn test_session_server_manager_renew() {
    let mut mgr = SessionServerManager::new(30);
    let n1 = SessionNode::new("10.0.0.1:9601", "dc1", "c1");
    mgr.register(n1);

    assert!(mgr.renew("10.0.0.1:9601"));
    assert!(!mgr.renew("unknown-addr"));
}

#[test]
fn test_session_server_manager_contains() {
    let mut mgr = SessionServerManager::new(30);
    mgr.register(SessionNode::new("10.0.0.1:9601", "dc1", "c1"));

    assert!(mgr.contains("10.0.0.1:9601"));
    assert!(!mgr.contains("nope"));
}

#[test]
fn test_session_server_manager_evict_expired() {
    let mut mgr = SessionServerManager::new(0);
    mgr.register_at(SessionNode::new_at("10.0.0.1:9601", "dc1", "c1", 0), 0);

    let evicted = mgr.evict_expired_at(10);
    assert_eq!(evicted.len(), 1);
    assert_eq!(evicted[0].address, "10.0.0.1:9601");
    assert_eq!(mgr.count(), 0);
}

#[test]
fn test_session_server_manager_get_list_returns_node_details() {
    let mut mgr = SessionServerManager::new(30);
    mgr.register(SessionNode::new("10.0.0.1:9601", "dc1", "cluster-b"));

    let nodes = mgr.get_session_server_list();
    assert_eq!(nodes.len(), 1);
    assert_eq!(nodes[0].address, "10.0.0.1:9601");
    assert_eq!(nodes[0].data_center, "dc1");
    assert_eq!(nodes[0].cluster_id, "cluster-b");
}

#[test]
fn every_observer_is_told_once_per_event() {
    let mut mgr: LeaseManager<String> = LeaseManager::new(30);
    let a = Arc::new(CountingObserver::new());
    let b = Arc::new(CountingObserver::new());
    mgr.add_observer(a.clone());
    mgr.add_observer(b.clone());
    mgr.register_at("n1".into(), "d1".into(), 0);
    mgr.register_at("n1".into(), "d1b".into(), 5);
    assert!(!mgr.renew_at("missing", 6));
    assert!(mgr.renew_at("n1", 7));
    mgr.evict_expired_at(100_000);
    for o in [&a, &b] {
        assert_eq!(o.registered.load(Ordering::Relaxed), 2);
        assert_eq!(o.renewed.load(Ordering::Relaxed), 1);
        assert_eq!(o.evicted.load(Ordering::Relaxed), 1);
    }
}
