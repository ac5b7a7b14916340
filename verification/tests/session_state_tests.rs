use sofa_registry::connection_service::ConnectionService;
use sofa_registry::model::DatumVersion;
use sofa_registry::session_cache::SessionCacheService;

#[test]
fn cache_without_version_is_stale() {
    let cache = SessionCacheService::new();
    assert!(cache.get_version("a").is_none());
    assert!(cache.is_stale("a", &DatumVersion { value: 0 }));
}

#[test]
fn cache_stale_only_for_newer_versions() {
    let mut cache = SessionCacheService::default();
    cache.update_version("a", DatumVersion { value: 5 });
    assert_eq!(cache.get_version("a"), Some(DatumVersion { value: 5 }));
    assert!(!cache.is_stale("a", &DatumVersion { value: 5 }));
    assert!(!cache.is_stale("a", &DatumVersion { value: 4 }));
    assert!(cache.is_stale("a", &DatumVersion { value: 6 }));
    assert!(cache.is_stale("b", &DatumVersion { value: 1 }));
    cache.update_version("a", DatumVersion { value: 2 });
    assert_eq!(cache.get_version("a"), Some(DatumVersion { value: 2 }));
}

#[test]
fn connect_and_disconnect() {
    let mut svc = ConnectionService::new();
    svc.connect_at("c1".to_string(), "10.0.0.1:1-h:2".to_string(), 100);
    assert!(svc.is_connected("c1"));
    assert_eq!(svc.count(), 1);
    let info = svc.get("c1").unwrap();
    assert_eq!(info.address, "10.0.0.1:1-h:2");
    assert_eq!(info.connected_at, 100);
    assert_eq!(info.last_heartbeat, 100);
    let gone = svc.disconnect("c1").unwrap();
    assert_eq!(gone.client_id, "c1");
    assert!(!svc.is_connected("c1"));
    assert!(svc.disconnect("c1").is_none());
}

#[test]
fn reconnect_replaces_connection() {
    let mut svc = ConnectionService::default();
    svc.connect_at("c1".to_string(), "a".to_string(), 1);
    svc.connect_at("c2".to_string(), "b".to_string(), 2);
    svc.connect_at("c1".to_string(), "c".to_string(), 3);
    assert_eq!(svc.count(), 2);
    let all = svc.get_all();
    assert_eq!(all[0].client_id, "c1");
    assert_eq!(all[0].address, "c");
    assert_eq!(all[1].client_id, "c2");
}

#[test]
fn heartbeat_keeps_connection_alive() {
    let mut svc = ConnectionService::new();
    svc.connect_at("c1".to_string(), "a".to_string(), 0);
    svc.connect_at("c2".to_string(), "b".to_string(), 0);
    svc.touch_heartbeat_at("c1", 50_000);
    svc.touch_heartbeat_at("missing", 50_000);
    assert_eq!(svc.get("c1").unwrap().connected_at, 0);
    assert_eq!(svc.get("c1").unwrap().last_heartbeat, 50_000);
    let evicted = svc.evict_idle_at(30, 60_000);
    assert_eq!(evicted, vec!["c2".to_string()]);
    assert!(svc.is_connected("c1"));
    assert_eq!(svc.count(), 1);
}

#[test]
fn idle_cutoff_is_strict() {
    let mut svc = ConnectionService::new();
    svc.connect_at("c1".to_string(), "a".to_string(), 30_000);
    assert!(svc.evict_idle_at(30, 60_000).is_empty());
    assert_eq!(svc.evict_idle_at(30, 60_001), vec!["c1".to_string()]);
}

#[test]
fn cutoff_saturates_at_earliest_time() {
    let mut svc = ConnectionService::new();
    svc.connect_at("c1".to_string(), "a".to_string(), i64::MIN);
    assert!(svc.evict_idle_at(10, i64::MIN + 5).is_empty());
    assert!(svc.is_connected("c1"));
}

#[test]
fn live_clock_connection_is_fresh() {
    let mut svc = ConnectionService::new();
    svc.connect("c1".to_string(), "a".to_string());
    svc.touch_heartbeat("c1");
    assert!(svc.evict_idle(60).is_empty());
    assert!(svc.is_connected("c1"));
}

#[test]
fn eviction_splits_clients_by_last_heartbeat() {
    let mut svc = ConnectionService::new();
    svc.connect_at("a".to_string(), "x".to_string(), 0);
    svc.connect_at("b".to_string(), "y".to_string(), 20_000);
    svc.connect_at("c".to_string(), "z".to_string(), 5_000);
    svc.touch_heartbeat_at("c", 31_000);
    let evicted = svc.evict_idle_at(10, 30_000);
    assert_eq!(evicted, vec!["a".to_string()]);
    assert_eq!(svc.count() + evicted.len(), 3);
    assert!(!svc.is_connected("a"));
    let b = svc.get("b").unwrap();
    assert_eq!((b.connected_at, b.last_heartbeat), (20_000, 20_000));
    let c = svc.get("c").unwrap();
    assert_eq!((c.connected_at, c.last_heartbeat), (5_000, 31_000));
}
