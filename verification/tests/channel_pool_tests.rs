use sofa_registry::channel_pool::{after_call, endpoint_uri, CallOutcome, ChannelPool};

#[test]
fn new_pool_defaults() {
    let p: ChannelPool<u32> = ChannelPool::new();
    assert_eq!(p.connection_count(), 0);
    assert_eq!(p.connect_timeout_ms(), 5000);
    assert_eq!(p.request_timeout_ms(), 10000);
    let q: ChannelPool<u32> = ChannelPool::with_timeouts(1, 2);
    assert_eq!(q.connect_timeout_ms(), 1);
    assert_eq!(q.request_timeout_ms(), 2);
}

#[test]
fn lookup_touches_and_returns_channel() {
    let mut p: ChannelPool<u32> = ChannelPool::new();
    assert_eq!(p.lookup_at("a", 0), None);
    p.insert_at("a".to_string(), 7, 0);
    p.insert_at("b".to_string(), 8, 0);
    assert_eq!(p.lookup_at("a", 100), Some(7));
    p.evict_oldest();
    assert_eq!(p.connected_addresses(), vec!["a".to_string()]);
}

#[test]
fn insert_replaces_same_address() {
    let mut p: ChannelPool<u32> = ChannelPool::new();
    p.insert_at("a".to_string(), 1, 0);
    p.insert_at("a".to_string(), 2, 5);
    assert_eq!(p.connection_count(), 1);
    assert_eq!(p.lookup_at("a", 6), Some(2));
}

#[test]
fn idle_channels_are_evicted() {
    let mut p: ChannelPool<u32> = ChannelPool::new();
    p.insert_at("old".to_string(), 1, 0);
    p.insert_at("new".to_string(), 2, 250_000);
    p.evict_idle_at(300_000);
    assert_eq!(p.connected_addresses(), vec!["old".to_string(), "new".to_string()]);
    p.evict_idle_at(300_001);
    assert_eq!(p.connected_addresses(), vec!["new".to_string()]);
}

#[test]
fn make_room_evicts_least_recently_used_when_full() {
    let mut p: ChannelPool<u32> = ChannelPool::new();
    for i in 0..256u32 {
        p.insert_at(format!("h{}", i), i, 1_000 + i as i64);
    }
    assert_eq!(p.lookup_at("h0", 2_000), Some(0));
    p.make_room_at(2_000);
    assert_eq!(p.connection_count(), 255);
    assert_eq!(p.lookup_at("h1", 2_001), None);
    assert_eq!(p.lookup_at("h0", 2_001), Some(0));
}

#[test]
fn remove_and_clear() {
    let mut p: ChannelPool<u32> = ChannelPool::new();
    p.insert_at("a".to_string(), 1, 0);
    p.insert_at("b".to_string(), 2, 0);
    p.remove_channel("a");
    p.remove_channel("zzz");
    assert_eq!(p.connected_addresses(), vec!["b".to_string()]);
    p.clear();
    assert_eq!(p.connection_count(), 0);
}

#[test]
fn endpoint_is_http() {
    assert_eq!(endpoint_uri("10.0.0.1:9621"), "http://10.0.0.1:9621");
}

#[test]
fn clock_forms_use_the_pool_clock() {
    let mut p: ChannelPool<u32> = ChannelPool::new();
    assert_eq!(p.lookup("a"), None);
    p.make_room();
    p.insert("a".to_string(), 7);
    p.insert("b".to_string(), 8);
    assert_eq!(p.lookup("a"), Some(7));
    p.evict_idle();
    assert_eq!(p.connection_count(), 2);
    p.insert("a".to_string(), 9);
    assert_eq!(p.lookup("a"), Some(9));
    assert_eq!(p.connected_addresses(), vec!["a".to_string(), "b".to_string()]);
}

#[test]
fn failed_calls_drop_the_channel() {
    let mut p: ChannelPool<u32> = ChannelPool::new();
    p.insert_at("a".to_string(), 1, 0);
    p.insert_at("b".to_string(), 2, 0);
    after_call(&mut p, "a", CallOutcome::Answered);
    assert_eq!(p.connection_count(), 2);
    after_call(&mut p, "a", CallOutcome::CallFailed);
    assert_eq!(p.connected_addresses(), vec!["b".to_string()]);
    after_call(&mut p, "missing", CallOutcome::ConnectFailed);
    assert_eq!(p.connection_count(), 1);
    after_call(&mut p, "b", CallOutcome::ConnectFailed);
    assert_eq!(p.connection_count(), 0);
}
