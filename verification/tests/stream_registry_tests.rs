use sofa_registry::stream_registry::{after_push, push_targets, SendOutcome, StreamRegistry};

#[test]
fn register_get_and_replace() {
    let mut r: StreamRegistry<u32> = StreamRegistry::new();
    assert_eq!(r.count(), 0);
    r.register("c1", 1);
    r.register("c2", 2);
    r.register("c1", 10);
    assert_eq!(r.count(), 2);
    assert_eq!(r.get("c1"), Some(10));
    assert_eq!(r.get("c2"), Some(2));
    assert_eq!(r.get("c3"), None);
    assert_eq!(r.active_client_ids(), vec!["c1".to_string(), "c2".to_string()]);
}

#[test]
fn unregister_removes_only_that_client() {
    let mut r: StreamRegistry<u32> = StreamRegistry::default();
    r.register("a", 1);
    r.register("b", 2);
    r.unregister("a");
    r.unregister("missing");
    assert_eq!(r.count(), 1);
    assert_eq!(r.get("a"), None);
    assert_eq!(r.active_client_ids(), vec!["b".to_string()]);
}

#[test]
fn push_goes_to_registered_clients_only() {
    let mut r: StreamRegistry<u32> = StreamRegistry::new();
    r.register("a", 1);
    r.register("c", 3);
    let ids = vec!["a".to_string(), "b".to_string(), "c".to_string()];
    let t = push_targets(&r, &ids);
    assert_eq!(t, vec![("a".to_string(), 1), ("c".to_string(), 3)]);
}

#[test]
fn closed_stream_leaves_after_push() {
    let mut r: StreamRegistry<u32> = StreamRegistry::new();
    r.register("a", 1);
    r.register("b", 2);
    after_push(&mut r, "a", SendOutcome::Full);
    after_push(&mut r, "b", SendOutcome::Sent);
    assert_eq!(r.count(), 2);
    after_push(&mut r, "a", SendOutcome::Closed);
    assert_eq!(r.active_client_ids(), vec!["b".to_string()]);
}
