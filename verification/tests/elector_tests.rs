use sofa_registry::elector::{ElectionAction, ElectorRole, LeaderInfo, LockInfo, MetaLeaderElector, Notification};

fn elector(addr: &str) -> MetaLeaderElector {
    MetaLeaderElector::new(addr.to_string(), "DefaultDataCenter".to_string(), 30_000, 100)
}

fn lock(owner: &str, term: i64, expire: i64) -> LockInfo {
    LockInfo { owner: owner.to_string(), term, expire_timestamp: expire }
}

#[test]
fn initial_role_is_follower() {
    let e = elector("127.0.0.1:9611");
    assert_eq!(e.get_role(), ElectorRole::Follower);
    assert!(!e.am_i_leader());
    assert_eq!(e.myself(), "127.0.0.1:9611");
    assert_eq!(e.data_center(), "DefaultDataCenter");
    assert_eq!(e.lock_duration_ms(), 30_000);
    assert_eq!(e.election_interval_ms(), 100);
    assert_eq!(e.next_action(), ElectionAction::Compete);
}

#[test]
fn initial_leader_info_is_empty() {
    let e = elector("a");
    let info = e.get_leader_info();
    assert!(info.leader.is_none());
    assert_eq!(info.epoch, -1);
}

#[test]
fn winning_the_lock_makes_leader_once() {
    let mut e = elector("a");
    assert_eq!(e.on_compete_result(Some(lock("a", 1, 500))), Notification::BecameLeader);
    assert!(e.am_i_leader());
    assert_eq!(e.next_action(), ElectionAction::Heartbeat);
    let info = e.get_leader_info();
    assert_eq!(info.leader, Some("a".to_string()));
    assert_eq!(info.epoch, 1);
    assert_eq!(info.expire_timestamp, 500);
    assert_eq!(e.on_compete_result(Some(lock("a", 1, 900))), Notification::Nothing);
    assert!(e.am_i_leader());
}

#[test]
fn another_owner_keeps_follower() {
    let mut e = elector("a");
    assert_eq!(e.on_compete_result(Some(lock("b", 3, 10))), Notification::Nothing);
    assert_eq!(e.get_role(), ElectorRole::Follower);
    assert_eq!(e.get_leader_info().leader, Some("b".to_string()));
}

#[test]
fn no_lock_changes_nothing() {
    let mut e = elector("a");
    assert_eq!(e.on_compete_result(None), Notification::Nothing);
    assert_eq!(e.get_leader_info().epoch, -1);
}

#[test]
fn takeover_by_another_owner_demotes() {
    let mut e = elector("a");
    e.on_compete_result(Some(lock("a", 1, 10)));
    assert_eq!(e.on_compete_result(Some(lock("b", 2, 20))), Notification::LostLeadership);
    assert_eq!(e.get_role(), ElectorRole::Follower);
}

#[test]
fn failed_heartbeat_demotes() {
    let mut e = elector("a");
    e.on_compete_result(Some(lock("a", 1, 10)));
    assert_eq!(e.on_heartbeat_result(true), Notification::Nothing);
    assert!(e.am_i_leader());
    assert_eq!(e.on_heartbeat_result(false), Notification::LostLeadership);
    assert_eq!(e.get_role(), ElectorRole::Follower);
}

#[test]
fn change_to_follower_when_already_follower_is_noop() {
    let mut e = elector("a");
    assert_eq!(e.change_to_follower(), Notification::Nothing);
    assert_eq!(e.get_role(), ElectorRole::Follower);
}

#[test]
fn observer_queries_and_never_leads_by_query() {
    let mut e = elector("a");
    e.on_compete_result(Some(lock("a", 1, 10)));
    assert_eq!(e.change_to_observer(), Notification::LostLeadership);
    assert_eq!(e.next_action(), ElectionAction::Query);
    e.on_query_result(Some(lock("b", 4, 99)));
    assert_eq!(e.get_leader_info().leader, Some("b".to_string()));
    assert_eq!(e.get_role(), ElectorRole::Observer);
    e.on_query_result(None);
    assert!(e.get_leader_info().leader.is_none());
    assert_eq!(e.get_leader_info().epoch, -1);
}

#[test]
fn update_leader_info_directly() {
    let mut e = elector("a");
    let info = LeaderInfo { epoch: 7, leader: Some("a".to_string()), expire_timestamp: 1 };
    assert_eq!(e.update_leader_info(info.clone(), true), Notification::BecameLeader);
    assert_eq!(e.get_leader_info().epoch, 7);
    assert_eq!(e.update_leader_info(LeaderInfo::empty(), false), Notification::LostLeadership);
}
