use std::collections::HashSet;

use sofa_registry::data_server_manager::{DataNode, DataServerManager};
use sofa_registry::meta_slot_manager::{MetaSlotManager, SlotConfig};
use sofa_registry::slot_allocator::SlotAllocator;
use sofa_registry::slot_table::{Slot, SlotTable};

fn s(x: &str) -> String {
    x.to_string()
}

// ---------------------------------------------------------------------------
// SlotAllocator::allocate - basic
// ---------------------------------------------------------------------------

#[test]
fn test_allocate_empty_servers_returns_none() {
    let servers: Vec<String> = vec![];
    assert!(SlotAllocator::allocate(256, 2, &servers, 1).is_none());
}

#[test]
fn test_allocate_single_server_all_slots_same_leader() {
    let servers = vec!["s1".to_string()];
    let table = SlotAllocator::allocate(256, 2, &servers, 1).unwrap();

    assert_eq!(table.slot_count(), 256);
    assert_eq!(table.epoch, 1);

    for slot in table.slots.iter() {
        assert_eq!(slot.leader, "s1");
        assert!(slot.followers.is_empty());
    }
}

#[test]
fn test_allocate_two_servers_balanced() {
    let servers = vec!["a".to_string(), "b".to_string()];
    let table = SlotAllocator::allocate(256, 2, &servers, 1).unwrap();

    assert_eq!(table.slot_count(), 256);
    assert_eq!(table.get_leader_count("a"), 128);
    assert_eq!(table.get_leader_count("b"), 128);
}

#[test]
fn test_allocate_three_servers_balanced() {
    let servers = vec!["s1".to_string(), "s2".to_string(), "s3".to_string()];
    let table = SlotAllocator::allocate(256, 2, &servers, 1).unwrap();

    let stats = SlotAllocator::get_distribution_stats(&table);
    for e in stats.entries.iter() {
        assert!(e.leaders >= 85 && e.leaders <= 86, "Unbalanced: got {} leaders", e.leaders);
    }
}

#[test]
fn test_allocate_preserves_epoch() {
    let servers = vec!["x".to_string()];
    let table = SlotAllocator::allocate(10, 1, &servers, 42).unwrap();
    assert_eq!(table.epoch, 42);
}

#[test]
fn test_allocate_slot_count_matches_requested() {
    let servers = vec!["a".to_string(), "b".to_string()];
    for num in [1u32, 10, 100, 256, 512] {
        let table = SlotAllocator::allocate(num, 2, &servers, 1).unwrap();
        assert_eq!(table.slot_count(), num as usize);
    }
}

// ---------------------------------------------------------------------------
// Follower allocation
// ---------------------------------------------------------------------------

#[test]
fn test_allocate_two_servers_with_replicas() {
    let servers = vec!["a".to_string(), "b".to_string()];
    let table = SlotAllocator::allocate(10, 2, &servers, 1).unwrap();
    for slot in table.slots.iter() {
        assert_eq!(slot.followers.len(), 1, "Slot {} expected 1 follower", slot.id);
        assert!(!slot.followers.contains(&slot.leader));
    }
}

#[test]
fn test_allocate_three_servers_with_three_replicas() {
    let servers = vec!["a".to_string(), "b".to_string(), "c".to_string()];
    let table = SlotAllocator::allocate(10, 3, &servers, 1).unwrap();
    for slot in table.slots.iter() {
        assert_eq!(slot.followers.len(), 2, "Slot {} expected 2 followers", slot.id);
        assert!(!slot.followers.contains(&slot.leader));
    }
}

#[test]
fn test_allocate_replicas_capped_at_server_count() {
    let servers = vec!["a".to_string(), "b".to_string()];
    let table = SlotAllocator::allocate(10, 5, &servers, 1).unwrap();
    for slot in table.slots.iter() {
        assert!(slot.followers.len() <= 1, "Slot {} has too many followers", slot.id);
        assert!(!slot.followers.contains(&slot.leader));
    }
}

#[test]
fn test_allocate_replica_one_means_no_followers() {
    let servers = vec!["a".to_string(), "b".to_string(), "c".to_string()];
    let table = SlotAllocator::allocate(10, 1, &servers, 1).unwrap();
    for slot in table.slots.iter() {
        assert!(slot.followers.is_empty(), "Slot {} should have no followers", slot.id);
    }
}

// ---------------------------------------------------------------------------
// Leader uniqueness and round-robin
// ---------------------------------------------------------------------------

#[test]
fn test_allocate_round_robin_leaders() {
    let servers = vec!["s0".to_string(), "s1".to_string(), "s2".to_string()];
    let table = SlotAllocator::allocate(9, 1, &servers, 1).unwrap();
    for slot in table.slots.iter() {
        let expected_idx = slot.id as usize % 3;
        assert_eq!(slot.leader, servers[expected_idx]);
    }
}

#[test]
fn test_allocate_each_slot_has_unique_id() {
    let servers = vec!["a".to_string()];
    let table = SlotAllocator::allocate(256, 1, &servers, 1).unwrap();
    let ids: HashSet<u32> = table.slots.iter().map(|slot| slot.id).collect();
    assert_eq!(ids.len(), 256);
    for i in 0..256u32 {
        assert!(ids.contains(&i), "Missing slot id {}", i);
    }
}

// ---------------------------------------------------------------------------
// Distribution stats
// ---------------------------------------------------------------------------

#[test]
fn test_distribution_stats_single_server() {
    let servers = vec!["only".to_string()];
    let table = SlotAllocator::allocate(100, 1, &servers, 1).unwrap();
    let stats = SlotAllocator::get_distribution_stats(&table);
    assert_eq!(stats.len(), 1);
    assert_eq!(stats.get("only"), Some((100, 0)));
}

#[test]
fn test_distribution_stats_leader_and_follower_counts() {
    let servers = vec!["a".to_string(), "b".to_string()];
    let table = SlotAllocator::allocate(100, 2, &servers, 1).unwrap();
    let stats = SlotAllocator::get_distribution_stats(&table);
    assert_eq!(stats.get("a").unwrap().0, 50);
    assert_eq!(stats.get("b").unwrap().0, 50);
    assert_eq!(stats.get("a").unwrap().1, 50);
    assert_eq!(stats.get("b").unwrap().1, 50);
}

#[test]
fn test_distribution_stats_all_servers_present() {
    let servers: Vec<String> = (0..5).map(|i| format!("s{}", i)).collect();
    let table = SlotAllocator::allocate(256, 2, &servers, 1).unwrap();
    let stats = SlotAllocator::get_distribution_stats(&table);
    assert_eq!(stats.len(), 5);
}

// ---------------------------------------------------------------------------
// Rebalance
// ---------------------------------------------------------------------------

#[test]
fn test_rebalance_empty_servers_returns_none() {
    let servers = vec!["a".to_string()];
    let table = SlotAllocator::allocate(10, 1, &servers, 1).unwrap();
    assert!(SlotAllocator::rebalance(&table, &[], 1).is_none());
}

#[test]
fn test_rebalance_same_servers_returns_none() {
    let servers = vec!["a".to_string(), "b".to_string()];
    let table = SlotAllocator::allocate(256, 2, &servers, 1).unwrap();
    assert!(SlotAllocator::rebalance(&table, &servers, 2).is_none());
}

#[test]
fn test_rebalance_same_servers_different_order_returns_none() {
    let servers = vec!["b".to_string(), "a".to_string()];
    let table =
        SlotAllocator::allocate(256, 2, &vec!["a".to_string(), "b".to_string()], 1).unwrap();
    assert!(SlotAllocator::rebalance(&table, &servers, 2).is_none());
}

#[test]
fn test_rebalance_add_server_increments_epoch() {
    let servers = vec!["a".to_string(), "b".to_string()];
    let table = SlotAllocator::allocate(256, 2, &servers, 1).unwrap();
    assert_eq!(table.epoch, 1);
    let new_servers = vec!["a".to_string(), "b".to_string(), "c".to_string()];
    let new_table = SlotAllocator::rebalance(&table, &new_servers, 2).unwrap();
    assert_eq!(new_table.epoch, 2);
    assert_eq!(new_table.slot_count(), 256);
}

#[test]
fn test_rebalance_add_server_includes_new_server() {
    let servers = vec!["a".to_string(), "b".to_string()];
    let table = SlotAllocator::allocate(256, 2, &servers, 1).unwrap();
    let new_servers = vec!["a".to_string(), "b".to_string(), "c".to_string()];
    let new_table = SlotAllocator::rebalance(&table, &new_servers, 2).unwrap();
    let all_servers = new_table.get_data_servers();
    assert_eq!(all_servers.len(), 3);
    assert!(all_servers.contains(&s("c")));
}

#[test]
fn test_rebalance_remove_server() {
    let servers = vec!["a".to_string(), "b".to_string(), "c".to_string()];
    let table = SlotAllocator::allocate(256, 2, &servers, 1).unwrap();
    let new_servers = vec!["a".to_string(), "b".to_string()];
    let new_table = SlotAllocator::rebalance(&table, &new_servers, 2).unwrap();
    assert_eq!(new_table.epoch, 2);
    let all_servers = new_table.get_data_servers();
    assert!(!all_servers.contains(&s("c")));
    assert_eq!(all_servers.len(), 2);
}

#[test]
fn test_rebalance_preserves_slot_count() {
    let servers = vec!["a".to_string(), "b".to_string()];
    let table = SlotAllocator::allocate(128, 2, &servers, 5).unwrap();
    let new_servers = vec!["a".to_string(), "b".to_string(), "c".to_string(), "d".to_string()];
    let new_table = SlotAllocator::rebalance(&table, &new_servers, 2).unwrap();
    assert_eq!(new_table.slot_count(), 128);
}

// ---------------------------------------------------------------------------
// Edge cases
// ---------------------------------------------------------------------------

#[test]
fn test_allocate_one_slot() {
    let servers = vec!["a".to_string(), "b".to_string()];
    let table = SlotAllocator::allocate(1, 2, &servers, 1).unwrap();
    assert_eq!(table.slot_count(), 1);
    let slot = table.get_slot(0).unwrap();
    assert_eq!(slot.leader, "a");
    assert_eq!(slot.followers.len(), 1);
    assert!(slot.followers.contains(&s("b")));
}

#[test]
fn test_allocate_many_servers_few_slots() {
    let servers: Vec<String> = (0..100).map(|i| format!("server-{}", i)).collect();
    let table = SlotAllocator::allocate(3, 2, &servers, 1).unwrap();
    assert_eq!(table.slot_count(), 3);
    assert_eq!(table.get_slot(0).unwrap().leader, "server-0");
    assert_eq!(table.get_slot(1).unwrap().leader, "server-1");
    assert_eq!(table.get_slot(2).unwrap().leader, "server-2");
}

#[test]
fn test_allocate_large_slot_count() {
    let servers = vec!["a".to_string(), "b".to_string(), "c".to_string()];
    let table = SlotAllocator::allocate(1024, 3, &servers, 1).unwrap();
    assert_eq!(table.slot_count(), 1024);
    let stats = SlotAllocator::get_distribution_stats(&table);
    for e in stats.entries.iter() {
        assert!(e.leaders >= 341 && e.leaders <= 342, "Unbalanced: {} leaders", e.leaders);
    }
}

// ---------------------------------------------------------------------------
// SlotTable helper methods verification
// ---------------------------------------------------------------------------

#[test]
fn test_slot_table_get_data_servers() {
    let servers = vec!["a".to_string(), "b".to_string(), "c".to_string()];
    let table = SlotAllocator::allocate(10, 2, &servers, 1).unwrap();
    let data_servers = table.get_data_servers();
    assert_eq!(data_servers.len(), 3);
    assert!(data_servers.contains(&s("a")));
    assert!(data_servers.contains(&s("b")));
    assert!(data_servers.contains(&s("c")));
}

#[test]
fn test_slot_table_filter_by_server() {
    let servers = vec!["a".to_string(), "b".to_string()];
    let table = SlotAllocator::allocate(256, 2, &servers, 1).unwrap();
    let filtered = table.filter_by_server("a");
    assert_eq!(filtered.slot_count(), 256);
}

#[test]
fn test_slot_table_is_empty() {
    let empty = SlotTable::new_empty();
    assert!(empty.is_empty());
    let servers = vec!["a".to_string()];
    let non_empty = SlotAllocator::allocate(1, 1, &servers, 1).unwrap();
    assert!(!non_empty.is_empty());
}

// ---------------------------------------------------------------------------
// MetaSlotManager integration
// ---------------------------------------------------------------------------

#[test]
fn test_slot_manager_initial_assignment() {
    let mut data_mgr = DataServerManager::new(30);
    data_mgr.register(DataNode::new("10.0.0.1:9621", "dc1", "c1"));
    data_mgr.register(DataNode::new("10.0.0.2:9621", "dc1", "c1"));

    let mut slot_mgr = MetaSlotManager::new(SlotConfig::default());

    assert!(slot_mgr.get_slot_table().is_empty());
    assert!(slot_mgr.try_assign_or_rebalance(&data_mgr));
    assert!(!slot_mgr.get_slot_table().is_empty());
    assert_eq!(slot_mgr.get_slot_table().slot_count(), 256);
    assert_eq!(slot_mgr.get_epoch(), 1);
}

#[test]
fn test_slot_manager_no_servers_returns_false() {
    let data_mgr = DataServerManager::new(30);
    let mut slot_mgr = MetaSlotManager::new(SlotConfig::default());
    assert!(!slot_mgr.try_assign_or_rebalance(&data_mgr));
    assert!(slot_mgr.get_slot_table().is_empty());
}

#[test]
fn test_slot_manager_rebalance_on_server_change() {
    let mut data_mgr = DataServerManager::new(30);
    data_mgr.register(DataNode::new("s1", "dc1", "c1"));
    data_mgr.register(DataNode::new("s2", "dc1", "c1"));

    let mut slot_mgr = MetaSlotManager::new(SlotConfig::default());

    assert!(slot_mgr.try_assign_or_rebalance(&data_mgr));
    assert_eq!(slot_mgr.get_epoch(), 1);

    assert!(!slot_mgr.try_assign_or_rebalance(&data_mgr));
    assert_eq!(slot_mgr.get_epoch(), 1);

    data_mgr.register(DataNode::new("s3", "dc1", "c1"));
    assert!(slot_mgr.try_assign_or_rebalance(&data_mgr));
    assert_eq!(slot_mgr.get_epoch(), 2);
}

#[test]
fn test_slot_manager_needs_rebalance() {
    let mut data_mgr = DataServerManager::new(30);
    let mut slot_mgr = MetaSlotManager::new(SlotConfig::default());

    assert!(!slot_mgr.needs_rebalance(&data_mgr));

    data_mgr.register(DataNode::new("s1", "dc1", "c1"));
    assert!(slot_mgr.needs_rebalance(&data_mgr));

    slot_mgr.try_assign_or_rebalance(&data_mgr);
    assert!(!slot_mgr.needs_rebalance(&data_mgr));

    data_mgr.register(DataNode::new("s2", "dc1", "c1"));
    assert!(slot_mgr.needs_rebalance(&data_mgr));
}

#[test]
fn test_slot_manager_set_slot_table() {
    let mut slot_mgr = MetaSlotManager::new(SlotConfig::default());
    let servers = vec!["x".to_string(), "y".to_string()];
    let table = SlotAllocator::allocate(128, 2, &servers, 99).unwrap();
    slot_mgr.set_slot_table(table.clone());
    assert_eq!(slot_mgr.get_epoch(), 99);
    assert_eq!(slot_mgr.get_slot_table().slot_count(), 128);
}

#[test]
fn test_slot_manager_rebalance_after_server_removal() {
    let mut data_mgr = DataServerManager::new(30);
    data_mgr.register(DataNode::new("s1", "dc1", "c1"));
    data_mgr.register(DataNode::new("s2", "dc1", "c1"));
    data_mgr.register(DataNode::new("s3", "dc1", "c1"));

    let mut slot_mgr = MetaSlotManager::new(SlotConfig::default());
    slot_mgr.try_assign_or_rebalance(&data_mgr);
    assert_eq!(slot_mgr.get_slot_table().get_data_servers().len(), 3);

    data_mgr.remove("s3");

    assert!(slot_mgr.needs_rebalance(&data_mgr));
    assert!(slot_mgr.try_assign_or_rebalance(&data_mgr));
    assert_eq!(slot_mgr.get_epoch(), 2);
    assert_eq!(slot_mgr.get_slot_table().get_data_servers().len(), 2);
}

// ---------------------------------------------------------------------------
// Slot balance verification for various server counts
// ---------------------------------------------------------------------------

#[test]
fn test_allocate_balance_for_various_server_counts() {
    for server_count in [2usize, 3, 4, 5, 7, 10, 16] {
        let servers: Vec<String> = (0..server_count).map(|i| format!("s{}", i)).collect();
        let table = SlotAllocator::allocate(256, 2, &servers, 1).unwrap();
        let stats = SlotAllocator::get_distribution_stats(&table);
        let expected_min = 256 / server_count;
        let expected_max = expected_min + 1;
        for e in stats.entries.iter() {
            assert!(
                e.leaders >= expected_min && e.leaders <= expected_max,
                "Server {} in {}-server cluster: expected {}-{} leaders, got {}",
                e.server,
                server_count,
                expected_min,
                expected_max,
                e.leaders
            );
        }
    }
}

#[test]
fn test_follower_never_equals_leader() {
    let servers: Vec<String> = (0..5).map(|i| format!("s{}", i)).collect();
    let table = SlotAllocator::allocate(256, 3, &servers, 1).unwrap();
    for slot in table.slots.iter() {
        assert!(!slot.followers.contains(&slot.leader));
    }
}

#[test]
fn test_all_followers_are_unique_per_slot() {
    let servers: Vec<String> = (0..5).map(|i| format!("s{}", i)).collect();
    let table = SlotAllocator::allocate(256, 4, &servers, 1).unwrap();
    for slot in table.slots.iter() {
        let follower_vec: Vec<&String> = slot.followers.iter().collect();
        let follower_set: HashSet<&String> = slot.followers.iter().collect();
        assert_eq!(follower_vec.len(), follower_set.len());
    }
}

// ---------------------------------------------------------------------------
// Allocator unit tests
// ---------------------------------------------------------------------------

#[test]
fn test_allocate_single_server() {
    let servers = vec!["192.168.1.1:9621".to_string()];
    let table = SlotAllocator::allocate(256, 2, &servers, 1).unwrap();
    assert_eq!(table.slot_count(), 256);
    assert_eq!(table.epoch, 1);
    for slot in table.slots.iter() {
        assert_eq!(slot.leader, "192.168.1.1:9621");
        assert!(slot.followers.is_empty());
    }
}

#[test]
fn test_allocate_three_servers() {
    let servers = vec![
        "192.168.1.1:9621".to_string(),
        "192.168.1.2:9621".to_string(),
        "192.168.1.3:9621".to_string(),
    ];
    let table = SlotAllocator::allocate(256, 2, &servers, 1).unwrap();
    assert_eq!(table.slot_count(), 256);
    let stats = SlotAllocator::get_distribution_stats(&table);
    for e in stats.entries.iter() {
        assert!(e.leaders >= 85 && e.leaders <= 86, "Expected ~85 leaders, got {}", e.leaders);
    }
}

#[test]
fn test_allocate_empty_servers() {
    let servers: Vec<String> = vec![];
    assert!(SlotAllocator::allocate(256, 2, &servers, 1).is_none());
}

#[test]
fn test_rebalance_no_change() {
    let servers = vec!["s1".to_string(), "s2".to_string()];
    let table = SlotAllocator::allocate(256, 2, &servers, 1).unwrap();
    assert!(SlotAllocator::rebalance(&table, &servers, 2).is_none());
}

#[test]
fn test_rebalance_add_server() {
    let servers = vec!["s1".to_string(), "s2".to_string()];
    let table = SlotAllocator::allocate(256, 2, &servers, 1).unwrap();
    let new_servers = vec!["s1".to_string(), "s2".to_string(), "s3".to_string()];
    let new_table = SlotAllocator::rebalance(&table, &new_servers, 2).unwrap();
    assert_eq!(new_table.epoch, 2);
    assert_eq!(new_table.slot_count(), 256);
    assert_eq!(new_table.get_data_servers().len(), 3);
}

#[test]
fn test_initial_assignment() {
    let mut data_mgr = DataServerManager::new(30);
    data_mgr.register(DataNode::new("10.0.0.1:9621", "dc1", "c1"));
    data_mgr.register(DataNode::new("10.0.0.2:9621", "dc1", "c1"));
    let mut slot_mgr = MetaSlotManager::new(SlotConfig::default());
    assert!(slot_mgr.get_slot_table().is_empty());
    assert!(slot_mgr.try_assign_or_rebalance(&data_mgr));
    assert!(!slot_mgr.get_slot_table().is_empty());
    assert_eq!(slot_mgr.get_slot_table().slot_count(), 256);
}

// ---------------------------------------------------------------------------
// Further cases of this library
// ---------------------------------------------------------------------------

#[test]
fn rebalance_orders_servers_before_assigning_leaders() {
    let table = SlotAllocator::allocate(6, 2, &vec![s("a")], 3).unwrap();
    let new_table = SlotAllocator::rebalance(&table, &vec![s("c"), s("a"), s("b")], 2).unwrap();
    assert_eq!(new_table.epoch, 4);
    assert_eq!(new_table.get_slot(0).unwrap().leader, "a");
    assert_eq!(new_table.get_slot(1).unwrap().leader, "b");
    assert_eq!(new_table.get_slot(2).unwrap().leader, "c");
    assert_eq!(new_table.get_slot(0).unwrap().followers, vec![s("b")]);
    assert_eq!(new_table.get_slot(2).unwrap().followers, vec![s("a")]);
}

#[test]
fn get_data_servers_is_sorted_and_unique() {
    let table = SlotAllocator::allocate(8, 3, &vec![s("z"), s("m"), s("a")], 1).unwrap();
    assert_eq!(table.get_data_servers(), vec![s("a"), s("m"), s("z")]);
}

#[test]
fn duplicate_server_names_give_distinct_followers() {
    let table = SlotAllocator::allocate(2, 3, &vec![s("a"), s("a"), s("b")], 1).unwrap();
    assert_eq!(table.get_slot(0).unwrap().followers, vec![s("a"), s("b")]);
}

#[test]
fn slot_table_new_keeps_last_slot_with_same_id() {
    let t = SlotTable::new(
        7,
        vec![
            Slot::new(1, s("a"), 1),
            Slot::new(2, s("b"), 1),
            Slot::new(1, s("c"), 2),
        ],
    );
    assert_eq!(t.slot_count(), 2);
    assert_eq!(t.get_slot(1).unwrap().leader, "c");
    assert_eq!(t.get_slot(2).unwrap().leader, "b");
    assert!(t.get_slot(3).is_none());
    assert_eq!(t.get_leader_count("c"), 1);
}

#[test]
fn with_followers_drops_repeats() {
    let slot = Slot::new(0, s("a"), 1).with_followers(vec![s("b"), s("c"), s("b")]);
    assert_eq!(slot.followers, vec![s("b"), s("c")]);
    assert!(slot.is_follower("c"));
    assert!(!slot.is_follower("a"));
    assert!(slot.is_leader("a"));
}

#[test]
fn rebalance_ignores_server_order() {
    let current = SlotAllocator::allocate(8, 2, &vec!["s1".to_string()], 1).unwrap();
    let a = vec!["s3".to_string(), "s1".to_string(), "s2".to_string()];
    let b = vec!["s2".to_string(), "s3".to_string(), "s1".to_string()];
    let ra = SlotAllocator::rebalance(&current, &a, 2).unwrap();
    let rb = SlotAllocator::rebalance(&current, &b, 2).unwrap();
    assert_eq!(ra.epoch, 2);
    assert_eq!(ra.slot_count(), 8);
    assert_eq!(format!("{:?}", ra), format!("{:?}", rb));
}

#[test]
fn try_assign_or_rebalance_follows_allocate_and_rebalance() {
    let mut data_mgr = DataServerManager::new(30);
    data_mgr.register(DataNode::new("s2", "dc1", "c1"));
    data_mgr.register(DataNode::new("s1", "dc1", "c1"));
    let mut slot_mgr = MetaSlotManager::new(SlotConfig { slot_num: 6, slot_replicas: 2 });
    assert!(slot_mgr.try_assign_or_rebalance(&data_mgr));
    let first = SlotAllocator::allocate(6, 2, &data_mgr.get_data_server_addresses(), 1).unwrap();
    assert_eq!(format!("{:?}", slot_mgr.get_slot_table()), format!("{:?}", first));
    data_mgr.register(DataNode::new("s0", "dc1", "c1"));
    let expected = SlotAllocator::rebalance(&first, &data_mgr.get_data_server_addresses(), 2).unwrap();
    assert!(slot_mgr.try_assign_or_rebalance(&data_mgr));
    assert_eq!(format!("{:?}", slot_mgr.get_slot_table()), format!("{:?}", expected));
}

#[test]
fn distribution_stats_count_every_entry() {
    let table = SlotTable {
        epoch: 1,
        slots: vec![
            Slot { id: 0, leader: "a".to_string(), leader_epoch: 1, followers: vec!["b".to_string(), "b".to_string()] },
            Slot { id: 0, leader: "b".to_string(), leader_epoch: 1, followers: vec!["a".to_string()] },
        ],
    };
    let stats = SlotAllocator::get_distribution_stats(&table);
    assert_eq!(stats.get("a"), Some((1, 1)));
    assert_eq!(stats.get("b"), Some((1, 2)));
    assert_eq!(stats.get("c"), None);
}
