use hybridconsensus::sharding::{Shard, ShardManager};

fn sorted_shards(manager: &ShardManager) -> Vec<Shard> {
    let mut all = manager.get_all_shards().unwrap();
    all.sort_by_key(|s| s.id);
    all
}

#[test]
fn test_shard_manager() {
    let mut manager = ShardManager::new(10);

    // Add nodes
    manager.add_node("node1".to_string()).unwrap();
    manager.add_node("node2".to_string()).unwrap();
    manager.add_node("node3".to_string()).unwrap();

    // Check shard assignment
    let shard = manager.get_shard_for_data(100).unwrap();
    assert_eq!(shard.node_ids.len(), 3);

    // Remove a node
    manager.remove_node("node2").unwrap();

    // Check shard reassignment
    let shard = manager.get_shard_for_data(100).unwrap();
    assert_eq!(shard.node_ids.len(), 2);

    // Get all shards
    let all_shards = manager.get_all_shards().unwrap();
    assert_eq!(all_shards.len(), 10);
}

#[test]
fn shards_are_served_by_the_first_three_nodes() {
    let mut manager = ShardManager::new(4);
    for name in ["a", "b", "c", "d", "e"] {
        manager.add_node(name.to_string()).unwrap();
    }
    let all = sorted_shards(&manager);
    assert_eq!(all.len(), 4);
    for (i, shard) in all.iter().enumerate() {
        assert_eq!(shard.id, i as u64);
        assert_eq!(shard.node_ids, vec!["a".to_string(), "b".to_string(), "c".to_string()]);
    }
    assert_eq!(
        manager.get_nodes_for_shard(2).unwrap(),
        vec!["a".to_string(), "b".to_string(), "c".to_string()]
    );
}

#[test]
fn shard_ranges_use_wrapping_arithmetic() {
    let mut manager = ShardManager::new(10);
    manager.add_node("n".to_string()).unwrap();
    let size: u64 = u64::MAX / 10 + 1;
    let all = sorted_shards(&manager);
    assert_eq!(all[0].data_range, (0, size));
    assert_eq!(all[3].data_range, (3 * size, 4 * size));
    // The upper bound of the last range wraps around.
    assert_eq!(all[9].data_range, (9 * size, 10u64.wrapping_mul(size)));
    assert_eq!(10u64.wrapping_mul(size), 4);
}

#[test]
fn lookups_find_the_range_of_the_identifier() {
    let mut manager = ShardManager::new(10);
    manager.add_node("n".to_string()).unwrap();
    let size: u64 = u64::MAX / 10 + 1;
    assert_eq!(manager.get_shard_for_data(100).unwrap().id, 0);
    assert_eq!(manager.get_shard_for_data(size - 1).unwrap().id, 0);
    assert_eq!(manager.get_shard_for_data(size).unwrap().id, 1);
    assert_eq!(manager.get_shard_for_data(5 * size + 7).unwrap().id, 5);
    assert_eq!(manager.get_shard_for_data(9 * size - 1).unwrap().id, 8);
    // Identifiers from nine widths on fall in the last, empty range.
    assert!(manager.get_shard_for_data(9 * size).is_err());
    assert!(manager.get_shard_for_data(u64::MAX).is_err());
}

#[test]
fn a_single_shard_has_an_empty_range() {
    let mut manager = ShardManager::new(1);
    manager.add_node("n".to_string()).unwrap();
    let all = manager.get_all_shards().unwrap();
    assert_eq!(all.len(), 1);
    assert_eq!(all[0].data_range, (0, 0));
    let err = manager.get_shard_for_data(0).unwrap_err();
    assert_eq!(format!("{:?}", err), "ConsensusError(\"No shard found for the given data ID\")");
}

#[test]
fn lookups_fail_without_shards() {
    let manager = ShardManager::new(3);
    assert!(manager.get_shard_for_data(5).is_err());
    let err = manager.get_nodes_for_shard(0).unwrap_err();
    assert_eq!(format!("{:?}", err), "ConsensusError(\"Shard not found\")");
    assert_eq!(manager.get_all_shards().unwrap().len(), 0);
}

#[test]
fn removing_the_last_node_keeps_the_shards() {
    let mut manager = ShardManager::new(2);
    manager.add_node("x".to_string()).unwrap();
    manager.remove_node("x").unwrap();
    let all = sorted_shards(&manager);
    assert_eq!(all.len(), 2);
    assert_eq!(all[0].node_ids, vec!["x".to_string()]);
}

#[test]
fn removing_a_node_drops_every_occurrence() {
    let mut manager = ShardManager::new(2);
    for name in ["a", "b", "a", "c"] {
        manager.add_node(name.to_string()).unwrap();
    }
    manager.remove_node("a").unwrap();
    assert_eq!(manager.get_nodes_for_shard(1).unwrap(), vec!["b".to_string(), "c".to_string()]);
}

#[test]
fn update_shard_replaces_or_adds() {
    let mut manager = ShardManager::new(2);
    manager.add_node("x".to_string()).unwrap();
    manager
        .update_shard(Shard { id: 1, node_ids: vec!["y".to_string()], data_range: (u64::MAX - 1, u64::MAX) })
        .unwrap();
    manager
        .update_shard(Shard { id: 7, node_ids: vec![], data_range: (0, 1) })
        .unwrap();
    let all = sorted_shards(&manager);
    assert_eq!(all.len(), 3);
    assert_eq!(all[1].node_ids, vec!["y".to_string()]);
    assert_eq!(all[2].id, 7);
    // Shards 0 and 7 both hold identifier 0; either may be returned.
    let found = manager.get_shard_for_data(0).unwrap();
    assert!(found.id == 0 || found.id == 7);
    assert_eq!(manager.get_shard_for_data(u64::MAX - 1).unwrap().id, 1);
    assert_eq!(manager.get_nodes_for_shard(7).unwrap().len(), 0);
}
