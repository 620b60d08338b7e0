use game_core::ecs::entity::Entity;
use game_core::logistics::Networks;

fn ent(id: u32) -> Entity {
    Entity { id, generation: 1 }
}

#[test]
fn track_entity_links_in_range_entities() {
    let mut n = Networks::new();
    assert!(!n.is_tracked(ent(1)));
    n.track_entity(ent(1), vec![ent(1)]);
    n.track_entity(ent(2), vec![ent(1), ent(2), ent(2)]);
    assert!(n.is_tracked(ent(1)));
    assert!(n.is_tracked(ent(2)));
    assert!(!n.is_tracked(ent(3)));
    let pairs = n.edge_pairs();
    assert!(pairs.contains(&(ent(1), ent(1))));
    assert!(pairs.contains(&(ent(2), ent(1))));
    assert!(pairs.contains(&(ent(2), ent(2))));
    assert!(!pairs.contains(&(ent(1), ent(2))));
    assert_eq!(pairs.len(), 3);
    assert_eq!(pairs.iter().filter(|p| **p == (ent(2), ent(2))).count(), 1);
}

#[test]
fn new_network_has_no_edges() {
    let n = Networks::new();
    assert!(n.edge_pairs().is_empty());
}
