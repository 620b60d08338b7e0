use game_core::ecs::components::ComponentStore;
use game_core::ecs::entity::{Entity, EntityManager};
use game_core::ecs::world::{new_component_store, World};
use std::any::TypeId;

#[test]
fn test_component_store() {
    let mut store = ComponentStore::<i32>::new(10);
    let ent1 = Entity {
        id: 1,
        generation: 0,
    };
    let ent2 = Entity {
        id: 2,
        generation: 0,
    };

    store.emplace(ent1, 42);
    store.emplace(ent2, 99);

    let comps: Vec<_> = store.iter_ent().into_iter().collect();
    assert_eq!(comps.len(), 2);
    assert_eq!(comps[0], (ent1, &42));
    assert_eq!(comps[1], (ent2, &99));

    store.remove(ent1);
    let comps: Vec<_> = store.iter_ent().into_iter().collect();
    assert_eq!(comps.len(), 1);
    assert_eq!(comps[0], (ent2, &99));
}

#[test]
fn emplace_existing_replaces_in_place() {
    let mut store = ComponentStore::<&str>::new(5);
    let a = Entity { id: 3, generation: 1 };
    let b = Entity { id: 0, generation: 1 };
    store.emplace(a, "first");
    store.emplace(b, "second");
    store.emplace(a, "third");
    assert_eq!(store.iter(), &["third", "second"]);
    let pairs = store.iter_ent();
    assert_eq!(pairs, vec![(a, &"third"), (b, &"second")]);
}

#[test]
fn remove_reports_whether_present() {
    let mut store = ComponentStore::<u8>::new(4);
    let a = Entity { id: 1, generation: 1 };
    let b = Entity { id: 2, generation: 1 };
    let c = Entity { id: 3, generation: 1 };
    assert!(!store.remove(a));
    store.emplace(a, 10);
    store.emplace(b, 20);
    store.emplace(c, 30);
    assert!(store.remove(a));
    // the last slot moves into the freed one
    assert_eq!(store.iter(), &[30, 20]);
    assert!(store.iter_ent().iter().all(|(e, _)| e.id != 1));
}

#[test]
fn new_store_is_empty() {
    let store = ComponentStore::<u64>::new(0);
    assert!(store.iter().is_empty());
    assert!(store.iter_ent().is_empty());
}

#[test]
fn none_entity_is_none() {
    assert!(Entity::none().is_none());
    assert_eq!(Entity::none(), Entity { id: 0, generation: 0 });
    assert!(!Entity { id: 0, generation: 1 }.is_none());
    assert!(!Entity { id: 5, generation: 0 }.is_none());
}

#[test]
fn manager_hands_out_fresh_ids_from_one() {
    let mut m = EntityManager::new();
    let e1 = m.get_entity();
    let e2 = m.get_entity();
    assert_eq!(e1, Entity { id: 1, generation: 1 });
    assert_eq!(e2, Entity { id: 2, generation: 1 });
    assert!(!e1.is_none());
}

#[test]
fn manager_reuses_last_returned_first() {
    let mut m = EntityManager::new();
    let e1 = m.get_entity();
    let e2 = m.get_entity();
    m.return_entity(e1);
    m.return_entity(e2);
    assert_eq!(m.get_entity(), e2);
    assert_eq!(m.get_entity(), e1);
    assert_eq!(m.get_entity(), Entity { id: 3, generation: 1 });
}

#[test]
fn world_spawns_and_registers() {
    let mut w: World<String> = World::new();
    let ed = w.spawn_entity();
    assert_eq!(ed.entity(), Entity { id: 1, generation: 1 });
    let key = TypeId::of::<u32>();
    assert!(!w.is_registered(&key));
    w.register_component(key, "u32 store".to_string());
    assert!(w.is_registered(&key));
    assert!(!w.is_registered(&TypeId::of::<i64>()));
    assert_eq!(w.component_store(&key), "u32 store");
    let ed2 = w.spawn_entity();
    assert_eq!(ed2.entity, Entity { id: 2, generation: 1 });
}

#[test]
fn removing_twice_changes_nothing_the_second_time() {
    let mut store = ComponentStore::<i32>::new(10);
    let ent1 = Entity { id: 1, generation: 0 };
    let ent2 = Entity { id: 2, generation: 0 };
    store.emplace(ent1, 42);
    store.emplace(ent2, 99);
    assert!(store.remove(ent1));
    assert!(!store.remove(ent1));
    assert_eq!(store.iter_ent(), vec![(ent2, &99)]);
}

#[test]
fn emplace_after_removing_another_replaces_in_place() {
    let mut store = ComponentStore::<i32>::new(10);
    let e1 = Entity { id: 1, generation: 0 };
    let e2 = Entity { id: 2, generation: 0 };
    store.emplace(e1, 42);
    store.emplace(e2, 99);
    store.remove(e2);
    store.emplace(e1, 5);
    assert_eq!(store.iter_ent(), vec![(e1, &5)]);
}

#[test]
fn removing_both_entities_empties_the_store() {
    let mut store = ComponentStore::<i32>::new(10);
    let ent1 = Entity { id: 1, generation: 0 };
    let ent2 = Entity { id: 2, generation: 0 };
    store.emplace(ent1, 42);
    store.emplace(ent2, 99);
    assert!(store.remove(ent1));
    assert!(store.remove(ent2));
    assert!(store.iter_ent().is_empty());
    assert!(store.iter().is_empty());
}

#[test]
fn moved_entity_stays_reachable_after_remove() {
    let mut store = ComponentStore::<u8>::new(8);
    let a = Entity { id: 4, generation: 1 };
    let b = Entity { id: 6, generation: 1 };
    let c = Entity { id: 7, generation: 1 };
    store.emplace(a, 1);
    store.emplace(b, 2);
    store.emplace(c, 3);
    assert!(store.remove(a));
    // `c` moved into the first slot; updating it replaces in place
    store.emplace(c, 30);
    assert_eq!(store.iter_ent(), vec![(c, &30), (b, &2)]);
    assert!(store.remove(c));
    assert_eq!(store.iter_ent(), vec![(b, &2)]);
    store.emplace(a, 10);
    assert_eq!(store.iter_ent(), vec![(b, &2), (a, &10)]);
}

#[test]
fn accepts_ids_within_capacity_only() {
    let store = ComponentStore::<u8>::new(3);
    assert!(store.accepts(Entity { id: 2, generation: 1 }));
    assert!(!store.accepts(Entity { id: 3, generation: 1 }));
}

#[test]
fn registered_store_is_empty_and_sized_for_max_entity_count() {
    let store = new_component_store::<u16>();
    assert!(store.iter_ent().is_empty());
    assert!(store.accepts(Entity { id: 9999, generation: 1 }));
    assert!(!store.accepts(Entity { id: 10000, generation: 1 }));
}
