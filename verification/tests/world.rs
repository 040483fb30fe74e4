use tempeh::ecs::entity::{Entity, InvalidEntity};
use tempeh::ecs::resources::Resources;
use tempeh::ecs::typemap::TypeMap;
use tempeh::ecs::world::World;

const POS: u64 = 1;
const VEL: u64 = 2;
const TAG: u64 = 3;

#[test]
fn new_world_has_no_entities() {
    let world: World<i32> = World::new();
    assert_eq!(world.query(&vec![]), vec![]);
    assert!(!world.contains(Entity { index: 0, generation: 0 }));
}

#[test]
fn created_entities_get_consecutive_slots() {
    let mut world: World<i32> = World::new();
    let a = world.create_entity(vec![(POS, 1)]);
    let b = world.create_entity(vec![(POS, 2), (VEL, 3)]);
    assert_eq!(a, Entity { index: 0, generation: 0 });
    assert_eq!(b, Entity { index: 1, generation: 0 });
    assert!(world.contains(a));
    assert!(world.contains(b));
    assert_eq!(world.get(a, POS), Ok(Some(&1)));
    assert_eq!(world.get(a, VEL), Ok(None));
    assert_eq!(world.get(b, VEL), Ok(Some(&3)));
}

#[test]
fn later_component_of_the_same_type_counts_at_creation() {
    let mut world: World<i32> = World::new();
    let e = world.create_entity(vec![(POS, 1), (VEL, 5), (POS, 9)]);
    assert_eq!(world.get(e, POS), Ok(Some(&9)));
    assert_eq!(world.get(e, VEL), Ok(Some(&5)));
}

#[test]
fn push_takes_a_ready_made_bundle() {
    let mut world: World<i32> = World::new();
    let mut bundle = TypeMap::new();
    bundle.insert(VEL, 2);
    bundle.insert(POS, 1);
    let e = world.push(bundle);
    assert_eq!(world.get(e, POS), Ok(Some(&1)));
    assert_eq!(world.get(e, VEL), Ok(Some(&2)));
}

#[test]
fn destroyed_entity_is_invalid_for_every_operation() {
    let mut world: World<i32> = World::new();
    let e = world.create_entity(vec![(POS, 1)]);
    assert_eq!(world.destroy_entity(e), Ok(()));
    let invalid = InvalidEntity { entity: e };
    assert!(!world.contains(e));
    assert_eq!(world.get(e, POS), Err(invalid));
    assert_eq!(world.add_component(e, VEL, 1), Err(invalid));
    assert_eq!(world.remove_component(e, POS), Err(invalid));
    assert_eq!(world.destroy_entity(e), Err(invalid));
    assert_eq!(world.query(&vec![POS]), vec![]);
}

#[test]
fn stale_handle_stays_invalid_when_its_slot_is_reused() {
    let mut world: World<i32> = World::new();
    let old = world.create_entity(vec![(POS, 1)]);
    assert_eq!(world.destroy_entity(old), Ok(()));
    let new = world.create_entity(vec![(POS, 2)]);
    assert_eq!(new, Entity { index: 0, generation: 1 });
    assert!(world.contains(new));
    assert!(!world.contains(old));
    assert_eq!(world.get(old, POS), Err(InvalidEntity { entity: old }));
    assert_eq!(world.add_component(old, VEL, 7), Err(InvalidEntity { entity: old }));
    assert_eq!(world.remove_component(old, POS), Err(InvalidEntity { entity: old }));
    assert_eq!(world.destroy_entity(old), Err(InvalidEntity { entity: old }));
    // The new entity was not touched by any of these.
    assert_eq!(world.get(new, POS), Ok(Some(&2)));
    assert_eq!(world.get(new, VEL), Ok(None));
}

#[test]
fn the_slot_freed_last_is_taken_first() {
    let mut world: World<i32> = World::new();
    let a = world.create_entity(vec![]);
    let b = world.create_entity(vec![]);
    let c = world.create_entity(vec![]);
    assert_eq!(world.destroy_entity(a), Ok(()));
    assert_eq!(world.destroy_entity(c), Ok(()));
    assert_eq!(world.create_entity(vec![]), Entity { index: 2, generation: 1 });
    assert_eq!(world.create_entity(vec![]), Entity { index: 0, generation: 1 });
    assert_eq!(world.create_entity(vec![]), Entity { index: 3, generation: 0 });
    assert!(world.contains(b));
}

#[test]
fn handle_that_never_came_from_the_world_is_invalid() {
    let mut world: World<i32> = World::new();
    let e = world.create_entity(vec![(POS, 1)]);
    let beyond = Entity { index: 5, generation: 0 };
    let future = Entity { index: e.index, generation: 3 };
    assert_eq!(world.get(beyond, POS), Err(InvalidEntity { entity: beyond }));
    assert_eq!(world.destroy_entity(future), Err(InvalidEntity { entity: future }));
    assert!(world.contains(e));
}

#[test]
fn add_component_replaces_or_adds() {
    let mut world: World<i32> = World::new();
    let e = world.create_entity(vec![(POS, 1)]);
    assert_eq!(world.add_component(e, VEL, 10), Ok(()));
    assert_eq!(world.add_component(e, POS, 2), Ok(()));
    assert_eq!(world.get(e, POS), Ok(Some(&2)));
    assert_eq!(world.get(e, VEL), Ok(Some(&10)));
    assert_eq!(world.query(&vec![POS, VEL]), vec![e]);
}

#[test]
fn remove_component_returns_the_value() {
    let mut world: World<i32> = World::new();
    let e = world.create_entity(vec![(POS, 1), (VEL, 2)]);
    assert_eq!(world.remove_component(e, VEL), Ok(Some(2)));
    assert_eq!(world.remove_component(e, VEL), Ok(None));
    assert_eq!(world.get(e, VEL), Ok(None));
    assert_eq!(world.get(e, POS), Ok(Some(&1)));
    assert_eq!(world.query(&vec![VEL]), vec![]);
    assert_eq!(world.query(&vec![POS]), vec![e]);
}

#[test]
fn query_returns_exactly_the_entities_with_all_types_in_slot_order() {
    let mut world: World<i32> = World::new();
    let a = world.create_entity(vec![(POS, 1)]);
    let b = world.create_entity(vec![(POS, 2), (VEL, 2)]);
    let c = world.create_entity(vec![(VEL, 3)]);
    let d = world.create_entity(vec![(VEL, 4), (POS, 4), (TAG, 4)]);
    assert_eq!(world.query(&vec![]), vec![a, b, c, d]);
    assert_eq!(world.query(&vec![POS]), vec![a, b, d]);
    assert_eq!(world.query(&vec![VEL]), vec![b, c, d]);
    assert_eq!(world.query(&vec![VEL, POS]), vec![b, d]);
    assert_eq!(world.query(&vec![POS, POS]), vec![a, b, d]);
    assert_eq!(world.query(&vec![TAG, POS]), vec![d]);
    assert_eq!(world.query(&vec![99]), vec![]);
}

#[test]
fn moving_between_archetypes_keeps_other_entities_intact() {
    let mut world: World<i32> = World::new();
    let a = world.create_entity(vec![(POS, 1)]);
    let b = world.create_entity(vec![(POS, 2)]);
    let c = world.create_entity(vec![(POS, 3)]);
    // `a` leaves the table that it shares with `b` and `c`.
    assert_eq!(world.add_component(a, VEL, 10), Ok(()));
    assert_eq!(world.get(b, POS), Ok(Some(&2)));
    assert_eq!(world.get(c, POS), Ok(Some(&3)));
    assert_eq!(world.get(a, POS), Ok(Some(&1)));
    // And comes back.
    assert_eq!(world.remove_component(a, VEL), Ok(Some(10)));
    assert_eq!(world.destroy_entity(b), Ok(()));
    assert_eq!(world.get(a, POS), Ok(Some(&1)));
    assert_eq!(world.get(c, POS), Ok(Some(&3)));
    assert_eq!(world.query(&vec![POS]), vec![a, c]);
}

#[test]
fn type_map_keeps_one_value_per_tag() {
    let mut map: TypeMap<&str> = TypeMap::new();
    assert_eq!(map.insert(5, "five"), None);
    assert_eq!(map.insert(2, "two"), None);
    assert_eq!(map.insert(5, "FIVE"), Some("five"));
    assert_eq!(map.len(), 2);
    assert_eq!(map.tag_list(), &vec![2, 5]);
    assert_eq!(map.get(5), Some(&"FIVE"));
    assert_eq!(map.get(3), None);
    assert!(map.contains(2));
    assert_eq!(map.find(2), Ok(0));
    assert_eq!(map.find(3), Err(1));
    assert_eq!(map.remove(2), Some("two"));
    assert_eq!(map.remove(2), None);
    assert_eq!(map.tag_list(), &vec![5]);
    let built = TypeMap::from_pairs(vec![(3, 'a'), (1, 'b'), (3, 'c')]);
    assert_eq!(built.tag_list(), &vec![1, 3]);
    assert_eq!(built.get(3), Some(&'c'));
}

#[test]
fn resources_hold_one_value_per_type_and_the_last_write_wins() {
    let mut resources: Resources<u32> = Resources::new();
    assert_eq!(resources.len(), 0);
    assert_eq!(resources.insert(7, 1), None);
    assert_eq!(resources.insert(7, 2), Some(1));
    assert_eq!(resources.insert(8, 3), None);
    assert_eq!(resources.len(), 2);
    assert_eq!(resources.get(7), Some(&2));
    assert!(resources.contains(8));
    assert!(!resources.contains(9));
    resources.insert_all(vec![(9, 4), (7, 5), (9, 6)]);
    assert_eq!(resources.get(7), Some(&5));
    assert_eq!(resources.get(9), Some(&6));
    assert_eq!(resources.remove(8), Some(3));
    assert_eq!(resources.remove(8), None);
    assert_eq!(resources.len(), 2);
}

#[test]
fn entities_share_an_archetype_exactly_when_they_have_the_same_types() {
    let mut world: World<i32> = World::new();
    let a = world.create_entity(vec![(POS, 1), (VEL, 1)]);
    let b = world.create_entity(vec![(VEL, 2), (POS, 2)]);
    let c = world.create_entity(vec![(POS, 3)]);
    let d = world.create_entity(vec![]);
    let of = |world: &World<i32>, e| world.archetype_of(e).unwrap();
    assert_eq!(of(&world, a), of(&world, b));
    assert_ne!(of(&world, a), of(&world, c));
    assert_ne!(of(&world, c), of(&world, d));
    // Gaining and losing a component moves an entity to another archetype.
    assert_eq!(world.add_component(c, VEL, 3), Ok(()));
    assert_eq!(of(&world, c), of(&world, a));
    assert_eq!(world.remove_component(c, VEL), Ok(Some(3)));
    assert_eq!(world.remove_component(c, POS), Ok(Some(3)));
    assert_eq!(of(&world, c), of(&world, d));
    // Replacing a value does not.
    let before = of(&world, a);
    assert_eq!(world.add_component(a, POS, 9), Ok(()));
    assert_eq!(of(&world, a), before);
    assert_eq!(world.destroy_entity(a), Ok(()));
    assert_eq!(world.archetype_of(a), Err(InvalidEntity { entity: a }));
}
