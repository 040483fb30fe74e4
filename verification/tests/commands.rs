use tempeh::ecs::access::{distinct, overlaps, Access};
use tempeh::ecs::command::{Command, CommandBuffer};
use tempeh::ecs::entity::{Entity, InvalidEntity};
use tempeh::ecs::world::World;

#[test]
fn recording_does_not_touch_the_world() {
    let mut world: World<i32> = World::new();
    let e = world.create_entity(vec![(1, 1)]);
    let mut buffer = CommandBuffer::new();
    buffer.destroy_entity(e);
    buffer.create_entity(vec![(1, 2)]);
    buffer.add_component(e, 2, 5);
    buffer.remove_component(e, 1);
    assert_eq!(buffer.len(), 4);
    assert!(world.contains(e));
    assert_eq!(world.get(e, 1), Ok(Some(&1)));
    assert_eq!(world.query(&vec![]), vec![e]);
}

#[test]
fn flush_applies_commands_in_the_order_of_recording() {
    let mut world: World<i32> = World::new();
    let e = world.create_entity(vec![(1, 1)]);
    let mut buffer = CommandBuffer::new();
    buffer.add_component(e, 2, 10);
    buffer.add_component(e, 2, 20);
    buffer.remove_component(e, 1);
    buffer.add_component(e, 1, 30);
    assert_eq!(buffer.flush(&mut world), vec![]);
    assert_eq!(buffer.len(), 0);
    assert_eq!(world.get(e, 2), Ok(Some(&20)));
    assert_eq!(world.get(e, 1), Ok(Some(&30)));
}

#[test]
fn flush_reports_commands_on_entities_that_are_gone() {
    let mut world: World<i32> = World::new();
    let e = world.create_entity(vec![(1, 1)]);
    let mut buffer = CommandBuffer::new();
    buffer.add_component(e, 2, 10);
    buffer.destroy_entity(e);
    buffer.add_component(e, 3, 10);
    buffer.destroy_entity(e);
    buffer.create_entity(vec![(4, 4)]);
    buffer.remove_component(e, 1);
    let failures = buffer.flush(&mut world);
    assert_eq!(failures, vec![InvalidEntity { entity: e }; 3]);
    // The slot was taken by the entity created in between.
    let new = Entity { index: 0, generation: 1 };
    assert!(world.contains(new));
    assert_eq!(world.get(new, 4), Ok(Some(&4)));
    assert_eq!(world.get(new, 3), Ok(None));
}

#[test]
fn flushing_two_lists_in_a_row_is_flushing_their_concatenation() {
    let first = || vec![Command::CreateEntity(vec![(1, 1)]), Command::CreateEntity(vec![(1, 2)])];
    let second = || {
        vec![
            Command::DestroyEntity(Entity { index: 0, generation: 0 }),
            Command::AddComponent(Entity { index: 1, generation: 0 }, 2, 9),
            Command::CreateEntity(vec![(3, 3)]),
        ]
    };
    let mut one: World<i32> = World::new();
    let mut buffer = CommandBuffer::new();
    buffer.extend(first());
    buffer.extend(second());
    assert_eq!(buffer.len(), 5);
    assert_eq!(buffer.flush(&mut one), vec![]);

    let mut two: World<i32> = World::new();
    let mut buffer = CommandBuffer::new();
    buffer.extend(first());
    assert_eq!(buffer.flush(&mut two), vec![]);
    buffer.extend(second());
    assert_eq!(buffer.flush(&mut two), vec![]);

    for world in [&one, &two] {
        assert_eq!(
            world.query(&vec![]),
            vec![Entity { index: 0, generation: 1 }, Entity { index: 1, generation: 0 }]
        );
        assert_eq!(world.get(Entity { index: 0, generation: 1 }, 3), Ok(Some(&3)));
        assert_eq!(world.get(Entity { index: 1, generation: 0 }, 2), Ok(Some(&9)));
        assert_eq!(world.get(Entity { index: 1, generation: 0 }, 1), Ok(Some(&2)));
    }
}

#[test]
fn access_rejects_a_type_that_is_named_twice() {
    assert!(Access::new(vec![1, 2], vec![3], vec![4], vec![5]).is_some());
    assert!(Access::new(vec![], vec![], vec![], vec![]).is_some());
    assert!(Access::new(vec![1, 1], vec![], vec![], vec![]).is_none());
    assert!(Access::new(vec![], vec![2, 3, 2], vec![], vec![]).is_none());
    assert!(Access::new(vec![], vec![], vec![4, 4], vec![]).is_none());
    assert!(Access::new(vec![], vec![], vec![], vec![5, 5]).is_none());
    assert!(Access::new(vec![1], vec![1], vec![], vec![]).is_none());
    assert!(Access::new(vec![], vec![], vec![7], vec![8, 7]).is_none());
    // A component type and a resource type may share a tag.
    assert!(Access::new(vec![1], vec![], vec![], vec![1]).is_some());
}

#[test]
fn access_keeps_the_lists_in_the_order_of_the_declaration() {
    let access = Access::new(vec![2, 1], vec![9, 3], vec![5], vec![6, 4]).unwrap();
    assert_eq!(access.reads(), &vec![2, 1]);
    assert_eq!(access.writes(), &vec![9, 3]);
    assert_eq!(access.resource_reads(), &vec![5]);
    assert_eq!(access.resource_writes(), &vec![6, 4]);
}

#[test]
fn conflict_is_write_against_read_or_write() {
    let reads_a = Access::new(vec![1], vec![], vec![], vec![]).unwrap();
    let also_reads_a = Access::new(vec![1, 2], vec![], vec![], vec![]).unwrap();
    let writes_a = Access::new(vec![], vec![1], vec![], vec![]).unwrap();
    let writes_b = Access::new(vec![], vec![2], vec![], vec![]).unwrap();
    let reads_r = Access::new(vec![], vec![], vec![1], vec![]).unwrap();
    let writes_r = Access::new(vec![], vec![], vec![], vec![1]).unwrap();
    assert!(!reads_a.conflicts_with(&also_reads_a));
    assert!(reads_a.conflicts_with(&writes_a));
    assert!(writes_a.conflicts_with(&reads_a));
    assert!(writes_a.conflicts_with(&writes_a));
    assert!(!writes_a.conflicts_with(&writes_b));
    assert!(also_reads_a.conflicts_with(&writes_b));
    assert!(reads_r.conflicts_with(&writes_r));
    assert!(writes_r.conflicts_with(&writes_r));
    assert!(!reads_r.conflicts_with(&reads_r));
    // Components and resources are judged apart.
    assert!(!writes_a.conflicts_with(&writes_r));
    assert!(!reads_a.conflicts_with(&writes_r));
}

#[test]
fn overlaps_and_distinct_on_lists() {
    assert!(overlaps(&vec![1, 2, 3], &vec![9, 3]));
    assert!(!overlaps(&vec![1, 2, 3], &vec![4, 5]));
    assert!(!overlaps(&vec![], &vec![1]));
    assert!(distinct(&vec![]));
    assert!(distinct(&vec![3, 1, 2]));
    assert!(!distinct(&vec![3, 1, 3]));
}
