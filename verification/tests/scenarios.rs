use tempeh::ecs::access::Access;
use tempeh::ecs::command::Command;
use tempeh::ecs::engine::{Engine, Game};
use tempeh::ecs::entity::Entity;
use tempeh::ecs::system::{Shape, System, SystemInput, SystemOutput};

const POSITION: u64 = 1;
const VELOCITY: u64 = 2;
const A: u64 = 10;
const B: u64 = 11;
const DELTA_TIME: u64 = 100;
const SEEN: u64 = 101;

#[derive(Clone, Copy, Debug, PartialEq)]
enum Comp {
    Position { x: i64, y: i64 },
    Velocity { dx: i64, dy: i64 },
    Value(i64),
}

#[derive(Clone, Debug, PartialEq)]
enum Res {
    DeltaTime(u64),
    Seen(Vec<u64>),
    Count(usize),
}

enum Sys {
    /// Adds the velocity to the position.
    Move,
    /// Writes A := B + 1 without reading A's new value elsewhere.
    BumpA,
    /// Writes B := B * 2.
    DoubleB,
    /// Records the destruction of every entity that has A.
    Reap,
    /// Counts the entities with A that it sees into the resource SEEN.
    CountA,
    /// Appends the current DELTA_TIME to the resource SEEN.
    Watch,
}

impl System for Sys {
    type Component = Comp;
    type Resource = Res;

    fn access(&self) -> Access {
        match self {
            Sys::Move => Access::new(vec![VELOCITY], vec![POSITION], vec![], vec![]).unwrap(),
            Sys::BumpA => Access::new(vec![], vec![A], vec![], vec![]).unwrap(),
            Sys::DoubleB => Access::new(vec![], vec![B], vec![], vec![]).unwrap(),
            Sys::Reap => Access::new(vec![A], vec![], vec![], vec![]).unwrap(),
            Sys::CountA => Access::new(vec![A], vec![], vec![], vec![SEEN]).unwrap(),
            Sys::Watch => Access::new(vec![], vec![], vec![DELTA_TIME], vec![SEEN]).unwrap(),
        }
    }

    fn shape(&self) -> Shape {
        match self {
            Sys::Watch => Shape::Once,
            _ => Shape::PerEntity,
        }
    }

    fn run(&self, input: &SystemInput<Comp, Res>) -> SystemOutput<Comp, Res> {
        let mut output = SystemOutput { writes: vec![], resource_writes: vec![], commands: vec![] };
        match self {
            Sys::Move => {
                if let (Comp::Velocity { dx, dy }, Comp::Position { x, y }) =
                    (*input.reads[0], *input.writes[0])
                {
                    output.writes.push(Comp::Position { x: x + dx, y: y + dy });
                } else {
                    output.writes.push(*input.writes[0]);
                }
            }
            Sys::BumpA => {
                if let Comp::Value(a) = *input.writes[0] {
                    output.writes.push(Comp::Value(a + 1));
                } else {
                    output.writes.push(*input.writes[0]);
                }
            }
            Sys::DoubleB => {
                if let Comp::Value(b) = *input.writes[0] {
                    output.writes.push(Comp::Value(b * 2));
                } else {
                    output.writes.push(*input.writes[0]);
                }
            }
            Sys::Reap => {
                output.commands.push(Command::DestroyEntity(input.entity.unwrap()));
            }
            Sys::CountA => {
                let next = match input.resource_writes[0] {
                    Res::Count(n) => Res::Count(n + 1),
                    other => other.clone(),
                };
                output.resource_writes.push(next);
            }
            Sys::Watch => {
                let dt = match input.resource_reads[0] {
                    Res::DeltaTime(dt) => *dt,
                    _ => 0,
                };
                let mut seen = match input.resource_writes[0] {
                    Res::Seen(seen) => seen.clone(),
                    _ => vec![],
                };
                seen.push(dt);
                output.resource_writes.push(Res::Seen(seen));
            }
        }
        output
    }
}

fn engine_with(systems: Vec<Sys>) -> Engine<Sys> {
    Game::new(String::from("test"), systems).engine
}

fn value_of(engine: &Engine<Sys>, entity: Entity, tag: u64) -> Comp {
    *engine.world.get(entity, tag).unwrap().unwrap()
}

#[test]
fn scenario_position_advances_by_one_per_tick() {
    let mut engine = engine_with(vec![Sys::Move]);
    let e = engine.world.create_entity(vec![
        (POSITION, Comp::Position { x: 0, y: 0 }),
        (VELOCITY, Comp::Velocity { dx: 1, dy: 0 }),
    ]);
    for _ in 0..3 {
        assert_eq!(engine.tick(vec![]), Ok(vec![]));
    }
    assert_eq!(value_of(&engine, e, POSITION), Comp::Position { x: 3, y: 0 });
    assert_eq!(value_of(&engine, e, VELOCITY), Comp::Velocity { dx: 1, dy: 0 });
}

#[test]
fn scenario_independent_writers_do_not_depend_on_order() {
    let mut first = engine_with(vec![Sys::BumpA, Sys::DoubleB]);
    let mut second = engine_with(vec![Sys::DoubleB, Sys::BumpA]);
    let mut handles = vec![];
    for engine in [&mut first, &mut second] {
        let e1 = engine.world.create_entity(vec![(A, Comp::Value(1)), (B, Comp::Value(5))]);
        let e2 = engine.world.create_entity(vec![(A, Comp::Value(7)), (B, Comp::Value(-3))]);
        handles = vec![e1, e2];
        for _ in 0..2 {
            assert_eq!(engine.tick(vec![]), Ok(vec![]));
        }
    }
    for e in handles {
        assert_eq!(value_of(&first, e, A), value_of(&second, e, A));
        assert_eq!(value_of(&first, e, B), value_of(&second, e, B));
    }
    assert_eq!(value_of(&first, Entity { index: 0, generation: 0 }, A), Comp::Value(3));
    assert_eq!(value_of(&first, Entity { index: 0, generation: 0 }, B), Comp::Value(20));
    assert_eq!(value_of(&first, Entity { index: 1, generation: 0 }, A), Comp::Value(9));
    assert_eq!(value_of(&first, Entity { index: 1, generation: 0 }, B), Comp::Value(-12));
}

#[test]
fn scenario_destroy_is_deferred_to_the_end_of_the_stage() {
    let mut engine = engine_with(vec![Sys::Reap, Sys::CountA]);
    engine.resources.insert(SEEN, Res::Count(0));
    let e = engine.world.create_entity(vec![(A, Comp::Value(1))]);
    assert_eq!(engine.tick(vec![]), Ok(vec![]));
    // The second system of the stage still saw the entity.
    assert_eq!(engine.resources.get(SEEN), Some(&Res::Count(1)));
    // After the flush the entity is gone, and the next tick visits nothing.
    assert!(!engine.world.contains(e));
    assert_eq!(engine.world.query(&vec![A]), vec![]);
    assert_eq!(engine.tick(vec![]), Ok(vec![]));
    assert_eq!(engine.resources.get(SEEN), Some(&Res::Count(1)));
}

#[test]
fn scenario_system_sees_the_delta_time_of_its_own_tick() {
    let mut engine = engine_with(vec![Sys::Watch]);
    engine.resources.insert(DELTA_TIME, Res::DeltaTime(0));
    engine.resources.insert(SEEN, Res::Seen(vec![]));
    for dt in [16u64, 17, 33] {
        assert_eq!(engine.tick(vec![(DELTA_TIME, Res::DeltaTime(dt))]), Ok(vec![]));
    }
    assert_eq!(engine.resources.get(SEEN), Some(&Res::Seen(vec![16, 17, 33])));
    assert_eq!(engine.resources.get(DELTA_TIME), Some(&Res::DeltaTime(33)));
}
