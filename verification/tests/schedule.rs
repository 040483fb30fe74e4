use tempeh::ecs::access::Access;
use tempeh::ecs::app::{AppBuilder, Plugin, Runner};
use tempeh::ecs::command::{Command, CommandBuffer};
use tempeh::ecs::engine::{single_stage, Engine, Game};
use tempeh::ecs::entity::{Entity, InvalidEntity};
use tempeh::ecs::resources::Resources;
use tempeh::ecs::schedule::{Phase, Schedule};
use tempeh::ecs::stage::{MissingResource, Stage, StageLabel};
use tempeh::ecs::system::{Either, Shape, System, SystemInput, SystemOutput};
use tempeh::ecs::world::World;

const A: u64 = 1;
const B: u64 = 2;
const LOG: u64 = 50;
const CLOCK: u64 = 51;

/// A system that is described by data: it declares `access`, and for every
/// visit writes `value` to each declared component write, puts its name
/// behind the text of each declared resource write, and records `commands`.
#[derive(Clone)]
struct Scripted {
    name: &'static str,
    shape: Shape,
    reads: Vec<u64>,
    writes: Vec<u64>,
    resource_reads: Vec<u64>,
    resource_writes: Vec<u64>,
    value: i64,
    spawn: Option<Vec<(u64, i64)>>,
    destroy_visited: bool,
}

impl Scripted {
    fn named(name: &'static str) -> Self {
        Scripted {
            name,
            shape: Shape::Once,
            reads: vec![],
            writes: vec![],
            resource_reads: vec![],
            resource_writes: vec![],
            value: 0,
            spawn: None,
            destroy_visited: false,
        }
    }

    fn logging(name: &'static str) -> Self {
        let mut s = Self::named(name);
        s.resource_writes = vec![LOG];
        s
    }
}

impl System for Scripted {
    type Component = i64;
    type Resource = String;

    fn access(&self) -> Access {
        Access::new(
            self.reads.clone(),
            self.writes.clone(),
            self.resource_reads.clone(),
            self.resource_writes.clone(),
        )
        .unwrap()
    }

    fn shape(&self) -> Shape {
        self.shape
    }

    fn run(&self, input: &SystemInput<i64, String>) -> SystemOutput<i64, String> {
        assert_eq!(input.reads.len(), self.reads.len());
        assert_eq!(input.writes.len(), self.writes.len());
        assert_eq!(input.resource_reads.len(), self.resource_reads.len());
        assert_eq!(input.resource_writes.len(), self.resource_writes.len());
        assert_eq!(input.entity.is_some(), self.shape == Shape::PerEntity);
        let mut commands = vec![];
        if let Some(components) = &self.spawn {
            commands.push(Command::CreateEntity(components.clone()));
        }
        if self.destroy_visited {
            commands.push(Command::DestroyEntity(input.entity.unwrap()));
        }
        SystemOutput {
            writes: input.writes.iter().map(|old| **old + self.value).collect(),
            resource_writes: input
                .resource_writes
                .iter()
                .map(|old| format!("{}{}", old, self.name))
                .collect(),
            commands,
        }
    }
}

fn store() -> (World<i64>, Resources<String>) {
    let mut resources = Resources::new();
    resources.insert(LOG, String::new());
    (World::new(), resources)
}

#[test]
fn stage_runs_systems_in_the_order_of_registration() {
    let mut stage = Stage::new(StageLabel::Update);
    stage.add_system(Scripted::logging("a"));
    stage.add_system(Scripted::logging("b"));
    stage.add_system(Scripted::logging("c"));
    assert_eq!(stage.len(), 3);
    assert_eq!(stage.label(), StageLabel::Update);
    assert_eq!(stage.access(1).resource_writes(), &vec![LOG]);
    let (mut world, mut resources) = store();
    assert_eq!(stage.run(&mut world, &mut resources), Ok(vec![]));
    assert_eq!(resources.get(LOG), Some(&String::from("abc")));
}

#[test]
fn per_entity_system_visits_matching_entities_in_slot_order() {
    let mut add = Scripted::logging("x");
    add.shape = Shape::PerEntity;
    add.reads = vec![B];
    add.writes = vec![A];
    add.value = 10;
    let mut stage = Stage::new(StageLabel::Update);
    stage.add_system(add);
    let (mut world, mut resources) = store();
    let only_a = world.create_entity(vec![(A, 1)]);
    let both = world.create_entity(vec![(B, 0), (A, 2)]);
    let also_both = world.create_entity(vec![(A, 3), (B, 0)]);
    assert_eq!(stage.run(&mut world, &mut resources), Ok(vec![]));
    assert_eq!(world.get(only_a, A), Ok(Some(&1)));
    assert_eq!(world.get(both, A), Ok(Some(&12)));
    assert_eq!(world.get(also_both, A), Ok(Some(&13)));
    assert_eq!(world.get(both, B), Ok(Some(&0)));
    assert_eq!(resources.get(LOG), Some(&String::from("xx")));
}

#[test]
fn per_entity_system_without_a_match_does_not_run() {
    let mut s = Scripted::logging("x");
    s.shape = Shape::PerEntity;
    s.reads = vec![A];
    let mut stage = Stage::new(StageLabel::Update);
    stage.add_system(s);
    let (mut world, mut resources) = store();
    world.create_entity(vec![(B, 1)]);
    assert_eq!(stage.run(&mut world, &mut resources), Ok(vec![]));
    assert_eq!(resources.get(LOG), Some(&String::new()));
}

#[test]
fn missing_resource_names_the_first_system_and_type_and_nothing_runs() {
    let mut first = Scripted::logging("a");
    first.writes = vec![A];
    first.shape = Shape::PerEntity;
    first.value = 1;
    let mut second = Scripted::named("b");
    second.resource_reads = vec![LOG, 70];
    second.resource_writes = vec![71];
    let mut stage = Stage::new(StageLabel::PostUpdate);
    stage.add_system(first);
    stage.add_system(second);
    let (mut world, mut resources) = store();
    let e = world.create_entity(vec![(A, 0)]);
    let missing = MissingResource { stage: StageLabel::PostUpdate, system: 1, resource: 70 };
    assert_eq!(stage.missing_resource(&resources), Some(missing));
    assert_eq!(stage.run(&mut world, &mut resources), Err(missing));
    assert_eq!(world.get(e, A), Ok(Some(&0)));
    assert_eq!(resources.get(LOG), Some(&String::new()));
    resources.insert(70, String::new());
    let missing = MissingResource { stage: StageLabel::PostUpdate, system: 1, resource: 71 };
    assert_eq!(stage.run(&mut world, &mut resources), Err(missing));
    resources.insert(71, String::new());
    assert_eq!(stage.missing_resource(&resources), None);
    assert_eq!(stage.run(&mut world, &mut resources), Ok(vec![]));
    assert_eq!(world.get(e, A), Ok(Some(&1)));
    assert_eq!(resources.get(71), Some(&String::from("b")));
}

#[test]
fn commands_of_a_stage_are_flushed_in_registration_order_of_the_systems() {
    // The first system creates an entity, the second destroys the entity it
    // visits; the slot of the destroyed entity is free only after the
    // creation, so the new entity gets a fresh slot.
    let mut create = Scripted::named("create");
    create.spawn = Some(vec![(B, 7)]);
    let mut reap = Scripted::named("reap");
    reap.shape = Shape::PerEntity;
    reap.reads = vec![A];
    reap.destroy_visited = true;
    let mut stage = Stage::new(StageLabel::Update);
    stage.add_system(create.clone());
    stage.add_system(reap.clone());
    let (mut world, mut resources) = store();
    let e = world.create_entity(vec![(A, 1)]);
    assert_eq!(stage.run(&mut world, &mut resources), Ok(vec![]));
    assert!(!world.contains(e));
    assert_eq!(world.query(&vec![B]), vec![Entity { index: 1, generation: 0 }]);

    // Registered the other way round, the destruction comes first and the
    // new entity takes the freed slot.
    let mut stage = Stage::new(StageLabel::Update);
    stage.add_system(reap);
    stage.add_system(create);
    let (mut world, mut resources) = store();
    let e = world.create_entity(vec![(A, 1)]);
    assert_eq!(stage.run(&mut world, &mut resources), Ok(vec![]));
    assert!(!world.contains(e));
    assert_eq!(world.query(&vec![B]), vec![Entity { index: 0, generation: 1 }]);
}

#[test]
fn commands_turned_away_at_the_flush_are_reported() {
    let mut reap = Scripted::named("reap");
    reap.shape = Shape::PerEntity;
    reap.reads = vec![A];
    reap.destroy_visited = true;
    let mut stage = Stage::new(StageLabel::Update);
    stage.add_system(reap.clone());
    stage.add_system(reap);
    let (mut world, mut resources) = store();
    let e = world.create_entity(vec![(A, 1)]);
    assert_eq!(stage.run(&mut world, &mut resources), Ok(vec![InvalidEntity { entity: e }]));
}

#[test]
fn entity_created_by_a_command_is_visited_from_the_next_stage_on() {
    let mut create = Scripted::named("create");
    create.spawn = Some(vec![(A, 0)]);
    let mut bump = Scripted::logging("+");
    bump.shape = Shape::PerEntity;
    bump.writes = vec![A];
    bump.value = 1;
    let mut first = Stage::new(StageLabel::PreUpdate);
    first.add_system(create);
    first.add_system(bump.clone());
    let mut second = Stage::new(StageLabel::Update);
    second.add_system(bump);
    let mut schedule = Schedule::new();
    schedule.add_stage(first);
    schedule.add_stage(second);
    assert_eq!(schedule.len(), 2);
    assert_eq!(schedule.stage(1).label(), StageLabel::Update);
    let (mut world, mut resources) = store();
    assert_eq!(schedule.execute(&mut world, &mut resources), Ok(vec![]));
    // Not visited in the first stage, visited once in the second.
    let e = Entity { index: 0, generation: 0 };
    assert_eq!(world.get(e, A), Ok(Some(&1)));
    assert_eq!(resources.get(LOG), Some(&String::from("+")));
}

#[test]
fn schedule_checks_every_stage_before_anything_runs() {
    let mut late = Scripted::named("late");
    late.resource_reads = vec![CLOCK];
    let mut first = Stage::new(StageLabel::PreUpdate);
    first.add_system(Scripted::logging("a"));
    let mut second = Stage::new(StageLabel::PostUpdate);
    second.add_system(Scripted::logging("b"));
    second.add_system(late);
    let mut schedule = Schedule::new();
    schedule.add_stage(first);
    schedule.add_stage(second);
    let (mut world, mut resources) = store();
    let missing = MissingResource { stage: StageLabel::PostUpdate, system: 1, resource: CLOCK };
    assert_eq!(schedule.missing_resource(&resources), Some(missing));
    assert_eq!(schedule.execute(&mut world, &mut resources), Err(missing));
    assert_eq!(resources.get(LOG), Some(&String::new()));
    resources.insert(CLOCK, String::new());
    assert_eq!(schedule.execute(&mut world, &mut resources), Ok(vec![]));
    assert_eq!(resources.get(LOG), Some(&String::from("ab")));
}

#[test]
fn phases_go_from_stage_to_stage_and_back_to_idle() {
    let mut schedule: Schedule<Scripted> = Schedule::new();
    assert_eq!(schedule.next_phase(Phase::Idle), Phase::Idle);
    schedule.add_stage(Stage::new(StageLabel::PreUpdate));
    schedule.add_stage(Stage::new(StageLabel::Update));
    assert_eq!(schedule.next_phase(Phase::Idle), Phase::Dispatching(0));
    assert_eq!(schedule.next_phase(Phase::Dispatching(0)), Phase::Flushing(0));
    assert_eq!(schedule.next_phase(Phase::Flushing(0)), Phase::Dispatching(1));
    assert_eq!(schedule.next_phase(Phase::Dispatching(1)), Phase::Flushing(1));
    assert_eq!(schedule.next_phase(Phase::Flushing(1)), Phase::Idle);
    assert_eq!(schedule.next_phase(Phase::Flushing(usize::MAX)), Phase::Idle);
}

#[test]
fn stepping_shows_commands_only_after_the_flush() {
    let mut create = Scripted::named("create");
    create.spawn = Some(vec![(A, 0)]);
    let mut stage = Stage::new(StageLabel::Update);
    stage.add_system(create);
    let mut schedule = Schedule::new();
    schedule.add_stage(stage);
    let (mut world, mut resources) = store();
    let mut buffer = CommandBuffer::new();
    let mut failures = vec![];
    let phase = schedule.next_phase(Phase::Idle);
    let phase = schedule.step(phase, &mut world, &mut resources, &mut buffer, &mut failures);
    assert_eq!(phase, Phase::Flushing(0));
    assert_eq!(buffer.len(), 1);
    assert_eq!(world.query(&vec![]), vec![]);
    let phase = schedule.step(phase, &mut world, &mut resources, &mut buffer, &mut failures);
    assert_eq!(phase, Phase::Idle);
    assert_eq!(buffer.len(), 0);
    assert_eq!(world.query(&vec![A]), vec![Entity { index: 0, generation: 0 }]);
    assert_eq!(failures, vec![]);
}

#[test]
fn plan_puts_conflicting_systems_into_later_batches() {
    let writer = |name, tag| {
        let mut s = Scripted::named(name);
        s.shape = Shape::PerEntity;
        s.writes = vec![tag];
        s
    };
    let reader = |name, tag| {
        let mut s = Scripted::named(name);
        s.shape = Shape::PerEntity;
        s.reads = vec![tag];
        s
    };
    let mut stage = Stage::new(StageLabel::Update);
    stage.add_system(writer("w_a", A)); // 0
    stage.add_system(writer("w_b", B)); // 0: no conflict with w_a
    stage.add_system(reader("r_a", A)); // 1: behind w_a
    stage.add_system(reader("r_a2", A)); // 1: readers share
    stage.add_system(writer("w_a2", A)); // 2: behind the readers
    stage.add_system(reader("r_b", B)); // 1: behind w_b
    stage.add_system(Scripted::logging("l1")); // 0
    stage.add_system(Scripted::logging("l2")); // 1: both write LOG
    assert_eq!(stage.plan(), vec![0, 0, 1, 1, 2, 1, 0, 1]);
    let empty: Stage<Scripted> = Stage::new(StageLabel::Update);
    assert_eq!(empty.plan(), vec![]);
}

#[test]
fn independent_systems_commute() {
    let mut bump_a = Scripted::logging("");
    bump_a.resource_writes = vec![];
    bump_a.shape = Shape::PerEntity;
    bump_a.reads = vec![];
    bump_a.writes = vec![A];
    bump_a.value = 5;
    let mut note = Scripted::logging("n");
    note.shape = Shape::PerEntity;
    note.reads = vec![B];
    let run = |systems: Vec<Scripted>| {
        let mut engine = Game::new(String::from("t"), systems).engine;
        engine.resources.insert(LOG, String::new());
        engine.world.create_entity(vec![(A, 1), (B, 2)]);
        engine.world.create_entity(vec![(B, 3)]);
        assert_eq!(engine.tick(vec![]), Ok(vec![]));
        (
            *engine.world.get(Entity { index: 0, generation: 0 }, A).unwrap().unwrap(),
            engine.resources.get(LOG).unwrap().clone(),
        )
    };
    assert!(!bump_a.access().conflicts_with(&note.access()));
    assert_eq!(run(vec![bump_a.clone(), note.clone()]), (6, String::from("nn")));
    assert_eq!(run(vec![note, bump_a]), (6, String::from("nn")));
}

struct Recorder {
    ticks: Vec<Vec<(u64, String)>>,
}

impl Runner<Scripted> for Recorder {
    fn run(self, mut engine: Engine<Scripted>) {
        for frame in self.ticks {
            engine.tick(frame).unwrap();
        }
        assert_eq!(engine.resources.get(LOG), Some(&String::from("spu!pu!")));
        assert_eq!(engine.resources.get(CLOCK), Some(&String::from("2")));
    }
}

struct Logging;

impl<W> Plugin<W, Scripted> for Logging {
    fn inject(&self, app: &mut AppBuilder<W, Scripted>) {
        app.add_resource(LOG, String::new())
            .add_preupdate_system(Scripted::logging("p"))
            .add_postupdate_system(Scripted::logging("!"));
    }
}

#[test]
fn builder_makes_the_stages_in_fixed_order_and_runs_startup_once() {
    let mut app = AppBuilder::new(());
    app.add_postupdate_system(Scripted::logging("3"))
        .add_system(Scripted::logging("2"))
        .add_startup_system(Scripted::logging("s"))
        .add_preupdate_system(Scripted::logging("1"))
        .add_system(Scripted::logging("2b"))
        .add_resource(LOG, String::from("overwritten"))
        .add_resource(LOG, String::new())
        .add_component(vec![(A, 4)]);
    let built = app.build(vec![(CLOCK, String::from("external"))]).unwrap();
    assert_eq!(built.rejected, vec![]);
    let mut engine = built.engine;
    assert_eq!(engine.schedule.len(), 3);
    assert_eq!(engine.schedule.stage(0).label(), StageLabel::PreUpdate);
    assert_eq!(engine.schedule.stage(1).label(), StageLabel::Update);
    assert_eq!(engine.schedule.stage(1).len(), 2);
    assert_eq!(engine.schedule.stage(2).label(), StageLabel::PostUpdate);
    assert_eq!(engine.resources.get(LOG), Some(&String::from("s")));
    assert_eq!(engine.resources.get(CLOCK), Some(&String::from("external")));
    assert_eq!(engine.world.get(Entity { index: 0, generation: 0 }, A), Ok(Some(&4)));
    assert_eq!(engine.tick(vec![]), Ok(vec![]));
    assert_eq!(engine.tick(vec![]), Ok(vec![]));
    assert_eq!(engine.resources.get(LOG), Some(&String::from("s122b3122b3")));
    // The builder is left empty.
    let again = app.build(vec![]).unwrap();
    assert_eq!(again.engine.schedule.len(), 0);
    assert_eq!(again.engine.resources.len(), 0);
    assert_eq!(again.engine.world.query(&vec![]), vec![]);
}

#[test]
fn builder_skips_empty_stages() {
    let mut app = AppBuilder::new(());
    app.add_resource(LOG, String::new()).add_postupdate_system(Scripted::logging("x"));
    let engine = app.build(vec![]).unwrap().engine;
    assert_eq!(engine.schedule.len(), 1);
    assert_eq!(engine.schedule.stage(0).label(), StageLabel::PostUpdate);
}

#[test]
fn builder_fails_when_a_startup_system_misses_a_resource() {
    let mut app = AppBuilder::new(());
    app.add_startup_system(Scripted::logging("s")).add_system(Scripted::logging("u"));
    let missing = MissingResource { stage: StageLabel::Startup, system: 0, resource: LOG };
    assert_eq!(app.build(vec![(LOG, String::new())]).err(), Some(missing));
    // Nothing was taken out of the builder: with the resource added it builds.
    app.add_resource(LOG, String::new());
    let engine = app.build(vec![]).unwrap().engine;
    assert_eq!(engine.schedule.len(), 1);
    assert_eq!(engine.resources.get(LOG), Some(&String::from("s")));
}

#[test]
fn plugins_register_in_the_order_of_their_injection() {
    let mut app = AppBuilder::new(Recorder {
        ticks: vec![vec![(CLOCK, String::from("1"))], vec![(CLOCK, String::from("2"))]],
    });
    app.add_startup_system(Scripted::logging("s"))
        .add_plugin(Logging)
        .add_system(Scripted::logging("u"));
    // The plugin's resource replaced nothing that came later: the startup
    // system runs on the plugin's empty text.
    assert_eq!(app.run(vec![]), Ok(vec![]));
    assert!(app.window.is_none());
}

#[test]
fn game_has_one_stage_with_the_given_systems() {
    let game = Game::new(String::from("Platformer"), vec![Scripted::logging("a")]);
    assert_eq!(game.title, "Platformer");
    assert_eq!(game.engine.schedule.len(), 1);
    assert_eq!(game.engine.schedule.stage(0).label(), StageLabel::Update);
    let empty: Game<Scripted> = Game::new(String::new(), vec![]);
    assert_eq!(empty.engine.schedule.len(), 0);
    let schedule = single_stage(StageLabel::Startup, vec![Scripted::named("x")]);
    assert_eq!(schedule.stage(0).label(), StageLabel::Startup);
}

#[test]
fn tick_without_stages_only_stores_the_frame() {
    let mut engine: Engine<Scripted> = Game::new(String::new(), vec![]).engine;
    assert_eq!(engine.tick(vec![(CLOCK, String::from("a")), (CLOCK, String::from("b"))]), Ok(vec![]));
    assert_eq!(engine.resources.get(CLOCK), Some(&String::from("b")));
}

#[test]
fn tick_stores_the_frame_before_it_looks_for_missing_resources() {
    let mut reads_clock = Scripted::named("c");
    reads_clock.resource_reads = vec![CLOCK];
    let mut engine = Game::new(String::new(), vec![reads_clock]).engine;
    let missing = MissingResource { stage: StageLabel::Update, system: 0, resource: CLOCK };
    assert_eq!(engine.tick(vec![(LOG, String::new())]), Err(missing));
    assert_eq!(engine.resources.get(LOG), Some(&String::new()));
    assert_eq!(engine.tick(vec![(CLOCK, String::new())]), Ok(vec![]));
}

struct Doubler;

impl System for Doubler {
    type Component = i64;
    type Resource = String;

    fn access(&self) -> Access {
        Access::new(vec![], vec![A], vec![], vec![]).unwrap()
    }

    fn shape(&self) -> Shape {
        Shape::PerEntity
    }

    fn run(&self, input: &SystemInput<i64, String>) -> SystemOutput<i64, String> {
        SystemOutput { writes: vec![*input.writes[0] * 2], resource_writes: vec![], commands: vec![] }
    }
}

#[test]
fn either_lets_a_stage_hold_two_kinds_of_system() {
    let mut bump = Scripted::named("bump");
    bump.shape = Shape::PerEntity;
    bump.writes = vec![A];
    bump.value = 1;
    let mut stage: Stage<Either<Scripted, Doubler>> = Stage::new(StageLabel::Update);
    stage.add_system(Either::Left(bump));
    stage.add_system(Either::Right(Doubler));
    assert_eq!(stage.plan(), vec![0, 1]);
    let (mut world, mut resources) = store();
    let e = world.create_entity(vec![(A, 3)]);
    assert_eq!(stage.run(&mut world, &mut resources), Ok(vec![]));
    assert_eq!(world.get(e, A), Ok(Some(&8)));
}

#[test]
fn engine_carries_an_empty_physics_subsystem() {
    let game: Game<Scripted> = Game::new(String::from("g"), vec![]);
    assert_eq!(game.engine.physic.rigidbodies.len(), 0);
    assert_eq!(game.engine.physic.colliders.len(), 0);
    assert!(game.engine.physic.rigidbodies.iter().next().is_none());
    assert!(game.engine.physic.colliders.iter().next().is_none());
    assert!(game.engine.physic.insland_manager.active_dynamic_bodies().is_empty());
    assert!(game.engine.physic.insland_manager.active_kinematic_bodies().is_empty());
    let mut app: AppBuilder<(), Scripted> = AppBuilder::new(());
    let mut engine = app.build(vec![]).unwrap().engine;
    assert_eq!(engine.tick(vec![]), Ok(vec![]));
    assert_eq!(engine.physic.rigidbodies.len(), 0);
    assert_eq!(engine.physic.colliders.len(), 0);
    assert!(engine.physic.insland_manager.active_dynamic_bodies().is_empty());
}
