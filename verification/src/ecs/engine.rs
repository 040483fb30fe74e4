//! The engine: a world, the resources and the schedule that works on them.

use vstd::prelude::*;
use crate::ecs::entity::InvalidEntity;
use crate::ecs::model::{run_stages, tick_rejections, Store};
use crate::ecs::physic::Physic;
use crate::ecs::resources::Resources;
use crate::ecs::schedule::Schedule;
use crate::ecs::stage::{MissingResource, Stage, StageLabel};
use crate::ecs::system::System;
use crate::ecs::typemap::{insert_all, TypeTag};
use crate::ecs::world::World;

verus! {

/// What a runner drives: once per frame it hands the engine the resources of
/// the frame and lets the schedule run.
pub struct Engine<S: System> {
    pub world: World<S::Component>,
    pub resources: Resources<S::Resource>,
    pub schedule: Schedule<S>,
    pub physic: Physic,
}

impl<S: System> Engine<S> {
    pub open spec fn wf(&self) -> bool {
        &&& self.world.wf()
        &&& self.resources.wf()
        &&& self.schedule.wf()
    }

    /// The world and the resources.
    pub open spec fn store(&self) -> Store<S::Component, S::Resource> {
        Store { world: self.world@, resources: self.resources@ }
    }

    /// Runs one tick. First each of `frame` is stored as a resource, in
    /// place of the value that its type had in the tick before; then the
    /// schedule runs. Where a system names a resource type that has no value
    /// even then, no system runs.
    pub fn tick(&mut self, frame: Vec<(TypeTag, S::Resource)>) -> (result: Result<
        Vec<InvalidEntity>,
        MissingResource,
    >)
        requires
            old(self).wf(),
        ensures
            final(self).wf(),
            final(self).schedule == old(self).schedule,
            final(self).physic == old(self).physic,
            ({
                let resources = insert_all(old(self).resources@, frame@);
                let start = Store { world: old(self).world@, resources };
                match old(self).schedule.missing(resources) {
                    Some(missing) => {
                        &&& result == Err::<Vec<InvalidEntity>, MissingResource>(missing)
                        &&& final(self).store() == start
                    },
                    None => {
                        &&& result is Ok
                        &&& final(self).store() == run_stages(
                            old(self).schedule@,
                            start,
                            old(self).schedule@.len() as int,
                        )
                        &&& result->Ok_0@ == tick_rejections(
                            old(self).schedule@,
                            start,
                            old(self).schedule@.len() as int,
                        )
                    },
                }
            }),
    {
        self.resources.insert_all(frame);
        self.schedule.execute(&mut self.world, &mut self.resources)
    }
}

/// A schedule with one stage, labelled `label`, that holds `systems` in
/// their order; without a stage where there are no systems.
pub fn single_stage<S: System>(label: StageLabel, systems: Vec<S>) -> (schedule: Schedule<S>)
    ensures
        schedule.wf(),
        schedule@ == (if systems@.len() > 0 {
            seq![systems@]
        } else {
            Seq::<Seq<S>>::empty()
        }),
        schedule.labels() == (if systems@.len() > 0 {
            seq![label]
        } else {
            Seq::<StageLabel>::empty()
        }),
{
    let mut schedule = Schedule::new();
    if systems.len() > 0 {
        let mut stage = Stage::new(label);
        let ghost all = systems@;
        let ghost mut done: int = 0;
        for system in it: systems
            invariant
                stage.wf(),
                stage.spec_label() == label,
                it.seq() == all,
                done == it.index(),
                stage@ == all.take(done),
        {
            stage.add_system(system);
            proof {
                assert(all.take(done + 1) =~= all.take(done).push(all[done]));
                done = done + 1;
            }
        }
        assert(all.take(done) =~= all);
        schedule.add_stage(stage);
        assert(schedule@ =~= seq![all]);
        assert(schedule.labels() =~= seq![label]);
    } else {
        assert(schedule@ =~= Seq::<Seq<S>>::empty());
        assert(schedule.labels() =~= Seq::<StageLabel>::empty());
    }
    schedule
}

/// A game: a title and the engine that runs it.
pub struct Game<S: System> {
    pub title: String,
    pub engine: Engine<S>,
}

impl<S: System> Game<S> {
    /// A game with an empty world, no resources, an empty physics
    /// subsystem, and `systems` as its one stage, labelled `Update`.
    pub fn new(title: String, systems: Vec<S>) -> (game: Self)
        ensures
            game.title@ == title@,
            game.engine.wf(),
            game.engine.world@ == crate::ecs::state::WorldState::<S::Component>::empty(),
            game.engine.resources@ == Map::<TypeTag, S::Resource>::empty(),
            game.engine.schedule@ == (if systems@.len() > 0 {
                seq![systems@]
            } else {
                Seq::<Seq<S>>::empty()
            }),
            game.engine.schedule.labels() == (if systems@.len() > 0 {
                seq![StageLabel::Update]
            } else {
                Seq::<StageLabel>::empty()
            }),
            game.engine.physic.is_empty(),
    {
        let schedule = single_stage(StageLabel::Update, systems);
        Game {
            title,
            engine: Engine {
                world: World::new(),
                resources: Resources::new(),
                schedule,
                physic: Physic::new(),
            },
        }
    }
}

} // verus!
