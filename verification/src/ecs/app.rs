//! The builder of an engine: it collects systems for the four stages,
//! resources and first entities, by itself or through plugins, and then makes
//! the engine.

use vstd::prelude::*;
use crate::ecs::engine::Engine;
use crate::ecs::entity::InvalidEntity;
use crate::ecs::model::{run_stage, stage_rejections, Store};
use crate::ecs::physic::Physic;
use crate::ecs::resources::Resources;
use crate::ecs::schedule::Schedule;
use crate::ecs::stage::{MissingResource, Stage, StageLabel};
use crate::ecs::state::WorldState;
use crate::ecs::system::System;
use crate::ecs::typemap::{bundle, insert_all, TypeTag};
use crate::ecs::world::World;

verus! {

/// Drives an engine: tick after tick until the application ends.
pub trait Runner<S: System>: Sized {
    fn run(self, engine: Engine<S>)
        requires
            engine.wf(),
    ;
}

/// A unit of configuration: it registers systems, resources and entities
/// with a builder, and keeps nothing for itself.
pub trait Plugin<W, S: System> {
    /// What a builder holds once the plugin has registered what it brings
    /// with a builder that held `before`. A plugin is a transform of the
    /// configuration and nothing else, so this depends on the plugin and on
    /// `before` alone; an implementation may state its own.
    open spec fn injected(&self, before: BuilderView<W, S>) -> BuilderView<W, S> {
        arbitrary()
    }

    fn inject(&self, app: &mut AppBuilder<W, S>)
        requires
            old(app).wf(),
        ensures
            final(app).wf(),
            final(app)@ == self.injected(old(app)@),
    ;
}

/// Collects what an engine is made of.
pub struct AppBuilder<W, S: System> {
    world: World<S::Component>,
    resources: Resources<S::Resource>,
    pub window: Option<W>,
    startup_system: Stage<S>,
    preupdate_system: Stage<S>,
    update_system: Stage<S>,
    postupdate_system: Stage<S>,
}

/// An `AppBuilder` as a value: the window it holds, the world and the
/// resources as they stand, and the systems of each stage in the order of
/// their registration.
pub struct BuilderView<W, S: System> {
    pub window: Option<W>,
    pub world: WorldState<S::Component>,
    pub resources: Map<TypeTag, S::Resource>,
    pub startup: Seq<S>,
    pub preupdate: Seq<S>,
    pub update: Seq<S>,
    pub postupdate: Seq<S>,
}

/// The stages of a tick that a builder with these systems makes: one for
/// each of the three lists that is not empty, in this order.
pub open spec fn tick_stages<S>(preupdate: Seq<S>, update: Seq<S>, postupdate: Seq<S>) -> Seq<
    Seq<S>,
> {
    (if preupdate.len() > 0 {
        seq![preupdate]
    } else {
        Seq::empty()
    }) + (if update.len() > 0 {
        seq![update]
    } else {
        Seq::empty()
    }) + (if postupdate.len() > 0 {
        seq![postupdate]
    } else {
        Seq::empty()
    })
}

/// The labels of the stages of `tick_stages`.
pub open spec fn tick_labels<S>(preupdate: Seq<S>, update: Seq<S>, postupdate: Seq<S>) -> Seq<
    StageLabel,
> {
    (if preupdate.len() > 0 {
        seq![StageLabel::PreUpdate]
    } else {
        Seq::empty()
    }) + (if update.len() > 0 {
        seq![StageLabel::Update]
    } else {
        Seq::empty()
    }) + (if postupdate.len() > 0 {
        seq![StageLabel::PostUpdate]
    } else {
        Seq::empty()
    })
}

/// What `AppBuilder::build` hands back: the engine, and the failures of the
/// commands of the startup systems that were turned away.
pub struct Built<S: System> {
    pub engine: Engine<S>,
    pub rejected: Vec<InvalidEntity>,
}

impl<W, S: System> BuilderView<W, S> {
    /// A builder that holds `window` and nothing else.
    pub open spec fn empty(window: Option<W>) -> Self {
        BuilderView {
            window,
            world: WorldState::empty(),
            resources: Map::empty(),
            startup: Seq::empty(),
            preupdate: Seq::empty(),
            update: Seq::empty(),
            postupdate: Seq::empty(),
        }
    }

    /// The world and the resources.
    pub open spec fn store(self) -> Store<S::Component, S::Resource> {
        Store { world: self.world, resources: self.resources }
    }

    /// The store of the engine that the builder makes when it is handed
    /// `external`: the startup systems have run once, as one stage, and then
    /// each of `external` was stored as a resource.
    pub open spec fn built_store(self, external: Seq<(TypeTag, S::Resource)>) -> Store<
        S::Component,
        S::Resource,
    > {
        let started = run_stage(self.startup, self.store());
        Store { world: started.world, resources: insert_all(started.resources, external) }
    }
}

impl<W, S: System> AppBuilder<W, S> {
    pub closed spec fn wf(&self) -> bool {
        &&& self.world.wf()
        &&& self.resources.wf()
        &&& self.startup_system.wf()
        &&& self.preupdate_system.wf()
        &&& self.update_system.wf()
        &&& self.postupdate_system.wf()
        &&& self.startup_system.spec_label() == StageLabel::Startup
        &&& self.preupdate_system.spec_label() == StageLabel::PreUpdate
        &&& self.update_system.spec_label() == StageLabel::Update
        &&& self.postupdate_system.spec_label() == StageLabel::PostUpdate
    }

    pub closed spec fn view(&self) -> BuilderView<W, S> {
        BuilderView {
            window: self.window,
            world: self.world@,
            resources: self.resources@,
            startup: self.startup_system@,
            preupdate: self.preupdate_system@,
            update: self.update_system@,
            postupdate: self.postupdate_system@,
        }
    }

    /// The failure that building ends with, if any: that of the first
    /// startup system that names a resource type without a value.
    pub closed spec fn missing(&self) -> Option<MissingResource> {
        self.startup_system.missing(self.resources@)
    }

    pub fn new(window: W) -> (app: Self)
        ensures
            app.wf(),
            app@ == BuilderView::<W, S>::empty(Some(window)),
    {
        AppBuilder {
            world: World::new(),
            resources: Resources::new(),
            window: Some(window),
            startup_system: Stage::new(StageLabel::Startup),
            preupdate_system: Stage::new(StageLabel::PreUpdate),
            update_system: Stage::new(StageLabel::Update),
            postupdate_system: Stage::new(StageLabel::PostUpdate),
        }
    }

    /// Lets `plugin` register what it brings: the builder then holds what
    /// the plugin makes of what it held before.
    pub fn add_plugin<P: Plugin<W, S>>(&mut self, plugin: P) -> (app: &mut Self)
        requires
            old(self).wf(),
        ensures
            app.wf(),
            app@ == plugin.injected(old(self)@),
            *final(self) == *final(app),
    {
        plugin.inject(self);
        self
    }

    /// Creates an entity with `components` in the world of the engine to be.
    pub fn add_component(&mut self, components: Vec<(TypeTag, S::Component)>) -> (app: &mut Self)
        requires
            old(self).wf(),
        ensures
            app.wf(),
            app@ == (BuilderView {
                world: old(self)@.world.spawn(bundle(components@)),
                ..old(self)@
            }),
            *final(self) == *final(app),
    {
        let _ = self.world.create_entity(components);
        self
    }

    /// Registers `system` to run once, before the first tick.
    pub fn add_startup_system(&mut self, system: S) -> (app: &mut Self)
        requires
            old(self).wf(),
        ensures
            app.wf(),
            app@ == (BuilderView { startup: old(self)@.startup.push(system), ..old(self)@ }),
            *final(self) == *final(app),
    {
        self.startup_system.add_system(system);
        self
    }

    /// Registers `system` for the first stage of every tick.
    pub fn add_preupdate_system(&mut self, system: S) -> (app: &mut Self)
        requires
            old(self).wf(),
        ensures
            app.wf(),
            app@ == (BuilderView { preupdate: old(self)@.preupdate.push(system), ..old(self)@ }),
            *final(self) == *final(app),
    {
        self.preupdate_system.add_system(system);
        self
    }

    /// Registers `system` for the middle stage of every tick.
    pub fn add_system(&mut self, system: S) -> (app: &mut Self)
        requires
            old(self).wf(),
        ensures
            app.wf(),
            app@ == (BuilderView { update: old(self)@.update.push(system), ..old(self)@ }),
            *final(self) == *final(app),
    {
        self.update_system.add_system(system);
        self
    }

    /// Registers `system` for the last stage of every tick.
    pub fn add_postupdate_system(&mut self, system: S) -> (app: &mut Self)
        requires
            old(self).wf(),
        ensures
            app.wf(),
            app@ == (BuilderView {
                postupdate: old(self)@.postupdate.push(system),
                ..old(self)@
            }),
            *final(self) == *final(app),
    {
        self.postupdate_system.add_system(system);
        self
    }

    /// Makes `resource` the resource of type `tag`, in place of the one that
    /// was added for that type before, if any.
    pub fn add_resource(&mut self, tag: TypeTag, resource: S::Resource) -> (app: &mut Self)
        requires
            old(self).wf(),
        ensures
            app.wf(),
            app@ == (BuilderView {
                resources: old(self)@.resources.insert(tag, resource),
                ..old(self)@
            }),
            *final(self) == *final(app),
    {
        let _ = self.resources.insert(tag, resource);
        self
    }

    /// Makes the engine, with an empty physics subsystem, and leaves the
    /// builder with its window and nothing else. The startup systems run
    /// once, as one stage; then each of `external` is stored as a resource;
    /// the schedule of the engine gets a stage for each of the three other
    /// lists of systems that is not empty. Where a startup system names a
    /// resource type without a value, no system runs and the builder stays
    /// as it is.
    pub fn build(&mut self, external: Vec<(TypeTag, S::Resource)>) -> (result: Result<
        Built<S>,
        MissingResource,
    >)
        requires
            old(self).wf(),
        ensures
            final(self).wf(),
            match old(self).missing() {
                Some(missing) => {
                    &&& result matches Err(failure)
                    &&& failure == missing
                    &&& final(self)@ == old(self)@
                },
                None => {
                    &&& result matches Ok(built)
                    &&& built.engine.wf()
                    &&& built.engine.store() == old(self)@.built_store(external@)
                    &&& built.engine.schedule@ == tick_stages(
                        old(self)@.preupdate,
                        old(self)@.update,
                        old(self)@.postupdate,
                    )
                    &&& built.engine.physic.is_empty()
                    &&& built.engine.schedule.labels() == tick_labels(
                        old(self)@.preupdate,
                        old(self)@.update,
                        old(self)@.postupdate,
                    )
                    &&& built.rejected@ == stage_rejections(
                        old(self)@.startup,
                        old(self)@.store(),
                    )
                    &&& final(self)@ == BuilderView::<W, S>::empty(old(self)@.window)
                },
            },
    {
        let rejected = match self.startup_system.run(&mut self.world, &mut self.resources) {
            Err(missing) => {
                return Err(missing);
            },
            Ok(rejected) => rejected,
        };
        self.resources.insert_all(external);
        let mut world = World::new();
        let mut resources = Resources::new();
        std::mem::swap(&mut self.world, &mut world);
        std::mem::swap(&mut self.resources, &mut resources);
        let mut preupdate = Stage::new(StageLabel::PreUpdate);
        let mut update = Stage::new(StageLabel::Update);
        let mut postupdate = Stage::new(StageLabel::PostUpdate);
        std::mem::swap(&mut self.preupdate_system, &mut preupdate);
        std::mem::swap(&mut self.update_system, &mut update);
        std::mem::swap(&mut self.postupdate_system, &mut postupdate);
        self.startup_system = Stage::new(StageLabel::Startup);
        let mut schedule = Schedule::new();
        if preupdate.len() > 0 {
            schedule.add_stage(preupdate);
        }
        if update.len() > 0 {
            schedule.add_stage(update);
        }
        if postupdate.len() > 0 {
            schedule.add_stage(postupdate);
        }
        assert(schedule@ =~= tick_stages(
            old(self)@.preupdate,
            old(self)@.update,
            old(self)@.postupdate,
        ));
        assert(schedule.labels() =~= tick_labels(
            old(self)@.preupdate,
            old(self)@.update,
            old(self)@.postupdate,
        ));
        Ok(Built { engine: Engine { world, resources, schedule, physic: Physic::new() }, rejected })
    }

    /// Makes the engine, as `build` does, and hands it to the window to run
    /// it. What the runner does with the engine is its own affair.
    pub fn run(&mut self, external: Vec<(TypeTag, S::Resource)>) -> (result: Result<
        Vec<InvalidEntity>,
        MissingResource,
    >) where W: Runner<S>
        requires
            old(self).wf(),
            old(self)@.window is Some,
        ensures
            final(self).wf(),
            match old(self).missing() {
                Some(missing) => {
                    &&& result == Err::<Vec<InvalidEntity>, MissingResource>(missing)
                    &&& final(self)@ == old(self)@
                },
                None => {
                    &&& result is Ok
                    &&& result->Ok_0@ == stage_rejections(old(self)@.startup, old(self)@.store())
                    &&& final(self)@ == BuilderView::<W, S>::empty(None)
                },
            },
    {
        match self.build(external) {
            Err(missing) => Err(missing),
            Ok(built) => {
                let window = self.window.take().unwrap();
                window.run(built.engine);
                Ok(built.rejected)
            },
        }
    }
}

} // verus!
