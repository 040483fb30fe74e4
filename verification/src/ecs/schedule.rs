//! The schedule: the stages of a tick in their order, run as a machine that
//! goes from stage to stage and flushes the recorded commands in between.

use vstd::prelude::*;
use crate::ecs::command::{apply_all, rejections, CommandBuffer, CommandView};
use crate::ecs::entity::InvalidEntity;
use crate::ecs::model::{dispatch, run_stages, tick_rejections, Store};
use crate::ecs::resources::Resources;
use crate::ecs::stage::{MissingResource, Stage, StageLabel};
use crate::ecs::system::System;
use crate::ecs::typemap::TypeTag;
use crate::ecs::world::World;

verus! {

/// Where the schedule stands within a tick.
#[derive(Debug, Clone, Copy, PartialEq, Eq, Structural)]
pub enum Phase {
    /// Between ticks.
    Idle,
    /// The systems of the stage at this place are to run.
    Dispatching(usize),
    /// The systems of the stage at this place have run, and the commands
    /// they recorded are to be applied.
    Flushing(usize),
}

/// The stages of a tick in their order.
pub struct Schedule<S> {
    stages: Vec<Stage<S>>,
}

impl<S: System> Schedule<S> {
    pub closed spec fn wf(&self) -> bool {
        forall|i: int| 0 <= i < self.stages@.len() ==> (#[trigger] self.stages@[i]).wf()
    }

    /// The stages in their order.
    pub closed spec fn stages(&self) -> Seq<Stage<S>> {
        self.stages@
    }

    /// The systems of each stage.
    pub open spec fn view(&self) -> Seq<Seq<S>> {
        Seq::new(self.stages().len(), |i: int| self.stages()[i]@)
    }

    /// The label of each stage.
    pub open spec fn labels(&self) -> Seq<StageLabel> {
        Seq::new(self.stages().len(), |i: int| self.stages()[i].spec_label())
    }

    /// The failure of the first of the first `n` stages that has one.
    pub open spec fn missing_below(&self, resources: Map<TypeTag, S::Resource>, n: int) -> Option<
        MissingResource,
    >
        decreases n,
    {
        if n <= 0 {
            None
        } else {
            match self.missing_below(resources, n - 1) {
                Some(missing) => Some(missing),
                None => self.stages()[n - 1].missing(resources),
            }
        }
    }

    /// The failure that a tick on `resources` ends with, if any: that of the
    /// first stage in which a system names a resource type without a value.
    pub open spec fn missing(&self, resources: Map<TypeTag, S::Resource>) -> Option<
        MissingResource,
    > {
        self.missing_below(resources, self.stages().len() as int)
    }

    /// Every system of every stage finds a value for each resource type that
    /// it names.
    pub open spec fn all_present(&self, resources: Map<TypeTag, S::Resource>) -> bool {
        forall|i: int|
            0 <= i < self.stages().len() ==> (#[trigger] self.stages()[i]).all_present(resources)
    }

    /// The phase that follows `phase`.
    pub open spec fn after(&self, phase: Phase) -> Phase {
        match phase {
            Phase::Idle => if self.stages().len() > 0 {
                Phase::Dispatching(0)
            } else {
                Phase::Idle
            },
            Phase::Dispatching(i) => Phase::Flushing(i),
            Phase::Flushing(i) => if i + 1 < self.stages().len() {
                Phase::Dispatching((i + 1) as usize)
            } else {
                Phase::Idle
            },
        }
    }

    /// `phase` is `Idle` or names a stage of the schedule.
    pub open spec fn has_phase(&self, phase: Phase) -> bool {
        match phase {
            Phase::Idle => true,
            Phase::Dispatching(i) => i < self.stages().len(),
            Phase::Flushing(i) => i < self.stages().len(),
        }
    }

    /// A schedule without failure finds every resource it needs.
    pub proof fn lemma_missing_none(&self, resources: Map<TypeTag, S::Resource>, n: int)
        requires
            n <= self.stages().len(),
            self.missing_below(resources, n) is None,
        ensures
            forall|i: int| 0 <= i < n ==> (#[trigger] self.stages()[i]).all_present(resources),
        decreases n,
    {
        if n > 0 {
            self.lemma_missing_none(resources, n - 1);
            self.stages()[n - 1].lemma_missing_none(resources);
        }
    }

    /// The failure of an earlier stage stays the failure of the schedule.
    pub proof fn lemma_missing_stays(&self, resources: Map<TypeTag, S::Resource>, n: int, m: int)
        requires
            n <= m,
            self.missing_below(resources, n) is Some,
        ensures
            self.missing_below(resources, m) == self.missing_below(resources, n),
        decreases m - n,
    {
        if n < m {
            self.lemma_missing_stays(resources, n, m - 1);
        }
    }

    pub fn new() -> (schedule: Self)
        ensures
            schedule.wf(),
            schedule.stages() == Seq::<Stage<S>>::empty(),
    {
        Schedule { stages: Vec::new() }
    }

    /// Puts `stage` behind the stages of the schedule.
    pub fn add_stage(&mut self, stage: Stage<S>)
        requires
            old(self).wf(),
            stage.wf(),
        ensures
            final(self).wf(),
            final(self).stages() == old(self).stages().push(stage),
    {
        self.stages.push(stage);
    }

    pub fn len(&self) -> (n: usize)
        ensures
            n == self.stages().len(),
    {
        self.stages.len()
    }

    /// The stage at place `i`.
    pub fn stage(&self, i: usize) -> (stage: &Stage<S>)
        requires
            self.wf(),
            i < self.stages().len(),
        ensures
            *stage == self.stages()[i as int],
            stage.wf(),
    {
        &self.stages[i]
    }

    /// The first system, in the order of the stages, that names a resource
    /// type without a value in `resources`, and the first such type.
    pub fn missing_resource(&self, resources: &Resources<S::Resource>) -> (missing: Option<
        MissingResource,
    >)
        requires
            self.wf(),
            resources.wf(),
        ensures
            missing == self.missing(resources@),
    {
        let mut i: usize = 0;
        while i < self.stages.len()
            invariant
                i <= self.stages@.len(),
                self.wf(),
                resources.wf(),
                self.missing_below(resources@, i as int) is None,
            decreases self.stages@.len() - i,
        {
            match self.stages[i].missing_resource(resources) {
                Some(missing) => {
                    proof {
                        assert(self.missing_below(resources@, i + 1) == Some(missing));
                        self.lemma_missing_stays(resources@, i + 1, self.stages@.len() as int);
                    }
                    return Some(missing);
                },
                None => {},
            }
            i += 1;
        }
        None
    }

    /// The phase that follows `phase`.
    pub fn next_phase(&self, phase: Phase) -> (next: Phase)
        ensures
            next == self.after(phase),
    {
        match phase {
            Phase::Idle => if self.stages.len() > 0 {
                Phase::Dispatching(0)
            } else {
                Phase::Idle
            },
            Phase::Dispatching(i) => Phase::Flushing(i),
            Phase::Flushing(i) => if i < self.stages.len() && i + 1 < self.stages.len() {
                Phase::Dispatching(i + 1)
            } else {
                Phase::Idle
            },
        }
    }

    /// Does the work of `phase` and returns the phase that follows. While
    /// dispatching, the systems of the stage run and their commands go into
    /// `buffer`; the world keeps its shape. While flushing, the commands in
    /// `buffer` are applied to the world, and the failures of those turned
    /// away go behind `failures`.
    pub fn step(
        &self,
        phase: Phase,
        world: &mut World<S::Component>,
        resources: &mut Resources<S::Resource>,
        buffer: &mut CommandBuffer<S::Component>,
        failures: &mut Vec<InvalidEntity>,
    ) -> (next: Phase)
        requires
            self.wf(),
            self.has_phase(phase),
            old(world).wf(),
            old(resources).wf(),
            self.all_present(old(resources)@),
        ensures
            next == self.after(phase),
            final(world).wf(),
            final(resources).wf(),
            final(resources)@.dom() == old(resources)@.dom(),
            match phase {
                Phase::Idle => {
                    &&& final(world)@ == old(world)@
                    &&& final(resources)@ == old(resources)@
                    &&& final(buffer)@ == old(buffer)@
                    &&& final(failures)@ == old(failures)@
                },
                Phase::Dispatching(i) => {
                    let done = dispatch(
                        self@[i as int],
                        Store { world: old(world)@, resources: old(resources)@ },
                        self@[i as int].len() as int,
                    );
                    &&& (Store { world: final(world)@, resources: final(resources)@ })
                        == done.store
                    &&& final(buffer)@ == old(buffer)@ + done.commands
                    &&& final(failures)@ == old(failures)@
                    &&& old(world)@.same_shape(final(world)@)
                },
                Phase::Flushing(i) => {
                    &&& final(world)@ == apply_all(old(world)@, old(buffer)@)
                    &&& final(resources)@ == old(resources)@
                    &&& final(buffer)@ == Seq::<CommandView<S::Component>>::empty()
                    &&& final(failures)@ == old(failures)@ + rejections(
                        old(world)@,
                        old(buffer)@,
                    )
                },
            },
    {
        match phase {
            Phase::Idle => {},
            Phase::Dispatching(i) => {
                assert(self.stages()[i as int].all_present(resources@));
                self.stages[i].dispatch(world, resources, buffer);
            },
            Phase::Flushing(_) => {
                let mut turned_away = buffer.flush(world);
                failures.append(&mut turned_away);
            },
        }
        self.next_phase(phase)
    }

    /// Runs one tick: every stage in order, each followed by the flush of the
    /// commands that its systems recorded. Nothing runs where a system names
    /// a resource type without a value. The failures of the commands that
    /// were turned away are returned in order.
    pub fn execute(
        &self,
        world: &mut World<S::Component>,
        resources: &mut Resources<S::Resource>,
    ) -> (result: Result<Vec<InvalidEntity>, MissingResource>)
        requires
            self.wf(),
            old(world).wf(),
            old(resources).wf(),
        ensures
            final(world).wf(),
            final(resources).wf(),
            final(resources)@.dom() == old(resources)@.dom(),
            match self.missing(old(resources)@) {
                Some(missing) => {
                    &&& result == Err::<Vec<InvalidEntity>, MissingResource>(missing)
                    &&& final(world)@ == old(world)@
                    &&& final(resources)@ == old(resources)@
                },
                None => {
                    &&& result is Ok
                    &&& (Store { world: final(world)@, resources: final(resources)@ })
                        == run_stages(
                        self@,
                        Store { world: old(world)@, resources: old(resources)@ },
                        self@.len() as int,
                    )
                    &&& result->Ok_0@ == tick_rejections(
                        self@,
                        Store { world: old(world)@, resources: old(resources)@ },
                        self@.len() as int,
                    )
                },
            },
    {
        match self.missing_resource(resources) {
            Some(missing) => {
                return Err(missing);
            },
            None => {},
        }
        let ghost start = Store { world: world@, resources: resources@ };
        proof {
            self.lemma_missing_none(resources@, self.stages().len() as int);
        }
        let mut buffer = CommandBuffer::new();
        let mut failures: Vec<InvalidEntity> = Vec::new();
        let count = self.stages.len();
        let mut phase = self.next_phase(Phase::Idle);
        while phase != Phase::Idle
            invariant
                count == self.stages().len(),
                self.wf(),
                world.wf(),
                resources.wf(),
                self.has_phase(phase),
                resources@.dom() == start.resources.dom(),
                self.all_present(start.resources),
                match phase {
                    Phase::Idle => {
                        &&& (Store { world: world@, resources: resources@ }) == run_stages(
                            self@,
                            start,
                            self@.len() as int,
                        )
                        &&& failures@ == tick_rejections(self@, start, self@.len() as int)
                    },
                    Phase::Dispatching(i) => {
                        &&& (Store { world: world@, resources: resources@ }) == run_stages(
                            self@,
                            start,
                            i as int,
                        )
                        &&& failures@ == tick_rejections(self@, start, i as int)
                        &&& buffer@ == Seq::<CommandView<S::Component>>::empty()
                    },
                    Phase::Flushing(i) => {
                        let done = dispatch(
                            self@[i as int],
                            run_stages(self@, start, i as int),
                            self@[i as int].len() as int,
                        );
                        &&& (Store { world: world@, resources: resources@ }) == done.store
                        &&& failures@ == tick_rejections(self@, start, i as int)
                        &&& buffer@ == done.commands
                    },
                },
            decreases
                    match phase {
                        Phase::Idle => 0int,
                        Phase::Dispatching(i) => 2 * (self.stages().len() - i),
                        Phase::Flushing(i) => 2 * (self.stages().len() - i) - 1,
                    },
        {
            proof {
                assert forall|i: int| 0 <= i < self.stages().len() implies (
                #[trigger] self.stages()[i]).all_present(resources@) by {
                    let stage = self.stages()[i];
                    assert(stage.all_present(start.resources));
                    assert forall|k: int| 0 <= k < stage@.len() implies
                        crate::ecs::model::resources_present(
                        resources@,
                        (#[trigger] stage@[k]).declared(),
                    ) by {
                        let access = stage@[k].declared();
                        assert(crate::ecs::model::resources_present(start.resources, access));
                        assert forall|j: int| 0 <= j < access.resources().len() implies
                            resources@.contains_key(#[trigger] access.resources()[j]) by {
                            assert(start.resources.dom().contains(access.resources()[j]));
                        }
                    }
                }
            }
            let ghost recorded = buffer@;
            let ghost before = Store { world: world@, resources: resources@ };
            let ghost earlier = failures@;
            let ghost was = phase;
            phase = self.step(phase, world, resources, &mut buffer, &mut failures);
            proof {
                assert(self@.len() == self.stages().len());
                match was {
                    Phase::Idle => {},
                    Phase::Dispatching(i) => {
                        let done = dispatch(self@[i as int], before, self@[i as int].len() as int);
                        assert(buffer@ =~= done.commands);
                    },
                    Phase::Flushing(i) => {
                        let base = run_stages(self@, start, i as int);
                        let done = dispatch(self@[i as int], base, self@[i as int].len() as int);
                        assert(run_stages(self@, start, i + 1) == crate::ecs::model::run_stage(
                            self@[i as int],
                            base,
                        ));
                        assert(tick_rejections(self@, start, i + 1) == tick_rejections(
                            self@,
                            start,
                            i as int,
                        ) + crate::ecs::model::stage_rejections(self@[i as int], base));
                        assert((Store { world: world@, resources: resources@ }) == run_stages(
                            self@,
                            start,
                            i + 1,
                        ));
                    },
                }
            }
        }
        if self.stages.len() == 0 {
            assert(failures@ =~= Seq::<InvalidEntity>::empty());
        }
        Ok(failures)
    }
}

} // verus!
