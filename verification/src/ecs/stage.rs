//! A stage: systems in the order of their registration, run one after the
//! other, with the commands they record applied to the world when all of
//! them are done.

use vstd::prelude::*;
use crate::ecs::access::Access;
use crate::ecs::command::CommandBuffer;
use crate::ecs::entity::{Entity, InvalidEntity};
use crate::ecs::model::{
    batch_floor,
    batch_of,
    component_values,
    declarations,
    dispatch,
    first_absent,
    first_missing,
    lemma_batch_floor_at_most,
    lemma_first_absent_stays,
    lemma_first_missing_stays,
    lemma_none_missing,
    lemma_resources_present,
    lemma_write_components_shape,
    lemma_write_resources_dom,
    resource_values,
    resources_present,
    run_stage,
    run_system,
    stage_rejections,
    visit,
    visit_each,
    write_components,
    write_resources,
    Store,
};
use crate::ecs::resources::Resources;
use crate::ecs::system::{referents, Shape, System, SystemInput, SystemOutput};
use crate::ecs::typemap::TypeTag;
use crate::ecs::world::World;

verus! {

/// References to the components of `entity` of the types `tags`.
fn gather_components<'a, C>(world: &'a World<C>, entity: Entity, tags: &Vec<TypeTag>) -> (values:
    Vec<&'a C>)
    requires
        world.wf(),
        world@.is_live(entity),
        forall|i: int| 0 <= i < tags@.len() ==> world@.components(entity).contains_key(tags@[i]),
    ensures
        referents(values@) == component_values(world@, entity, tags@),
{
    let mut values: Vec<&'a C> = Vec::new();
    let mut i: usize = 0;
    while i < tags.len()
        invariant
            i <= tags@.len(),
            world.wf(),
            world@.is_live(entity),
            forall|i: int|
                0 <= i < tags@.len() ==> world@.components(entity).contains_key(tags@[i]),
            values@.len() == i,
            forall|j: int| 0 <= j < i ==> *values@[j] == world@.components(entity)[tags@[j]],
        decreases tags@.len() - i,
    {
        values.push(world.component(entity, tags[i]));
        i += 1;
    }
    assert(referents(values@) =~= component_values(world@, entity, tags@));
    values
}

/// References to the resources of the types `tags`.
fn gather_resources<'a, R>(resources: &'a Resources<R>, tags: &Vec<TypeTag>) -> (values: Vec<
    &'a R,
>)
    requires
        resources.wf(),
        forall|i: int| 0 <= i < tags@.len() ==> resources@.contains_key(tags@[i]),
    ensures
        referents(values@) == resource_values(resources@, tags@),
{
    let mut values: Vec<&'a R> = Vec::new();
    let mut i: usize = 0;
    while i < tags.len()
        invariant
            i <= tags@.len(),
            resources.wf(),
            forall|i: int| 0 <= i < tags@.len() ==> resources@.contains_key(tags@[i]),
            values@.len() == i,
            forall|j: int| 0 <= j < i ==> *values@[j] == resources@[tags@[j]],
        decreases tags@.len() - i,
    {
        values.push(resources.get(tags[i]).unwrap());
        i += 1;
    }
    assert(referents(values@) =~= resource_values(resources@, tags@));
    values
}

/// Stores `values` as the components of `entity` of the types `tags`.
fn scatter_components<C>(world: &mut World<C>, entity: Entity, tags: &Vec<TypeTag>, values: Vec<C>)
    requires
        old(world).wf(),
        old(world)@.is_live(entity),
        values@.len() == tags@.len(),
    ensures
        final(world).wf(),
        final(world)@ == write_components(
            old(world)@,
            entity,
            tags@,
            values@,
            tags@.len() as int,
        ),
{
    let ghost all = values@;
    let ghost mut done: int = 0;
    let count = tags.len();
    let mut i: usize = 0;
    for value in it: values
        invariant
            count == tags@.len(),
            world.wf(),
            world@.is_live(entity),
            it.seq() == all,
            all.len() == tags@.len(),
            done == it.index(),
            done == i,
            world@ == write_components(old(world)@, entity, tags@, all, done),
    {
        let _ = world.add_component(entity, tags[i], value);
        proof {
            done = done + 1;
        }
        i += 1;
    }
}

/// Stores `values` as the resources of the types `tags`.
fn scatter_resources<R>(resources: &mut Resources<R>, tags: &Vec<TypeTag>, values: Vec<R>)
    requires
        old(resources).wf(),
        values@.len() == tags@.len(),
    ensures
        final(resources).wf(),
        final(resources)@ == write_resources(old(resources)@, tags@, values@, tags@.len() as int),
{
    let ghost all = values@;
    let ghost mut done: int = 0;
    let count = tags.len();
    let mut i: usize = 0;
    for value in it: values
        invariant
            count == tags@.len(),
            resources.wf(),
            it.seq() == all,
            all.len() == tags@.len(),
            done == it.index(),
            done == i,
            resources@ == write_resources(old(resources)@, tags@, all, done),
    {
        let _ = resources.insert(tags[i], value);
        proof {
            done = done + 1;
        }
        i += 1;
    }
}

/// The tags of `a` followed by those of `b`.
fn concat(a: &Vec<TypeTag>, b: &Vec<TypeTag>) -> (both: Vec<TypeTag>)
    ensures
        both@ == a@ + b@,
{
    let mut both: Vec<TypeTag> = Vec::new();
    let mut i: usize = 0;
    while i < a.len()
        invariant
            i <= a@.len(),
            both@ == a@.take(i as int),
        decreases a@.len() - i,
    {
        both.push(a[i]);
        assert(both@ =~= a@.take(i + 1));
        i += 1;
    }
    assert(a@.take(i as int) =~= a@);
    let mut k: usize = 0;
    while k < b.len()
        invariant
            k <= b@.len(),
            both@ == a@ + b@.take(k as int),
        decreases b@.len() - k,
    {
        both.push(b[k]);
        assert(both@ =~= a@ + b@.take(k + 1));
        k += 1;
    }
    assert(b@.take(k as int) =~= b@);
    both
}

/// A system as a stage keeps it: with its declaration and its shape, asked
/// for once, when the system is registered.
pub struct Registered<S> {
    system: S,
    access: Access,
    shape: Shape,
    components: Vec<TypeTag>,
    resources: Vec<TypeTag>,
}

impl<S: System> Registered<S> {
    /// What is kept is what the system declares.
    pub closed spec fn wf(&self) -> bool {
        &&& self.access@ == self.system.declared()
        &&& self.shape == self.system.kind()
        &&& self.components@ == self.access@.components()
        &&& self.resources@ == self.access@.resources()
    }

    /// The system itself.
    pub closed spec fn system(&self) -> S {
        self.system
    }

    fn new(system: S) -> (registered: Self)
        ensures
            registered.wf(),
            registered.system() == system,
    {
        let access = system.access();
        let shape = system.shape();
        let components = concat(access.reads(), access.writes());
        let resources = concat(access.resource_reads(), access.resource_writes());
        Registered { system, access, shape, components, resources }
    }

    /// The declaration of the system.
    pub fn access(&self) -> (access: &Access)
        requires
            self.wf(),
        ensures
            access@ == self.system().declared(),
    {
        &self.access
    }

    /// Runs the body of the system once, for `entity` or for none, writes
    /// back what it yields and keeps the commands it records.
    fn visit(
        &self,
        world: &mut World<S::Component>,
        resources: &mut Resources<S::Resource>,
        buffer: &mut CommandBuffer<S::Component>,
        entity: Option<Entity>,
    )
        requires
            self.wf(),
            old(world).wf(),
            old(resources).wf(),
            resources_present(old(resources)@, self.system().declared()),
            entity matches Some(e) ==> old(world)@.is_live(e) && forall|i: int|
                0 <= i < self.system().declared().components().len() ==> old(world)@.components(
                    e,
                ).contains_key(#[trigger] self.system().declared().components()[i]),
        ensures
            final(world).wf(),
            final(resources).wf(),
            (Store { world: final(world)@, resources: final(resources)@ }) == visit(
                self.system(),
                Store { world: old(world)@, resources: old(resources)@ },
                entity,
            ).store,
            final(buffer)@ == old(buffer)@ + visit(
                self.system(),
                Store { world: old(world)@, resources: old(resources)@ },
                entity,
            ).commands,
            old(world)@.same_shape(final(world)@),
            final(resources)@.dom() == old(resources)@.dom(),
    {
        let ghost access = self.access@;
        let ghost store = Store { world: world@, resources: resources@ };
        proof {
            lemma_resources_present(resources@, access);
            if let Some(e) = entity {
                assert forall|i: int| 0 <= i < access.reads.len() implies world@.components(
                    e,
                ).contains_key(access.reads[i]) by {
                    assert(access.components()[i] == access.reads[i]);
                }
                assert forall|i: int| 0 <= i < access.writes.len() implies world@.components(
                    e,
                ).contains_key(access.writes[i]) by {
                    assert(access.components()[access.reads.len() + i] == access.writes[i]);
                }
            }
        }
        let output = {
            let input = SystemInput {
                entity,
                reads: match entity {
                    Some(e) => gather_components(world, e, self.access.reads()),
                    None => Vec::new(),
                },
                writes: match entity {
                    Some(e) => gather_components(world, e, self.access.writes()),
                    None => Vec::new(),
                },
                resource_reads: gather_resources(resources, self.access.resource_reads()),
                resource_writes: gather_resources(resources, self.access.resource_writes()),
            };
            proof {
                if entity is None {
                    assert(referents(input.reads@) =~= Seq::empty());
                    assert(referents(input.writes@) =~= Seq::empty());
                } else {
                    assert(input.writes@.len() == referents(input.writes@).len());
                }
                assert(input.resource_writes@.len() == referents(input.resource_writes@).len());
                assert(input@ == crate::ecs::model::input_for(store, access, entity));
            }
            self.system.run(&input)
        };
        let SystemOutput { writes, resource_writes, commands } = output;
        proof {
            lemma_write_resources_dom(
                resources@,
                access.resource_writes,
                resource_writes@,
                access.resource_writes.len() as int,
            );
        }
        match entity {
            Some(e) => {
                proof {
                    lemma_write_components_shape(
                        world@,
                        e,
                        access.writes,
                        writes@,
                        access.writes.len() as int,
                    );
                }
                scatter_components(world, e, self.access.writes(), writes);
            },
            None => {},
        }
        scatter_resources(resources, self.access.resource_writes(), resource_writes);
        buffer.extend(commands);
    }

    /// The first resource type that the system names and that has no value.
    fn absent(&self, resources: &Resources<S::Resource>) -> (tag: Option<TypeTag>)
        requires
            self.wf(),
            resources.wf(),
        ensures
            tag == first_absent(
                resources@,
                self.system().declared().resources(),
                self.system().declared().resources().len() as int,
            ),
    {
        let mut i: usize = 0;
        while i < self.resources.len()
            invariant
                i <= self.resources@.len(),
                self.wf(),
                resources.wf(),
                first_absent(resources@, self.resources@, i as int) is None,
            decreases self.resources@.len() - i,
        {
            let tag = self.resources[i];
            if !resources.contains(tag) {
                proof {
                    assert(first_absent(resources@, self.resources@, i + 1) == Some(tag));
                    lemma_first_absent_stays(
                        resources@,
                        self.resources@,
                        i + 1,
                        self.resources@.len() as int,
                    );
                }
                return Some(tag);
            }
            i += 1;
        }
        None
    }

    /// Runs the system once: its body for every entity that has the declared
    /// component types, in the order of the slots, or once for none.
    fn run(
        &self,
        world: &mut World<S::Component>,
        resources: &mut Resources<S::Resource>,
        buffer: &mut CommandBuffer<S::Component>,
    )
        requires
            self.wf(),
            old(world).wf(),
            old(resources).wf(),
            resources_present(old(resources)@, self.system().declared()),
        ensures
            final(world).wf(),
            final(resources).wf(),
            (Store { world: final(world)@, resources: final(resources)@ }) == run_system(
                self.system(),
                Store { world: old(world)@, resources: old(resources)@ },
            ).store,
            final(buffer)@ == old(buffer)@ + run_system(
                self.system(),
                Store { world: old(world)@, resources: old(resources)@ },
            ).commands,
            old(world)@.same_shape(final(world)@),
            final(resources)@.dom() == old(resources)@.dom(),
    {
        match self.shape {
            Shape::Once => {
                self.visit(world, resources, buffer, None);
            },
            Shape::PerEntity => {
                let ghost start = Store { world: world@, resources: resources@ };
                let ghost types = self.system().declared().components().to_set();
                let entities = world.query(&self.components);
                proof {
                    world.lemma_view_wf();
                    start.world.lemma_matching_members(types, start.world.slots.len() as int);
                    assert(buffer@ =~= old(buffer)@ + Seq::empty());
                }
                let mut k: usize = 0;
                while k < entities.len()
                    invariant
                        k <= entities@.len(),
                        self.wf(),
                        world.wf(),
                        resources.wf(),
                        types == self.system().declared().components().to_set(),
                        entities@ == start.world.matching(types),
                        forall|j: int|
                            0 <= j < entities@.len() ==> {
                                &&& start.world.is_live(#[trigger] entities@[j])
                                &&& types.subset_of(start.world.components(entities@[j]).dom())
                            },
                        start.world.same_shape(world@),
                        resources@.dom() == start.resources.dom(),
                        resources_present(start.resources, self.system().declared()),
                        (Store { world: world@, resources: resources@ }) == visit_each(
                            self.system(),
                            start,
                            entities@,
                            k as int,
                        ).store,
                        buffer@ == old(buffer)@ + visit_each(
                            self.system(),
                            start,
                            entities@,
                            k as int,
                        ).commands,
                    decreases entities@.len() - k,
                {
                    let entity = entities[k];
                    let ghost before = Store { world: world@, resources: resources@ };
                    let ghost recorded = buffer@;
                    proof {
                        let tags = self.system().declared().components();
                        assert(start.world.slots[entity.index as int].generation
                            == world@.slots[entity.index as int].generation);
                        assert forall|i: int| 0 <= i < tags.len() implies world@.components(
                            entity,
                        ).contains_key(#[trigger] tags[i]) by {
                            assert(types.contains(tags[i]));
                        }
                        assert forall|i: int|
                            0 <= i < self.system().declared().resources().len()
                            implies resources@.contains_key(
                            #[trigger] self.system().declared().resources()[i],
                        ) by {
                            assert(start.resources.dom().contains(
                                self.system().declared().resources()[i],
                            ));
                        }
                    }
                    self.visit(world, resources, buffer, Some(entity));
                    proof {
                        start.world.lemma_same_shape_trans(before.world, world@);
                        let step = visit(self.system(), before, Some(entity));
                        let earlier = visit_each(self.system(), start, entities@, k as int);
                        assert(buffer@ =~= old(buffer)@ + (earlier.commands + step.commands));
                    }
                    k += 1;
                }
            },
        }
    }
}

/// The place of a stage in a tick.
#[derive(Debug, Clone, Copy, PartialEq, Eq, Structural)]
pub enum StageLabel {
    /// Runs once, before the first tick.
    Startup,
    PreUpdate,
    Update,
    PostUpdate,
}

/// A system names a resource type that has no value.
#[derive(Debug, Clone, Copy, PartialEq, Eq, Structural)]
pub struct MissingResource {
    /// The stage of the system.
    pub stage: StageLabel,
    /// The place of the system in its stage, in the order of registration.
    pub system: usize,
    /// The resource type without a value.
    pub resource: TypeTag,
}

/// Systems in the order of their registration.
pub struct Stage<S> {
    label: StageLabel,
    systems: Vec<Registered<S>>,
}

impl<S: System> Stage<S> {
    pub closed spec fn wf(&self) -> bool {
        forall|i: int| 0 <= i < self.systems@.len() ==> (#[trigger] self.systems@[i]).wf()
    }

    /// The systems in the order of their registration.
    pub closed spec fn view(&self) -> Seq<S> {
        Seq::new(self.systems@.len(), |i: int| self.systems@[i].system())
    }

    pub closed spec fn spec_label(&self) -> StageLabel {
        self.label
    }

    /// The failure that a run of the stage on `resources` ends with, if any:
    /// that of the first system that names a resource type without a value.
    pub open spec fn missing(&self, resources: Map<TypeTag, S::Resource>) -> Option<
        MissingResource,
    > {
        match first_missing(self@, resources, self@.len() as int) {
            Some((system, resource)) => Some(
                MissingResource { stage: self.spec_label(), system: system as usize, resource },
            ),
            None => None,
        }
    }

    /// Every system of the stage finds a value for each resource type that
    /// it names.
    pub open spec fn all_present(&self, resources: Map<TypeTag, S::Resource>) -> bool {
        forall|k: int|
            0 <= k < self@.len() ==> resources_present(resources, (#[trigger] self@[k]).declared())
    }

    /// A stage that ends with no failure finds every resource it needs.
    pub proof fn lemma_missing_none(&self, resources: Map<TypeTag, S::Resource>)
        requires
            self.missing(resources) is None,
        ensures
            self.all_present(resources),
    {
        lemma_none_missing(self@, resources, self@.len() as int);
    }

    pub fn new(label: StageLabel) -> (stage: Self)
        ensures
            stage.wf(),
            stage@ == Seq::<S>::empty(),
            stage.spec_label() == label,
    {
        let stage = Stage { label, systems: Vec::new() };
        assert(stage@ =~= Seq::empty());
        stage
    }

    #[verifier::when_used_as_spec(spec_label)]
    pub fn label(&self) -> (label: StageLabel)
        ensures
            label == self.spec_label(),
    {
        self.label
    }

    pub fn len(&self) -> (n: usize)
        ensures
            n == self@.len(),
    {
        self.systems.len()
    }

    /// Registers `system` behind the systems registered so far.
    pub fn add_system(&mut self, system: S)
        requires
            old(self).wf(),
        ensures
            final(self).wf(),
            final(self)@ == old(self)@.push(system),
            final(self).spec_label() == old(self).spec_label(),
    {
        let registered = Registered::new(system);
        self.systems.push(registered);
        assert(self@ =~= old(self)@.push(system));
    }

    /// The declaration of the system at place `i`.
    pub fn access(&self, i: usize) -> (access: &Access)
        requires
            self.wf(),
            i < self@.len(),
        ensures
            access@ == self@[i as int].declared(),
    {
        self.systems[i].access()
    }

    /// The batch of each system, in the order of registration. Systems of
    /// one batch do not conflict and may run side by side; a system that
    /// conflicts with an earlier one is in a later batch.
    pub fn plan(&self) -> (batches: Vec<usize>)
        requires
            self.wf(),
        ensures
            batches@.len() == self@.len(),
            forall|i: int|
                0 <= i < self@.len() ==> batches@[i] == batch_of(declarations(self@), i),
    {
        let ghost accesses = declarations(self@);
        let mut batches: Vec<usize> = Vec::new();
        let mut i: usize = 0;
        while i < self.systems.len()
            invariant
                i <= self.systems@.len(),
                self.wf(),
                accesses == declarations(self@),
                batches@.len() == i,
                forall|k: int| 0 <= k < i ==> batches@[k] == batch_of(accesses, k),
            decreases self.systems@.len() - i,
        {
            let mut floor: usize = 0;
            let mut j: usize = 0;
            while j < i
                invariant
                    j <= i < self.systems@.len(),
                    self.wf(),
                    accesses == declarations(self@),
                    batches@.len() == i,
                    forall|k: int| 0 <= k < i ==> batches@[k] == batch_of(accesses, k),
                    floor == batch_floor(accesses, i as int, j as int),
                decreases i - j,
            {
                proof {
                    lemma_batch_floor_at_most(accesses, j as int, j as int);
                    assert(batches@[j as int] == batch_of(accesses, j as int));
                    assert(self.systems@[j as int].wf());
                    assert(self.systems@[i as int].wf());
                    assert(accesses[j as int] == self.systems@[j as int].access@);
                    assert(accesses[i as int] == self.systems@[i as int].access@);
                    assert(batch_floor(accesses, i as int, j + 1) == (if accesses[j as int].conflicts(
                        accesses[i as int],
                    ) {
                        let behind = batch_floor(accesses, j as int, j as int) + 1;
                        if behind > batch_floor(accesses, i as int, j as int) {
                            behind
                        } else {
                            batch_floor(accesses, i as int, j as int)
                        }
                    } else {
                        batch_floor(accesses, i as int, j as int)
                    }));
                }
                if self.systems[j].access.conflicts_with(&self.systems[i].access) {
                    let behind = batches[j] + 1;
                    if behind > floor {
                        floor = behind;
                    }
                }
                j += 1;
            }
            batches.push(floor);
            i += 1;
        }
        batches
    }

    /// The first system that names a resource type without a value in
    /// `resources`, and the first such type.
    pub fn missing_resource(&self, resources: &Resources<S::Resource>) -> (missing: Option<
        MissingResource,
    >)
        requires
            self.wf(),
            resources.wf(),
        ensures
            missing == self.missing(resources@),
    {
        let mut i: usize = 0;
        while i < self.systems.len()
            invariant
                i <= self.systems@.len(),
                self.wf(),
                resources.wf(),
                first_missing(self@, resources@, i as int) is None,
            decreases self.systems@.len() - i,
        {
            match self.systems[i].absent(resources) {
                Some(resource) => {
                    proof {
                        assert(first_missing(self@, resources@, i + 1) == Some(
                            (i as int, resource),
                        ));
                        lemma_first_missing_stays(
                            self@,
                            resources@,
                            i + 1,
                            self@.len() as int,
                        );
                    }
                    return Some(MissingResource { stage: self.label, system: i, resource });
                },
                None => {},
            }
            i += 1;
        }
        None
    }

    /// Runs the systems in the order of their registration and keeps the
    /// commands they record in `buffer`. The world keeps its shape.
    pub fn dispatch(
        &self,
        world: &mut World<S::Component>,
        resources: &mut Resources<S::Resource>,
        buffer: &mut CommandBuffer<S::Component>,
    )
        requires
            self.wf(),
            old(world).wf(),
            old(resources).wf(),
            self.all_present(old(resources)@),
        ensures
            final(world).wf(),
            final(resources).wf(),
            (Store { world: final(world)@, resources: final(resources)@ }) == dispatch(
                self@,
                Store { world: old(world)@, resources: old(resources)@ },
                self@.len() as int,
            ).store,
            final(buffer)@ == old(buffer)@ + dispatch(
                self@,
                Store { world: old(world)@, resources: old(resources)@ },
                self@.len() as int,
            ).commands,
            old(world)@.same_shape(final(world)@),
            final(resources)@.dom() == old(resources)@.dom(),
    {
        let ghost start = Store { world: world@, resources: resources@ };
        proof {
            assert(buffer@ =~= old(buffer)@ + Seq::empty());
            world@.lemma_same_shape_refl();
        }
        let mut i: usize = 0;
        while i < self.systems.len()
            invariant
                i <= self.systems@.len(),
                self.wf(),
                world.wf(),
                resources.wf(),
                forall|k: int|
                    0 <= k < self@.len() ==> resources_present(
                        start.resources,
                        (#[trigger] self@[k]).declared(),
                    ),
                start.world.same_shape(world@),
                resources@.dom() == start.resources.dom(),
                (Store { world: world@, resources: resources@ }) == dispatch(
                    self@,
                    start,
                    i as int,
                ).store,
                buffer@ == old(buffer)@ + dispatch(self@, start, i as int).commands,
            decreases self.systems@.len() - i,
        {
            let ghost before = Store { world: world@, resources: resources@ };
            proof {
                let access = self@[i as int].declared();
                assert(resources_present(start.resources, access));
                assert forall|k: int| 0 <= k < access.resources().len() implies
                    resources@.contains_key(#[trigger] access.resources()[k]) by {
                    assert(start.resources.dom().contains(access.resources()[k]));
                }
            }
            self.systems[i].run(world, resources, buffer);
            proof {
                start.world.lemma_same_shape_trans(before.world, world@);
                let step = run_system(self@[i as int], before);
                let earlier = dispatch(self@, start, i as int);
                assert(buffer@ =~= old(buffer)@ + (earlier.commands + step.commands));
            }
            i += 1;
        }
    }

    /// Runs the stage: its systems in the order of their registration, then
    /// the commands that they recorded, applied to the world. Nothing runs
    /// where a system names a resource type without a value. The failures of
    /// the commands that were turned away are returned.
    pub fn run(
        &self,
        world: &mut World<S::Component>,
        resources: &mut Resources<S::Resource>,
    ) -> (result: Result<Vec<InvalidEntity>, MissingResource>)
        requires
            self.wf(),
            old(world).wf(),
            old(resources).wf(),
        ensures
            final(world).wf(),
            final(resources).wf(),
            match self.missing(old(resources)@) {
                Some(missing) => {
                    &&& result == Err::<Vec<InvalidEntity>, MissingResource>(missing)
                    &&& final(world)@ == old(world)@
                    &&& final(resources)@ == old(resources)@
                },
                None => {
                    &&& result is Ok
                    &&& (Store { world: final(world)@, resources: final(resources)@ })
                        == run_stage(
                        self@,
                        Store { world: old(world)@, resources: old(resources)@ },
                    )
                    &&& result->Ok_0@ == stage_rejections(
                        self@,
                        Store { world: old(world)@, resources: old(resources)@ },
                    )
                },
            },
    {
        match self.missing_resource(resources) {
            Some(missing) => Err(missing),
            None => {
                proof {
                    self.lemma_missing_none(resources@);
                }
                let mut buffer = CommandBuffer::new();
                self.dispatch(world, resources, &mut buffer);
                let failures = buffer.flush(world);
                Ok(failures)
            },
        }
    }
}

} // verus!
