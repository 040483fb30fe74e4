//! The meaning of running systems, stated over values: what a system is
//! handed, what becomes of what it yields, and what a stage makes of a world.

use vstd::prelude::*;
use crate::ecs::access::AccessView;
use crate::ecs::command::{apply_all, rejections, CommandView};
use crate::ecs::entity::{Entity, InvalidEntity};
use crate::ecs::state::WorldState;
use crate::ecs::system::{InputView, Shape, System};
use crate::ecs::typemap::TypeTag;

verus! {

/// The world and the resources as the systems of a stage see them.
pub struct Store<C, R> {
    pub world: WorldState<C>,
    pub resources: Map<TypeTag, R>,
}

/// A store together with the commands recorded on the way to it.
pub struct Outcome<C, R> {
    pub store: Store<C, R>,
    pub commands: Seq<CommandView<C>>,
}

/// The components of `entity` of the types `tags`, in the order of `tags`.
pub open spec fn component_values<C>(world: WorldState<C>, entity: Entity, tags: Seq<TypeTag>) -> Seq<
    C,
> {
    Seq::new(tags.len(), |i: int| world.components(entity)[tags[i]])
}

/// The resources of the types `tags`, in the order of `tags`.
pub open spec fn resource_values<R>(resources: Map<TypeTag, R>, tags: Seq<TypeTag>) -> Seq<R> {
    Seq::new(tags.len(), |i: int| resources[tags[i]])
}

/// What a system with the declaration `access` is handed for `entity`.
pub open spec fn input_for<C, R>(
    store: Store<C, R>,
    access: AccessView,
    entity: Option<Entity>,
) -> InputView<C, R> {
    InputView {
        entity,
        reads: match entity {
            Some(e) => component_values(store.world, e, access.reads),
            None => Seq::empty(),
        },
        writes: match entity {
            Some(e) => component_values(store.world, e, access.writes),
            None => Seq::empty(),
        },
        resource_reads: resource_values(store.resources, access.resource_reads),
        resource_writes: resource_values(store.resources, access.resource_writes),
    }
}

/// The world after the first `n` of `values` were stored as the components of
/// `entity` of the types `tags`.
pub open spec fn write_components<C>(
    world: WorldState<C>,
    entity: Entity,
    tags: Seq<TypeTag>,
    values: Seq<C>,
    n: int,
) -> WorldState<C>
    decreases n,
{
    if n <= 0 {
        world
    } else {
        write_components(world, entity, tags, values, n - 1).attach(
            entity,
            tags[n - 1],
            values[n - 1],
        )
    }
}

/// The resources after the first `n` of `values` were stored under `tags`.
pub open spec fn write_resources<R>(
    resources: Map<TypeTag, R>,
    tags: Seq<TypeTag>,
    values: Seq<R>,
    n: int,
) -> Map<TypeTag, R>
    decreases n,
{
    if n <= 0 {
        resources
    } else {
        write_resources(resources, tags, values, n - 1).insert(tags[n - 1], values[n - 1])
    }
}

/// One run of the body of `system`, for `entity` or for none: the store with
/// what the run yields written back, and the commands that the run records.
pub open spec fn visit<S: System>(
    system: S,
    store: Store<S::Component, S::Resource>,
    entity: Option<Entity>,
) -> Outcome<S::Component, S::Resource> {
    let access = system.declared();
    let output = system.effect(input_for(store, access, entity));
    Outcome {
        store: Store {
            world: match entity {
                Some(e) => write_components(
                    store.world,
                    e,
                    access.writes,
                    output.writes,
                    access.writes.len() as int,
                ),
                None => store.world,
            },
            resources: write_resources(
                store.resources,
                access.resource_writes,
                output.resource_writes,
                access.resource_writes.len() as int,
            ),
        },
        commands: output.commands,
    }
}

/// The body of `system` run for the first `n` of `entities`, one after the
/// other.
pub open spec fn visit_each<S: System>(
    system: S,
    store: Store<S::Component, S::Resource>,
    entities: Seq<Entity>,
    n: int,
) -> Outcome<S::Component, S::Resource>
    decreases n,
{
    if n <= 0 {
        Outcome { store, commands: Seq::empty() }
    } else {
        let before = visit_each(system, store, entities, n - 1);
        let step = visit(system, before.store, Some(entities[n - 1]));
        Outcome { store: step.store, commands: before.commands + step.commands }
    }
}

/// The entities that a system with the declaration `access` visits: those
/// that have every component type it reads or writes, in the order of their
/// slots.
pub open spec fn visited<C>(world: WorldState<C>, access: AccessView) -> Seq<Entity> {
    world.matching(access.components().to_set())
}

/// One system run on `store`.
pub open spec fn run_system<S: System>(
    system: S,
    store: Store<S::Component, S::Resource>,
) -> Outcome<S::Component, S::Resource> {
    match system.kind() {
        Shape::Once => visit(system, store, None),
        Shape::PerEntity => {
            let entities = visited(store.world, system.declared());
            visit_each(system, store, entities, entities.len() as int)
        },
    }
}

/// The first `n` of `systems` run on `store` in their order. The commands of
/// all of them are kept, those of an earlier system first.
pub open spec fn dispatch<S: System>(
    systems: Seq<S>,
    store: Store<S::Component, S::Resource>,
    n: int,
) -> Outcome<S::Component, S::Resource>
    decreases n,
{
    if n <= 0 {
        Outcome { store, commands: Seq::empty() }
    } else {
        let before = dispatch(systems, store, n - 1);
        let step = run_system(systems[n - 1], before.store);
        Outcome { store: step.store, commands: before.commands + step.commands }
    }
}

/// A stage run on `store`: its systems in their order, then the commands
/// that they recorded, applied to the world.
pub open spec fn run_stage<S: System>(
    systems: Seq<S>,
    store: Store<S::Component, S::Resource>,
) -> Store<S::Component, S::Resource> {
    let done = dispatch(systems, store, systems.len() as int);
    Store { world: apply_all(done.store.world, done.commands), resources: done.store.resources }
}

/// The failures of the commands that the flush of a stage turned away.
pub open spec fn stage_rejections<S: System>(
    systems: Seq<S>,
    store: Store<S::Component, S::Resource>,
) -> Seq<InvalidEntity> {
    let done = dispatch(systems, store, systems.len() as int);
    rejections(done.store.world, done.commands)
}

/// The first `n` of `stages` run on `store`, one after the other.
pub open spec fn run_stages<S: System>(
    stages: Seq<Seq<S>>,
    store: Store<S::Component, S::Resource>,
    n: int,
) -> Store<S::Component, S::Resource>
    decreases n,
{
    if n <= 0 {
        store
    } else {
        run_stage(stages[n - 1], run_stages(stages, store, n - 1))
    }
}

/// The failures of the commands that the flushes of the first `n` of
/// `stages` turned away, in order.
pub open spec fn tick_rejections<S: System>(
    stages: Seq<Seq<S>>,
    store: Store<S::Component, S::Resource>,
    n: int,
) -> Seq<InvalidEntity>
    decreases n,
{
    if n <= 0 {
        Seq::empty()
    } else {
        tick_rejections(stages, store, n - 1) + stage_rejections(
            stages[n - 1],
            run_stages(stages, store, n - 1),
        )
    }
}

/// The least batch that the system at place `i` may join, as far as the
/// first `j` systems decide: one behind the batch of each of them that it
/// conflicts with.
pub open spec fn batch_floor(accesses: Seq<AccessView>, i: int, j: int) -> nat
    decreases i, j,
{
    if 0 < j <= i {
        let rest = batch_floor(accesses, i, j - 1);
        if accesses[j - 1].conflicts(accesses[i]) {
            let behind = batch_floor(accesses, j - 1, j - 1) + 1;
            if behind > rest {
                behind
            } else {
                rest
            }
        } else {
            rest
        }
    } else {
        0
    }
}

/// The batch of the system at place `i`: the first in which no system that
/// was registered before it and conflicts with it runs at the same time or
/// later. The systems of one batch may run side by side; the batches run
/// one after the other.
pub open spec fn batch_of(accesses: Seq<AccessView>, i: int) -> nat {
    batch_floor(accesses, i, i)
}

/// The declarations of `systems`, in order.
pub open spec fn declarations<S: System>(systems: Seq<S>) -> Seq<AccessView> {
    Seq::new(systems.len(), |i: int| systems[i].declared())
}

/// The batch of a system is at most its place, and not before the floor
/// that any part of the earlier systems sets.
pub proof fn lemma_batch_floor_bounds(accesses: Seq<AccessView>, i: int, j: int)
    requires
        0 <= j <= i,
    ensures
        batch_floor(accesses, i, j) <= j,
        batch_floor(accesses, i, j) <= batch_floor(accesses, i, i),
    decreases i, i - j,
{
    lemma_batch_floor_at_most(accesses, i, j);
    if j < i {
        lemma_batch_floor_bounds(accesses, i, j + 1);
    }
}

/// The floor that the first `j` systems set is at most `j`.
pub proof fn lemma_batch_floor_at_most(accesses: Seq<AccessView>, i: int, j: int)
    requires
        0 <= j <= i,
    ensures
        batch_floor(accesses, i, j) <= j,
    decreases i, j,
{
    if j > 0 {
        lemma_batch_floor_at_most(accesses, i, j - 1);
        lemma_batch_floor_at_most(accesses, j - 1, j - 1);
    }
}

/// Conflicting systems run in the order of their registration: of two
/// systems that conflict, the one registered later is in a later batch.
pub proof fn lemma_conflicting_systems_are_ordered(accesses: Seq<AccessView>, i: int, j: int)
    requires
        0 <= i < j < accesses.len(),
        accesses[i].conflicts(accesses[j]),
    ensures
        batch_of(accesses, i) < batch_of(accesses, j),
{
    lemma_batch_floor_bounds(accesses, j, i + 1);
}

/// The systems of one batch do not conflict with each other.
pub proof fn lemma_batch_is_free_of_conflicts(accesses: Seq<AccessView>, i: int, j: int)
    requires
        0 <= i < accesses.len(),
        0 <= j < accesses.len(),
        i != j,
        batch_of(accesses, i) == batch_of(accesses, j),
    ensures
        !accesses[i].conflicts(accesses[j]),
{
    if accesses[i].conflicts(accesses[j]) {
        if i < j {
            lemma_conflicting_systems_are_ordered(accesses, i, j);
        } else {
            assert(accesses[j].conflicts(accesses[i]));
            lemma_conflicting_systems_are_ordered(accesses, j, i);
        }
    }
}

/// Every resource type that `access` names has a value.
pub open spec fn resources_present<R>(resources: Map<TypeTag, R>, access: AccessView) -> bool {
    forall|i: int|
        0 <= i < access.resources().len() ==> resources.contains_key(
            #[trigger] access.resources()[i],
        )
}

/// The first of the first `n` of `tags` that has no value in `resources`.
pub open spec fn first_absent<R>(resources: Map<TypeTag, R>, tags: Seq<TypeTag>, n: int) -> Option<
    TypeTag,
>
    decreases n,
{
    if n <= 0 {
        None
    } else {
        match first_absent(resources, tags, n - 1) {
            Some(tag) => Some(tag),
            None => if resources.contains_key(tags[n - 1]) {
                None
            } else {
                Some(tags[n - 1])
            },
        }
    }
}

/// The first of the first `n` of `systems` that names a resource type
/// without a value, with the first such type in the order of its
/// declaration, reads before writes.
pub open spec fn first_missing<S: System>(
    systems: Seq<S>,
    resources: Map<TypeTag, S::Resource>,
    n: int,
) -> Option<(int, TypeTag)>
    decreases n,
{
    if n <= 0 {
        None
    } else {
        match first_missing(systems, resources, n - 1) {
            Some(missing) => Some(missing),
            None => {
                let tags = systems[n - 1].declared().resources();
                match first_absent(resources, tags, tags.len() as int) {
                    Some(tag) => Some((n - 1, tag)),
                    None => None,
                }
            },
        }
    }
}

/// A tag that is the first absent one among some stays so among more.
pub proof fn lemma_first_absent_stays<R>(
    resources: Map<TypeTag, R>,
    tags: Seq<TypeTag>,
    n: int,
    m: int,
)
    requires
        n <= m,
        first_absent(resources, tags, n) is Some,
    ensures
        first_absent(resources, tags, m) == first_absent(resources, tags, n),
    decreases m - n,
{
    if n < m {
        lemma_first_absent_stays(resources, tags, n, m - 1);
    }
}

/// A system that is the first to miss a resource among some stays so among
/// more.
pub proof fn lemma_first_missing_stays<S: System>(
    systems: Seq<S>,
    resources: Map<TypeTag, S::Resource>,
    n: int,
    m: int,
)
    requires
        n <= m,
        first_missing(systems, resources, n) is Some,
    ensures
        first_missing(systems, resources, m) == first_missing(systems, resources, n),
    decreases m - n,
{
    if n < m {
        lemma_first_missing_stays(systems, resources, n, m - 1);
    }
}

/// Where no tag is absent, all are present.
pub proof fn lemma_none_absent<R>(resources: Map<TypeTag, R>, tags: Seq<TypeTag>, n: int)
    requires
        n <= tags.len(),
        first_absent(resources, tags, n) is None,
    ensures
        forall|i: int| 0 <= i < n ==> resources.contains_key(tags[i]),
    decreases n,
{
    if n > 0 {
        lemma_none_absent(resources, tags, n - 1);
    }
}

/// Where no system misses a resource, each finds every resource type that it
/// names.
pub proof fn lemma_none_missing<S: System>(
    systems: Seq<S>,
    resources: Map<TypeTag, S::Resource>,
    n: int,
)
    requires
        n <= systems.len(),
        first_missing(systems, resources, n) is None,
    ensures
        forall|i: int| 0 <= i < n ==> resources_present(resources, (#[trigger] systems[i]).declared()),
    decreases n,
{
    if n > 0 {
        lemma_none_missing(systems, resources, n - 1);
        let tags = systems[n - 1].declared().resources();
        lemma_none_absent(resources, tags, tags.len() as int);
    }
}

/// Writing components of types that the entity has leaves the shape of the
/// world as it was.
pub proof fn lemma_write_components_shape<C>(
    world: WorldState<C>,
    entity: Entity,
    tags: Seq<TypeTag>,
    values: Seq<C>,
    n: int,
)
    requires
        world.is_live(entity),
        n <= tags.len(),
        forall|i: int| 0 <= i < n ==> world.components(entity).contains_key(tags[i]),
    ensures
        world.same_shape(write_components(world, entity, tags, values, n)),
        write_components(world, entity, tags, values, n).is_live(entity),
    decreases n,
{
    if n > 0 {
        lemma_write_components_shape(world, entity, tags, values, n - 1);
        let before = write_components(world, entity, tags, values, n - 1);
        assert(world.slots[entity.index as int].components->0.dom() == before.components(
            entity,
        ).dom());
        assert(before.components(entity).contains_key(tags[n - 1]));
        before.lemma_attach_keeps_shape(entity, tags[n - 1], values[n - 1]);
        let after = before.attach(entity, tags[n - 1], values[n - 1]);
        assert forall|i: int| 0 <= i < world.slots.len() implies {
            &&& (#[trigger] world.slots[i]).generation == after.slots[i].generation
            &&& world.slots[i].components is Some == after.slots[i].components is Some
            &&& world.slots[i].components is Some ==> world.slots[i].components->0.dom()
                == after.slots[i].components->0.dom()
        } by {
            assert(before.slots[i].generation == after.slots[i].generation);
        }
    }
}

/// Writing resources of types that are present leaves the set of present
/// types as it was.
pub proof fn lemma_write_resources_dom<R>(
    resources: Map<TypeTag, R>,
    tags: Seq<TypeTag>,
    values: Seq<R>,
    n: int,
)
    requires
        n <= tags.len(),
        forall|i: int| 0 <= i < n ==> resources.contains_key(tags[i]),
    ensures
        write_resources(resources, tags, values, n).dom() == resources.dom(),
    decreases n,
{
    if n > 0 {
        lemma_write_resources_dom(resources, tags, values, n - 1);
        assert(write_resources(resources, tags, values, n).dom() =~= resources.dom());
    }
}

/// Where every resource type of a declaration is present, so is each type
/// that it reads and each that it writes.
pub proof fn lemma_resources_present<R>(resources: Map<TypeTag, R>, access: AccessView)
    requires
        resources_present(resources, access),
    ensures
        forall|i: int|
            0 <= i < access.resource_reads.len() ==> resources.contains_key(
                access.resource_reads[i],
            ),
        forall|i: int|
            0 <= i < access.resource_writes.len() ==> resources.contains_key(
                access.resource_writes[i],
            ),
{
    assert forall|i: int| 0 <= i < access.resource_reads.len() implies resources.contains_key(
        access.resource_reads[i],
    ) by {
        assert(access.resources()[i] == access.resource_reads[i]);
    }
    assert forall|i: int| 0 <= i < access.resource_writes.len() implies resources.contains_key(
        access.resource_writes[i],
    ) by {
        assert(access.resources()[access.resource_reads.len() + i] == access.resource_writes[i]);
    }
}

} // verus!
