//! Systems that do not conflict do not see each other: what a system leaves
//! untouched, what its run depends on, and why two systems whose
//! declarations do not conflict can run in either order.

use vstd::prelude::*;
use crate::ecs::access::AccessView;
use crate::ecs::entity::Entity;
use crate::ecs::model::{
    component_values,
    dispatch,
    run_stage,
    input_for,
    lemma_write_components_shape,
    resource_values,
    run_system,
    visit,
    visit_each,
    visited,
    write_components,
    write_resources,
    Store,
};
use crate::ecs::state::WorldState;
use crate::ecs::system::{Shape, System};
use crate::ecs::typemap::TypeTag;

verus! {

/// The entity in slot `i` has a component of type `tag`.
pub open spec fn has_cell<C>(world: WorldState<C>, i: int, tag: TypeTag) -> bool {
    &&& 0 <= i < world.slots.len()
    &&& world.slots[i].components is Some
    &&& world.slots[i].components->0.contains_key(tag)
}

/// The component of type `tag` of the entity in slot `i`.
pub open spec fn cell<C>(world: WorldState<C>, i: int, tag: TypeTag) -> C {
    world.slots[i].components->0[tag]
}

/// The two worlds have the same components of the types in `components`.
pub open spec fn same_cells<C>(a: WorldState<C>, b: WorldState<C>, components: Set<TypeTag>) -> bool {
    forall|i: int, tag: TypeTag|
        #![trigger cell(a, i, tag)]
        has_cell(a, i, tag) && components.contains(tag) ==> cell(a, i, tag) == cell(b, i, tag)
}

/// The two maps have the same resources, present or not, of the types in
/// `resources`.
pub open spec fn same_resources<R>(
    a: Map<TypeTag, R>,
    b: Map<TypeTag, R>,
    resources: Set<TypeTag>,
) -> bool {
    forall|tag: TypeTag|
        #![trigger a.contains_key(tag)]
        #![trigger b.contains_key(tag)]
        resources.contains(tag) ==> a.contains_key(tag) == b.contains_key(tag) && a[tag] == b[tag]
}

/// The two stores have worlds of the same shape, the same components of the
/// types in `components`, and the same resources, present or not, of the
/// types in `resources`.
pub open spec fn agree<C, R>(
    a: Store<C, R>,
    b: Store<C, R>,
    components: Set<TypeTag>,
    resources: Set<TypeTag>,
) -> bool {
    &&& a.world.same_shape(b.world)
    &&& same_cells(a.world, b.world, components)
    &&& same_resources(a.resources, b.resources, resources)
}

/// The tags that do not stand in `tags`.
pub open spec fn all_but(tags: Seq<TypeTag>) -> Set<TypeTag> {
    Set::new(|tag: TypeTag| !tags.contains(tag))
}

/// Worlds of the same shape have components in the same places.
pub proof fn lemma_same_shape_cells<C>(a: WorldState<C>, b: WorldState<C>, i: int, tag: TypeTag)
    requires
        a.same_shape(b),
    ensures
        has_cell(a, i, tag) == has_cell(b, i, tag),
{
    if 0 <= i < a.slots.len() {
        assert(a.slots[i].generation == b.slots[i].generation);
    }
}

/// Having the same shape goes both ways.
pub proof fn lemma_same_shape_sym<C>(a: WorldState<C>, b: WorldState<C>)
    requires
        a.same_shape(b),
    ensures
        b.same_shape(a),
{
    assert forall|i: int| 0 <= i < b.slots.len() implies {
        &&& (#[trigger] b.slots[i]).generation == a.slots[i].generation
        &&& b.slots[i].components is Some == a.slots[i].components is Some
        &&& b.slots[i].components is Some ==> b.slots[i].components->0.dom()
            == a.slots[i].components->0.dom()
    } by {
        assert(a.slots[i].generation == b.slots[i].generation);
    }
}

/// Agreement goes both ways.
pub proof fn lemma_agree_sym<C, R>(
    a: Store<C, R>,
    b: Store<C, R>,
    components: Set<TypeTag>,
    resources: Set<TypeTag>,
)
    requires
        agree(a, b, components, resources),
    ensures
        agree(b, a, components, resources),
{
    lemma_same_shape_sym(a.world, b.world);
    assert forall|i: int, tag: TypeTag|
        #![trigger cell(b.world, i, tag)]
        has_cell(b.world, i, tag) && components.contains(tag) implies cell(b.world, i, tag)
        == cell(a.world, i, tag) by {
        lemma_same_shape_cells(a.world, b.world, i, tag);
        assert(cell(a.world, i, tag) == cell(b.world, i, tag));
    }
    assert forall|tag: TypeTag|
        #![trigger b.resources.contains_key(tag)]
        #![trigger a.resources.contains_key(tag)]
        resources.contains(tag) implies b.resources.contains_key(tag)
        == a.resources.contains_key(tag) && b.resources[tag] == a.resources[tag] by {
        assert(a.resources.contains_key(tag) == b.resources.contains_key(tag));
    }
}

/// Agreement carries over from one pair of stores to the next.
pub proof fn lemma_agree_trans<C, R>(
    a: Store<C, R>,
    b: Store<C, R>,
    c: Store<C, R>,
    components: Set<TypeTag>,
    resources: Set<TypeTag>,
)
    requires
        agree(a, b, components, resources),
        agree(b, c, components, resources),
    ensures
        agree(a, c, components, resources),
{
    a.world.lemma_same_shape_trans(b.world, c.world);
    assert forall|i: int, tag: TypeTag|
        #![trigger cell(a.world, i, tag)]
        has_cell(a.world, i, tag) && components.contains(tag) implies cell(a.world, i, tag)
        == cell(c.world, i, tag) by {
        lemma_same_shape_cells(a.world, b.world, i, tag);
        assert(cell(a.world, i, tag) == cell(b.world, i, tag));
        assert(cell(b.world, i, tag) == cell(c.world, i, tag));
    }
    assert forall|tag: TypeTag|
        #![trigger a.resources.contains_key(tag)]
        #![trigger c.resources.contains_key(tag)]
        resources.contains(tag) implies a.resources.contains_key(tag)
        == c.resources.contains_key(tag) && a.resources[tag] == c.resources[tag] by {
        assert(a.resources.contains_key(tag) == b.resources.contains_key(tag));
        assert(b.resources.contains_key(tag) == c.resources.contains_key(tag));
    }
}

/// Stores that agree on some types agree on fewer.
pub proof fn lemma_agree_subset<C, R>(
    a: Store<C, R>,
    b: Store<C, R>,
    components: Set<TypeTag>,
    resources: Set<TypeTag>,
    fewer_components: Set<TypeTag>,
    fewer_resources: Set<TypeTag>,
)
    requires
        agree(a, b, components, resources),
        fewer_components.subset_of(components),
        fewer_resources.subset_of(resources),
    ensures
        agree(a, b, fewer_components, fewer_resources),
{
    assert forall|i: int, tag: TypeTag|
        #![trigger cell(a.world, i, tag)]
        has_cell(a.world, i, tag) && fewer_components.contains(tag) implies cell(
            a.world,
            i,
            tag,
        ) == cell(b.world, i, tag) by {
        assert(components.contains(tag));
    }
    assert forall|tag: TypeTag|
        #![trigger a.resources.contains_key(tag)]
        #![trigger b.resources.contains_key(tag)]
        fewer_resources.contains(tag) implies a.resources.contains_key(tag)
        == b.resources.contains_key(tag) && a.resources[tag] == b.resources[tag] by {
        assert(resources.contains(tag));
    }
}

/// A store agrees with itself.
pub proof fn lemma_agree_refl<C, R>(
    a: Store<C, R>,
    components: Set<TypeTag>,
    resources: Set<TypeTag>,
)
    ensures
        agree(a, a, components, resources),
{
}

/// What writing components changes: nothing but the components of the one
/// entity whose types stand among the first `n` of `tags`.
pub proof fn lemma_write_components_frame<C>(
    world: WorldState<C>,
    entity: Entity,
    tags: Seq<TypeTag>,
    values: Seq<C>,
    n: int,
)
    requires
        world.is_live(entity),
        n <= tags.len(),
        forall|i: int| 0 <= i < n ==> world.components(entity).contains_key(tags[i]),
    ensures
        world.same_shape(write_components(world, entity, tags, values, n)),
        forall|i: int, tag: TypeTag|
            #![trigger cell(world, i, tag)]
            has_cell(world, i, tag) && !tags.contains(tag) ==> cell(world, i, tag) == cell(
                write_components(world, entity, tags, values, n),
                i,
                tag,
            ),
        forall|i: int, tag: TypeTag|
            #![trigger cell(world, i, tag)]
            has_cell(world, i, tag) && i != entity.index ==> cell(world, i, tag) == cell(
                write_components(world, entity, tags, values, n),
                i,
                tag,
            ),
    decreases n,
{
    lemma_write_components_shape(world, entity, tags, values, n);
    if n > 0 {
        lemma_write_components_frame(world, entity, tags, values, n - 1);
        lemma_write_components_shape(world, entity, tags, values, n - 1);
        let before = write_components(world, entity, tags, values, n - 1);
        let after = write_components(world, entity, tags, values, n);
        assert forall|i: int, tag: TypeTag|
            #![trigger cell(world, i, tag)]
            has_cell(world, i, tag) && !tags.contains(tag) implies cell(world, i, tag) == cell(
                after,
                i,
                tag,
            ) by {
            assert(tags[n - 1] != tag);
        }
        assert forall|i: int, tag: TypeTag|
            #![trigger cell(world, i, tag)]
            has_cell(world, i, tag) && i != entity.index implies cell(world, i, tag) == cell(
                after,
                i,
                tag,
            ) by {}
    }
}

/// What the components of the entity are after writing depends, type by
/// type, on nothing but what the component of that type was before.
pub proof fn lemma_write_components_local<C>(
    a: WorldState<C>,
    b: WorldState<C>,
    entity: Entity,
    tags: Seq<TypeTag>,
    values: Seq<C>,
    n: int,
    tag: TypeTag,
)
    requires
        a.is_live(entity),
        b.is_live(entity),
        n <= tags.len(),
        cell(a, entity.index as int, tag) == cell(b, entity.index as int, tag),
    ensures
        cell(write_components(a, entity, tags, values, n), entity.index as int, tag) == cell(
            write_components(b, entity, tags, values, n),
            entity.index as int,
            tag,
        ),
        write_components(a, entity, tags, values, n).is_live(entity),
        write_components(b, entity, tags, values, n).is_live(entity),
    decreases n,
{
    if n > 0 {
        lemma_write_components_local(a, b, entity, tags, values, n - 1, tag);
    }
}

/// What writing resources changes: nothing but the types among the first `n`
/// of `tags`.
pub proof fn lemma_write_resources_frame<R>(
    resources: Map<TypeTag, R>,
    tags: Seq<TypeTag>,
    values: Seq<R>,
    n: int,
    tag: TypeTag,
)
    requires
        n <= tags.len(),
        !tags.contains(tag),
    ensures
        write_resources(resources, tags, values, n).contains_key(tag) == resources.contains_key(
            tag,
        ),
        write_resources(resources, tags, values, n)[tag] == resources[tag],
    decreases n,
{
    if n > 0 {
        lemma_write_resources_frame(resources, tags, values, n - 1, tag);
        assert(tags[n - 1] != tag);
    }
}

/// What a resource is after writing depends on nothing but what the
/// resource of that type was before.
pub proof fn lemma_write_resources_local<R>(
    a: Map<TypeTag, R>,
    b: Map<TypeTag, R>,
    tags: Seq<TypeTag>,
    values: Seq<R>,
    n: int,
    tag: TypeTag,
)
    requires
        n <= tags.len(),
        a.contains_key(tag) == b.contains_key(tag),
        a[tag] == b[tag],
    ensures
        write_resources(a, tags, values, n).contains_key(tag) == write_resources(
            b,
            tags,
            values,
            n,
        ).contains_key(tag),
        write_resources(a, tags, values, n)[tag] == write_resources(b, tags, values, n)[tag],
    decreases n,
{
    if n > 0 {
        lemma_write_resources_local(a, b, tags, values, n - 1, tag);
    }
}

/// `entity` is alive in `world` and has every component type that `access`
/// names; no entity is asked for where there is none.
pub open spec fn can_visit<C>(world: WorldState<C>, access: AccessView, entity: Option<Entity>) -> bool {
    match entity {
        Some(e) => world.is_live(e) && forall|i: int|
            0 <= i < access.components().len() ==> world.components(e).contains_key(
                #[trigger] access.components()[i],
            ),
        None => true,
    }
}

/// The entity has each component type that the declaration reads and each
/// that it writes.
pub proof fn lemma_can_visit<C>(world: WorldState<C>, access: AccessView, entity: Entity)
    requires
        can_visit(world, access, Some(entity)),
    ensures
        forall|i: int|
            0 <= i < access.reads.len() ==> world.components(entity).contains_key(
                access.reads[i],
            ),
        forall|i: int|
            0 <= i < access.writes.len() ==> world.components(entity).contains_key(
                access.writes[i],
            ),
{
    assert forall|i: int| 0 <= i < access.reads.len() implies world.components(
        entity,
    ).contains_key(access.reads[i]) by {
        assert(access.components()[i] == access.reads[i]);
    }
    assert forall|i: int| 0 <= i < access.writes.len() implies world.components(
        entity,
    ).contains_key(access.writes[i]) by {
        assert(access.components()[access.reads.len() + i] == access.writes[i]);
    }
}

/// Whether an entity can be visited depends on the shape of the world
/// alone.
pub proof fn lemma_can_visit_shape<C>(
    a: WorldState<C>,
    b: WorldState<C>,
    access: AccessView,
    entity: Option<Entity>,
)
    requires
        a.same_shape(b),
        can_visit(a, access, entity),
    ensures
        can_visit(b, access, entity),
{
    if let Some(e) = entity {
        assert(a.slots[e.index as int].generation == b.slots[e.index as int].generation);
        assert forall|i: int| 0 <= i < access.components().len() implies b.components(
            e,
        ).contains_key(#[trigger] access.components()[i]) by {
            assert(a.components(e).contains_key(access.components()[i]));
            assert(a.components(e).dom().contains(access.components()[i]));
        }
    }
}

/// One run of the body of a system touches nothing but what the system
/// declares to write.
pub proof fn lemma_visit_frame<S: System>(
    system: S,
    store: Store<S::Component, S::Resource>,
    entity: Option<Entity>,
)
    requires
        can_visit(store.world, system.declared(), entity),
    ensures
        agree(
            store,
            visit(system, store, entity).store,
            all_but(system.declared().writes),
            all_but(system.declared().resource_writes),
        ),
{
    let access = system.declared();
    let output = system.effect(input_for(store, access, entity));
    let after = visit(system, store, entity).store;
    match entity {
        Some(e) => {
            lemma_can_visit(store.world, access, e);
            lemma_write_components_frame(
                store.world,
                e,
                access.writes,
                output.writes,
                access.writes.len() as int,
            );
        },
        None => {},
    }
    assert forall|tag: TypeTag|
        #![trigger store.resources.contains_key(tag)]
        #![trigger after.resources.contains_key(tag)]
        all_but(access.resource_writes).contains(tag) implies store.resources.contains_key(tag)
        == after.resources.contains_key(tag) && store.resources[tag] == after.resources[tag] by {
        lemma_write_resources_frame(
            store.resources,
            access.resource_writes,
            output.resource_writes,
            access.resource_writes.len() as int,
            tag,
        );
    }
    assert(same_resources(store.resources, after.resources, all_but(access.resource_writes)));
    assert(store.world.same_shape(after.world));
    assert(same_cells(store.world, after.world, all_but(access.writes)));
}

/// One run of the body of a system depends on nothing but what the system
/// declares to read or write: on two stores that agree there, the run
/// records the same commands and leaves stores that agree there again.
pub proof fn lemma_visit_local<S: System>(
    system: S,
    a: Store<S::Component, S::Resource>,
    b: Store<S::Component, S::Resource>,
    entity: Option<Entity>,
)
    requires
        agree(
            a,
            b,
            system.declared().components().to_set(),
            system.declared().resources().to_set(),
        ),
        can_visit(a.world, system.declared(), entity),
    ensures
        visit(system, a, entity).commands == visit(system, b, entity).commands,
        agree(
            visit(system, a, entity).store,
            visit(system, b, entity).store,
            system.declared().components().to_set(),
            system.declared().resources().to_set(),
        ),
{
    let access = system.declared();
    let ctypes = access.components().to_set();
    let rtypes = access.resources().to_set();
    lemma_can_visit_shape(a.world, b.world, access, entity);
    assert(resource_values(a.resources, access.resource_reads) =~= resource_values(
        b.resources,
        access.resource_reads,
    )) by {
        assert forall|i: int| 0 <= i < access.resource_reads.len() implies
            a.resources[access.resource_reads[i]] == b.resources[access.resource_reads[i]] by {
            assert(access.resources()[i] == access.resource_reads[i]);
            assert(rtypes.contains(access.resource_reads[i]));
            assert(a.resources.contains_key(access.resource_reads[i])
                == b.resources.contains_key(access.resource_reads[i]));
        }
    }
    assert(resource_values(a.resources, access.resource_writes) =~= resource_values(
        b.resources,
        access.resource_writes,
    )) by {
        assert forall|i: int| 0 <= i < access.resource_writes.len() implies
            a.resources[access.resource_writes[i]] == b.resources[access.resource_writes[i]] by {
            assert(access.resources()[access.resource_reads.len() + i]
                == access.resource_writes[i]);
            assert(rtypes.contains(access.resource_writes[i]));
            assert(a.resources.contains_key(access.resource_writes[i])
                == b.resources.contains_key(access.resource_writes[i]));
        }
    }
    if let Some(e) = entity {
        lemma_can_visit(a.world, access, e);
        assert(component_values(a.world, e, access.reads) =~= component_values(
            b.world,
            e,
            access.reads,
        )) by {
            assert forall|i: int| 0 <= i < access.reads.len() implies a.world.components(
                e,
            )[access.reads[i]] == b.world.components(e)[access.reads[i]] by {
                assert(access.components()[i] == access.reads[i]);
                assert(ctypes.contains(access.reads[i]));
                assert(has_cell(a.world, e.index as int, access.reads[i]));
                assert(cell(a.world, e.index as int, access.reads[i]) == cell(
                    b.world,
                    e.index as int,
                    access.reads[i],
                ));
            }
        }
        assert(component_values(a.world, e, access.writes) =~= component_values(
            b.world,
            e,
            access.writes,
        )) by {
            assert forall|i: int| 0 <= i < access.writes.len() implies a.world.components(
                e,
            )[access.writes[i]] == b.world.components(e)[access.writes[i]] by {
                assert(access.components()[access.reads.len() + i] == access.writes[i]);
                assert(ctypes.contains(access.writes[i]));
                assert(has_cell(a.world, e.index as int, access.writes[i]));
                assert(cell(a.world, e.index as int, access.writes[i]) == cell(
                    b.world,
                    e.index as int,
                    access.writes[i],
                ));
            }
        }
    }
    assert(input_for(a, access, entity) == input_for(b, access, entity));
    let output = system.effect(input_for(a, access, entity));
    let after_a = visit(system, a, entity).store;
    let after_b = visit(system, b, entity).store;
    lemma_visit_frame(system, a, entity);
    lemma_visit_frame(system, b, entity);
    lemma_same_shape_sym(a.world, after_a.world);
    after_a.world.lemma_same_shape_trans(a.world, b.world);
    after_a.world.lemma_same_shape_trans(b.world, after_b.world);
    assert forall|i: int, tag: TypeTag|
        #![trigger cell(after_a.world, i, tag)]
        has_cell(after_a.world, i, tag) && ctypes.contains(tag) implies cell(
            after_a.world,
            i,
            tag,
        ) == cell(after_b.world, i, tag) by {
        lemma_same_shape_cells(a.world, after_a.world, i, tag);
        lemma_same_shape_cells(a.world, b.world, i, tag);
        assert(cell(a.world, i, tag) == cell(b.world, i, tag));
        match entity {
            Some(e) => {
                lemma_can_visit(a.world, access, e);
                lemma_can_visit(b.world, access, e);
                if i == e.index {
                    lemma_write_components_local(
                        a.world,
                        b.world,
                        e,
                        access.writes,
                        output.writes,
                        access.writes.len() as int,
                        tag,
                    );
                } else {
                    lemma_write_components_frame(
                        a.world,
                        e,
                        access.writes,
                        output.writes,
                        access.writes.len() as int,
                    );
                    lemma_write_components_frame(
                        b.world,
                        e,
                        access.writes,
                        output.writes,
                        access.writes.len() as int,
                    );
                    assert(cell(b.world, i, tag) == cell(after_b.world, i, tag));
                }
            },
            None => {},
        }
    }
    assert forall|tag: TypeTag|
        #![trigger after_a.resources.contains_key(tag)]
        #![trigger after_b.resources.contains_key(tag)]
        rtypes.contains(tag) implies after_a.resources.contains_key(tag)
        == after_b.resources.contains_key(tag) && after_a.resources[tag]
        == after_b.resources[tag] by {
        assert(a.resources.contains_key(tag) == b.resources.contains_key(tag));
        lemma_write_resources_local(
            a.resources,
            b.resources,
            access.resource_writes,
            output.resource_writes,
            access.resource_writes.len() as int,
            tag,
        );
    }
    assert(same_resources(after_a.resources, after_b.resources, rtypes));
    assert(same_cells(after_a.world, after_b.world, ctypes));
    assert(after_a.world.same_shape(after_b.world));
}

/// Each of the first `n` of `entities` can be visited.
pub open spec fn can_visit_each<C>(
    world: WorldState<C>,
    access: AccessView,
    entities: Seq<Entity>,
    n: int,
) -> bool {
    forall|k: int| 0 <= k < n ==> can_visit(world, access, Some(#[trigger] entities[k]))
}

/// Visiting entities one after the other touches nothing but what the
/// system declares to write.
pub proof fn lemma_visit_each_frame<S: System>(
    system: S,
    store: Store<S::Component, S::Resource>,
    entities: Seq<Entity>,
    n: int,
)
    requires
        n <= entities.len(),
        can_visit_each(store.world, system.declared(), entities, n),
    ensures
        agree(
            store,
            visit_each(system, store, entities, n).store,
            all_but(system.declared().writes),
            all_but(system.declared().resource_writes),
        ),
    decreases n,
{
    let untouched = all_but(system.declared().writes);
    let kept = all_but(system.declared().resource_writes);
    if n > 0 {
        lemma_visit_each_frame(system, store, entities, n - 1);
        let before = visit_each(system, store, entities, n - 1).store;
        assert(can_visit(store.world, system.declared(), Some(entities[n - 1])));
        lemma_can_visit_shape(
            store.world,
            before.world,
            system.declared(),
            Some(entities[n - 1]),
        );
        lemma_visit_frame(system, before, Some(entities[n - 1]));
        lemma_agree_trans(
            store,
            before,
            visit(system, before, Some(entities[n - 1])).store,
            untouched,
            kept,
        );
    } else {
        lemma_agree_refl(store, untouched, kept);
    }
}

/// Visiting entities one after the other depends on nothing but what the
/// system declares to read or write.
pub proof fn lemma_visit_each_local<S: System>(
    system: S,
    a: Store<S::Component, S::Resource>,
    b: Store<S::Component, S::Resource>,
    entities: Seq<Entity>,
    n: int,
)
    requires
        n <= entities.len(),
        agree(
            a,
            b,
            system.declared().components().to_set(),
            system.declared().resources().to_set(),
        ),
        can_visit_each(a.world, system.declared(), entities, n),
    ensures
        visit_each(system, a, entities, n).commands == visit_each(
            system,
            b,
            entities,
            n,
        ).commands,
        agree(
            visit_each(system, a, entities, n).store,
            visit_each(system, b, entities, n).store,
            system.declared().components().to_set(),
            system.declared().resources().to_set(),
        ),
    decreases n,
{
    if n > 0 {
        lemma_visit_each_local(system, a, b, entities, n - 1);
        lemma_visit_each_frame(system, a, entities, n - 1);
        let before_a = visit_each(system, a, entities, n - 1).store;
        let before_b = visit_each(system, b, entities, n - 1).store;
        assert(can_visit(a.world, system.declared(), Some(entities[n - 1])));
        lemma_can_visit_shape(
            a.world,
            before_a.world,
            system.declared(),
            Some(entities[n - 1]),
        );
        lemma_visit_local(system, before_a, before_b, Some(entities[n - 1]));
    }
}

/// The entities that a system visits can be visited.
pub proof fn lemma_visited_can_be_visited<C>(world: WorldState<C>, access: AccessView)
    requires
        world.bounded(),
    ensures
        can_visit_each(
            world,
            access,
            visited(world, access),
            visited(world, access).len() as int,
        ),
{
    let types = access.components().to_set();
    let entities = visited(world, access);
    world.lemma_matching_members(types, world.slots.len() as int);
    assert forall|k: int| 0 <= k < entities.len() implies can_visit(
        world,
        access,
        Some(#[trigger] entities[k]),
    ) by {
        let e = entities[k];
        assert(world.is_live(e));
        assert forall|i: int| 0 <= i < access.components().len() implies world.components(
            e,
        ).contains_key(#[trigger] access.components()[i]) by {
            assert(types.contains(access.components()[i]));
        }
    }
}

/// A system touches nothing but what it declares to write: the world keeps
/// its shape, every component of another type stays as it was, and so does
/// every resource of another type.
pub proof fn lemma_run_system_frame<S: System>(
    system: S,
    store: Store<S::Component, S::Resource>,
)
    requires
        store.world.bounded(),
    ensures
        agree(
            store,
            run_system(system, store).store,
            all_but(system.declared().writes),
            all_but(system.declared().resource_writes),
        ),
{
    match system.kind() {
        Shape::Once => {
            lemma_visit_frame(system, store, None);
        },
        Shape::PerEntity => {
            let entities = visited(store.world, system.declared());
            lemma_visited_can_be_visited(store.world, system.declared());
            lemma_visit_each_frame(system, store, entities, entities.len() as int);
        },
    }
}

/// A system depends on nothing but what it declares to read or write: on
/// two stores that agree there, it records the same commands and leaves
/// stores that agree there again.
pub proof fn lemma_run_system_local<S: System>(
    system: S,
    a: Store<S::Component, S::Resource>,
    b: Store<S::Component, S::Resource>,
)
    requires
        a.world.bounded(),
        agree(
            a,
            b,
            system.declared().components().to_set(),
            system.declared().resources().to_set(),
        ),
    ensures
        run_system(system, a).commands == run_system(system, b).commands,
        agree(
            run_system(system, a).store,
            run_system(system, b).store,
            system.declared().components().to_set(),
            system.declared().resources().to_set(),
        ),
{
    match system.kind() {
        Shape::Once => {
            lemma_visit_local(system, a, b, None);
        },
        Shape::PerEntity => {
            let types = system.declared().components().to_set();
            let entities = visited(a.world, system.declared());
            a.world.lemma_same_shape_matching(b.world, types, a.world.slots.len() as int);
            assert(entities == visited(b.world, system.declared()));
            lemma_visited_can_be_visited(a.world, system.declared());
            lemma_visit_each_local(system, a, b, entities, entities.len() as int);
        },
    }
}

/// A declaration that does not conflict with another reads and writes
/// nothing that the other writes.
pub proof fn lemma_no_conflict(first: AccessView, second: AccessView)
    requires
        !first.conflicts(second),
    ensures
        first.components().to_set().subset_of(all_but(second.writes)),
        first.resources().to_set().subset_of(all_but(second.resource_writes)),
        second.components().to_set().subset_of(all_but(first.writes)),
        second.resources().to_set().subset_of(all_but(first.resource_writes)),
        forall|tag: TypeTag|
            first.writes.contains(tag) ==> #[trigger] first.components().to_set().contains(tag),
        forall|tag: TypeTag|
            second.writes.contains(tag) ==> #[trigger] second.components().to_set().contains(
                tag,
            ),
        forall|tag: TypeTag|
            first.resource_writes.contains(tag) ==> #[trigger] first.resources().to_set().contains(
                tag,
            ),
        forall|tag: TypeTag|
            second.resource_writes.contains(tag)
                ==> #[trigger] second.resources().to_set().contains(tag),
{
    assert forall|tag: TypeTag| first.writes.contains(tag) implies first.components().contains(
        tag,
    ) by {
        let j = choose|j: int| 0 <= j < first.writes.len() && first.writes[j] == tag;
        assert(first.components()[first.reads.len() + j] == tag);
    }
    assert forall|tag: TypeTag| second.writes.contains(tag) implies second.components().contains(
        tag,
    ) by {
        let j = choose|j: int| 0 <= j < second.writes.len() && second.writes[j] == tag;
        assert(second.components()[second.reads.len() + j] == tag);
    }
    assert forall|tag: TypeTag| first.resource_writes.contains(tag) implies
        first.resources().contains(tag) by {
        let j = choose|j: int|
            0 <= j < first.resource_writes.len() && first.resource_writes[j] == tag;
        assert(first.resources()[first.resource_reads.len() + j] == tag);
    }
    assert forall|tag: TypeTag| second.resource_writes.contains(tag) implies
        second.resources().contains(tag) by {
        let j = choose|j: int|
            0 <= j < second.resource_writes.len() && second.resource_writes[j] == tag;
        assert(second.resources()[second.resource_reads.len() + j] == tag);
    }
}

/// Two systems whose declarations do not conflict can run in either order:
/// the store that the two leave is the same, and each records the commands
/// that it records when it runs first.
pub proof fn lemma_independent_systems_commute<S: System>(
    first: S,
    second: S,
    store: Store<S::Component, S::Resource>,
)
    requires
        store.world.bounded(),
        !first.declared().conflicts(second.declared()),
    ensures
        run_system(second, run_system(first, store).store).store == run_system(
            first,
            run_system(second, store).store,
        ).store,
        run_system(second, run_system(first, store).store).commands == run_system(
            second,
            store,
        ).commands,
        run_system(first, run_system(second, store).store).commands == run_system(
            first,
            store,
        ).commands,
{
    let a1 = first.declared();
    let a2 = second.declared();
    let c1 = a1.components().to_set();
    let r1 = a1.resources().to_set();
    let c2 = a2.components().to_set();
    let r2 = a2.resources().to_set();
    let o1 = run_system(first, store).store;
    let o2 = run_system(second, store).store;
    let o12 = run_system(second, o1).store;
    let o21 = run_system(first, o2).store;
    lemma_no_conflict(a1, a2);
    // What each run leaves untouched.
    lemma_run_system_frame(first, store);
    lemma_run_system_frame(second, store);
    assert(o1.world.bounded());
    assert(o2.world.bounded());
    lemma_run_system_frame(second, o1);
    lemma_run_system_frame(first, o2);
    // The second system changes nothing that the first depends on, and the
    // other way round.
    lemma_agree_subset(store, o2, all_but(a2.writes), all_but(a2.resource_writes), c1, r1);
    lemma_run_system_local(first, store, o2);
    lemma_agree_subset(store, o1, all_but(a1.writes), all_but(a1.resource_writes), c2, r2);
    lemma_run_system_local(second, store, o1);
    lemma_agree_sym(o2, o12, c2, r2);
    // Component by component.
    store.world.lemma_same_shape_trans(o1.world, o12.world);
    store.world.lemma_same_shape_trans(o2.world, o21.world);
    assert forall|i: int| 0 <= i < o12.world.slots.len() implies o12.world.slots[i]
        == o21.world.slots[i] by {
        assert(store.world.slots[i].generation == o12.world.slots[i].generation);
        assert(store.world.slots[i].generation == o21.world.slots[i].generation);
        if store.world.slots[i].components is Some {
            let m12 = o12.world.slots[i].components->0;
            let m21 = o21.world.slots[i].components->0;
            assert(m12.dom() == store.world.slots[i].components->0.dom());
            assert(m21.dom() == store.world.slots[i].components->0.dom());
            assert forall|tag: TypeTag| m12.contains_key(tag) implies m12[tag] == m21[tag] by {
                assert(has_cell(store.world, i, tag));
                lemma_same_shape_cells(store.world, o1.world, i, tag);
                lemma_same_shape_cells(store.world, o2.world, i, tag);
                if a1.writes.contains(tag) {
                    assert(c1.contains(tag));
                    assert(all_but(a2.writes).contains(tag));
                    assert(cell(o1.world, i, tag) == cell(o12.world, i, tag));
                    assert(cell(o1.world, i, tag) == cell(o21.world, i, tag));
                } else if a2.writes.contains(tag) {
                    assert(c2.contains(tag));
                    assert(all_but(a1.writes).contains(tag));
                    assert(cell(o2.world, i, tag) == cell(o21.world, i, tag));
                    assert(cell(o2.world, i, tag) == cell(o12.world, i, tag));
                } else {
                    assert(all_but(a1.writes).contains(tag));
                    assert(all_but(a2.writes).contains(tag));
                    assert(cell(store.world, i, tag) == cell(o1.world, i, tag));
                    assert(cell(o1.world, i, tag) == cell(o12.world, i, tag));
                    assert(cell(store.world, i, tag) == cell(o2.world, i, tag));
                    assert(cell(o2.world, i, tag) == cell(o21.world, i, tag));
                }
            }
            assert(m12 =~= m21);
        }
    }
    assert(o12.world.slots =~= o21.world.slots);
    // Resource by resource.
    assert forall|tag: TypeTag|
        o12.resources.contains_key(tag) == o21.resources.contains_key(tag) && (
        o12.resources.contains_key(tag) ==> o12.resources[tag] == o21.resources[tag]) by {
        if a1.resource_writes.contains(tag) {
            assert(r1.contains(tag));
            assert(all_but(a2.resource_writes).contains(tag));
            assert(o1.resources.contains_key(tag) == o12.resources.contains_key(tag));
            assert(o1.resources.contains_key(tag) == o21.resources.contains_key(tag));
        } else if a2.resource_writes.contains(tag) {
            assert(r2.contains(tag));
            assert(all_but(a1.resource_writes).contains(tag));
            assert(o2.resources.contains_key(tag) == o21.resources.contains_key(tag));
            assert(o2.resources.contains_key(tag) == o12.resources.contains_key(tag));
        } else {
            assert(all_but(a1.resource_writes).contains(tag));
            assert(all_but(a2.resource_writes).contains(tag));
            assert(store.resources.contains_key(tag) == o1.resources.contains_key(tag));
            assert(o1.resources.contains_key(tag) == o12.resources.contains_key(tag));
            assert(store.resources.contains_key(tag) == o2.resources.contains_key(tag));
            assert(o2.resources.contains_key(tag) == o21.resources.contains_key(tag));
        }
    }
    assert(o12.resources =~= o21.resources);
}

/// A stage of two systems whose declarations do not conflict leaves the
/// same world and the same resources whichever of the two was registered
/// first, as long as not both of them record commands: the commands of a
/// stage are applied in the order of registration.
pub proof fn lemma_independent_stage_order<S: System>(
    first: S,
    second: S,
    store: Store<S::Component, S::Resource>,
)
    requires
        store.world.bounded(),
        !first.declared().conflicts(second.declared()),
        run_system(first, store).commands.len() == 0 || run_system(
            second,
            store,
        ).commands.len() == 0,
    ensures
        run_stage(seq![first, second], store) == run_stage(seq![second, first], store),
{
    lemma_independent_systems_commute(first, second, store);
    let one = seq![first, second];
    let other = seq![second, first];
    let c1 = run_system(first, store).commands;
    let c2 = run_system(second, store).commands;
    assert(dispatch(one, store, 0).store == store);
    assert(dispatch(one, store, 1).store == run_system(first, store).store);
    assert(dispatch(one, store, 1).commands =~= c1);
    assert(dispatch(one, store, 2).commands =~= c1 + c2);
    assert(dispatch(other, store, 0).store == store);
    assert(dispatch(other, store, 1).store == run_system(second, store).store);
    assert(dispatch(other, store, 1).commands =~= c2);
    assert(dispatch(other, store, 2).commands =~= c2 + c1);
    assert(c1 + c2 =~= c2 + c1);
}

} // verus!
