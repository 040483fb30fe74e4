//! What holds of every world, every buffer of commands and every stage.

use vstd::prelude::*;
use crate::ecs::command::{apply_all, CommandView};
use crate::ecs::entity::Entity;
use crate::ecs::independence::lemma_run_system_frame;
use crate::ecs::model::{dispatch, run_stage, run_stages, run_system, Store};
use crate::ecs::state::WorldState;
use crate::ecs::system::System;
use crate::ecs::typemap::TypeTag;

verus! {

/// A retired handle names no living entity: every operation of the world on
/// it fails with `InvalidEntity`.
pub proof fn lemma_retired_is_not_live<C>(state: WorldState<C>, entity: Entity)
    requires
        state.is_retired(entity),
    ensures
        !state.is_live(entity),
{
}

/// Destroying an entity retires its handle.
pub proof fn lemma_destroy_retires<C>(state: WorldState<C>, entity: Entity)
    requires
        state.is_live(entity),
    ensures
        state.despawn(entity).is_retired(entity),
{
}

/// Worlds of the same shape have the same living and the same retired
/// handles.
pub proof fn lemma_same_shape_handles<C>(a: WorldState<C>, b: WorldState<C>, entity: Entity)
    requires
        a.same_shape(b),
    ensures
        a.is_live(entity) == b.is_live(entity),
        a.is_retired(entity) == b.is_retired(entity),
        a.wf() == b.wf(),
{
    if entity.index < a.slots.len() {
        assert(a.slots[entity.index as int].generation == b.slots[entity.index as int].generation);
    }
    if a.wf() {
        assert forall|k: int| 0 <= k < b.free.len() implies {
            &&& (#[trigger] b.free[k]) < b.slots.len()
            &&& b.slots[b.free[k] as int].components is None
            &&& b.slots[b.free[k] as int].generation < u64::MAX
        } by {
            assert(a.free[k] < a.slots.len());
            assert(a.slots[a.free[k] as int].generation == b.slots[a.free[k] as int].generation);
        }
    }
    if b.wf() {
        assert forall|k: int| 0 <= k < a.free.len() implies {
            &&& (#[trigger] a.free[k]) < a.slots.len()
            &&& a.slots[a.free[k] as int].components is None
            &&& a.slots[a.free[k] as int].generation < u64::MAX
        } by {
            assert(b.free[k] < b.slots.len());
            assert(a.slots[b.free[k] as int].generation == b.slots[b.free[k] as int].generation);
        }
    }
}

/// No command brings a retired handle back: whatever is created, destroyed,
/// added or removed, and whichever slot a new entity takes, the handle stays
/// retired. The world stays well-formed.
pub proof fn lemma_command_keeps_retired<C>(
    state: WorldState<C>,
    command: CommandView<C>,
    entity: Entity,
)
    requires
        state.wf(),
    ensures
        command.apply(state).wf(),
        state.is_retired(entity) ==> command.apply(state).is_retired(entity),
{
    let after = command.apply(state);
    if !command.is_rejected(state) {
        match command {
            CommandView::CreateEntity(components) => {
                if state.free.len() > 0 {
                    let i = state.free.last();
                    assert(state.free[state.free.len() - 1] == i);
                    assert forall|k: int| 0 <= k < after.free.len() implies {
                        &&& (#[trigger] after.free[k]) < after.slots.len()
                        &&& after.slots[after.free[k] as int].components is None
                        &&& after.slots[after.free[k] as int].generation < u64::MAX
                    } by {
                        assert(after.free[k] == state.free[k]);
                        assert(state.free[k] != state.free[state.free.len() - 1]);
                    }
                    assert forall|k: int, l: int| 0 <= k < l < after.free.len() implies
                        after.free[k] != after.free[l] by {
                        assert(after.free[k] == state.free[k] && after.free[l] == state.free[l]);
                    }
                }
            },
            CommandView::DestroyEntity(target) => {
                if target.generation < u64::MAX {
                    assert forall|k: int| 0 <= k < after.free.len() implies {
                        &&& (#[trigger] after.free[k]) < after.slots.len()
                        &&& after.slots[after.free[k] as int].components is None
                        &&& after.slots[after.free[k] as int].generation < u64::MAX
                    } by {
                        if k < state.free.len() {
                            assert(after.free[k] == state.free[k]);
                        }
                    }
                    assert forall|k: int, l: int| 0 <= k < l < after.free.len() implies
                        after.free[k] != after.free[l] by {
                        if l < state.free.len() {
                            assert(after.free[k] == state.free[k] && after.free[l]
                                == state.free[l]);
                        } else {
                            assert(after.free[k] == state.free[k]);
                            assert(state.slots[state.free[k] as int].components is None);
                        }
                    }
                } else {
                    assert forall|k: int| 0 <= k < after.free.len() implies {
                        &&& (#[trigger] after.free[k]) < after.slots.len()
                        &&& after.slots[after.free[k] as int].components is None
                        &&& after.slots[after.free[k] as int].generation < u64::MAX
                    } by {
                        assert(after.free[k] == state.free[k]);
                    }
                }
            },
            CommandView::AddComponent(target, tag, value) => {
                assert forall|k: int| 0 <= k < after.free.len() implies {
                    &&& (#[trigger] after.free[k]) < after.slots.len()
                    &&& after.slots[after.free[k] as int].components is None
                    &&& after.slots[after.free[k] as int].generation < u64::MAX
                } by {
                    assert(after.free[k] == state.free[k]);
                    assert(state.slots[state.free[k] as int].components is None);
                }
            },
            CommandView::RemoveComponent(target, tag) => {
                assert forall|k: int| 0 <= k < after.free.len() implies {
                    &&& (#[trigger] after.free[k]) < after.slots.len()
                    &&& after.slots[after.free[k] as int].components is None
                    &&& after.slots[after.free[k] as int].generation < u64::MAX
                } by {
                    assert(after.free[k] == state.free[k]);
                    assert(state.slots[state.free[k] as int].components is None);
                }
            },
        }
    }
}

/// Once destroyed, always invalid: after any commands whatever, a retired
/// handle is still retired, also where its slot has been taken by a new
/// entity.
pub proof fn lemma_retired_forever<C>(
    state: WorldState<C>,
    commands: Seq<CommandView<C>>,
    entity: Entity,
)
    requires
        state.wf(),
        state.is_retired(entity),
    ensures
        apply_all(state, commands).wf(),
        apply_all(state, commands).is_retired(entity),
        !apply_all(state, commands).is_live(entity),
    decreases commands.len(),
{
    if commands.len() > 0 {
        lemma_retired_forever(state, commands.drop_last(), entity);
        lemma_command_keeps_retired(
            apply_all(state, commands.drop_last()),
            commands.last(),
            entity,
        );
    }
}

/// Commands are applied in the order of their recording: to apply two lists
/// in a row is to apply the first and then the second.
pub proof fn lemma_apply_all_concat<C>(
    state: WorldState<C>,
    first: Seq<CommandView<C>>,
    second: Seq<CommandView<C>>,
)
    ensures
        apply_all(state, first + second) == apply_all(apply_all(state, first), second),
    decreases second.len(),
{
    if second.len() == 0 {
        assert(first + second =~= first);
    } else {
        lemma_apply_all_concat(state, first, second.drop_last());
        assert((first + second).drop_last() =~= first + second.drop_last());
        assert((first + second).last() == second.last());
    }
}

/// The flush of a stage applies the commands of its systems in the order of
/// their registration: those of the systems before the last, then those of
/// the last.
pub proof fn lemma_flush_follows_registration<S: System>(
    systems: Seq<S>,
    store: Store<S::Component, S::Resource>,
    n: int,
)
    requires
        0 < n <= systems.len(),
    ensures
        ({
            let before = dispatch(systems, store, n - 1);
            let last = run_system(systems[n - 1], before.store);
            let all = dispatch(systems, store, n);
            &&& all.commands == before.commands + last.commands
            &&& forall|world: WorldState<S::Component>|
                #![trigger apply_all(world, all.commands)]
                apply_all(world, all.commands) == apply_all(
                    apply_all(world, before.commands),
                    last.commands,
                )
        }),
{
    let before = dispatch(systems, store, n - 1);
    let last = run_system(systems[n - 1], before.store);
    let all = dispatch(systems, store, n);
    assert forall|world: WorldState<S::Component>|
        #![trigger apply_all(world, all.commands)]
        apply_all(world, all.commands) == apply_all(
            apply_all(world, before.commands),
            last.commands,
        ) by {
        lemma_apply_all_concat(world, before.commands, last.commands);
    }
}

/// While the systems of a stage run, the world keeps its shape: no entity
/// comes or goes, and none gains or loses a component.
pub proof fn lemma_dispatch_keeps_shape<S: System>(
    systems: Seq<S>,
    store: Store<S::Component, S::Resource>,
    n: int,
)
    requires
        store.world.bounded(),
        n <= systems.len(),
    ensures
        store.world.same_shape(dispatch(systems, store, n).store.world),
    decreases n,
{
    if n > 0 {
        lemma_dispatch_keeps_shape(systems, store, n - 1);
        let before = dispatch(systems, store, n - 1).store;
        lemma_run_system_frame(systems[n - 1], before);
        store.world.lemma_same_shape_trans(
            before.world,
            run_system(systems[n - 1], before).store.world,
        );
    } else {
        store.world.lemma_same_shape_refl();
    }
}

/// A command recorded in a stage shows in no query of that stage: the world
/// that the system at place `n` runs on answers every query, and says of
/// every handle, what the world said before the stage began.
pub proof fn lemma_commands_wait_for_flush<S: System>(
    systems: Seq<S>,
    store: Store<S::Component, S::Resource>,
    n: int,
    types: Set<TypeTag>,
    entity: Entity,
)
    requires
        store.world.bounded(),
        n <= systems.len(),
    ensures
        dispatch(systems, store, n).store.world.matching(types) == store.world.matching(types),
        dispatch(systems, store, n).store.world.is_live(entity) == store.world.is_live(entity),
        store.world.is_live(entity) ==> dispatch(systems, store, n).store.world.components(
            entity,
        ).dom() == store.world.components(entity).dom(),
{
    lemma_dispatch_keeps_shape(systems, store, n);
    let seen = dispatch(systems, store, n).store.world;
    store.world.lemma_same_shape_matching(seen, types, store.world.slots.len() as int);
    lemma_same_shape_handles(store.world, seen, entity);
    if store.world.is_live(entity) {
        assert(store.world.slots[entity.index as int].generation
            == seen.slots[entity.index as int].generation);
    }
}

/// A command recorded in a stage shows from the next stage on: the stage
/// that follows begins on the world to which every command of the stage
/// before it has been applied, in the order of recording.
pub proof fn lemma_commands_show_in_next_stage<S: System>(
    stages: Seq<Seq<S>>,
    store: Store<S::Component, S::Resource>,
    n: int,
)
    requires
        0 <= n < stages.len(),
    ensures
        ({
            let before = run_stages(stages, store, n);
            let done = dispatch(stages[n], before, stages[n].len() as int);
            let next = run_stages(stages, store, n + 1);
            &&& next.world == apply_all(done.store.world, done.commands)
            &&& next.resources == done.store.resources
        }),
{
}

/// No stage brings a retired handle back: neither what its systems write
/// nor the commands that they record.
pub proof fn lemma_stage_keeps_retired<S: System>(
    systems: Seq<S>,
    store: Store<S::Component, S::Resource>,
    entity: Entity,
)
    requires
        store.world.wf(),
        store.world.bounded(),
        store.world.is_retired(entity),
    ensures
        run_stage(systems, store).world.wf(),
        run_stage(systems, store).world.is_retired(entity),
        !run_stage(systems, store).world.is_live(entity),
{
    let done = dispatch(systems, store, systems.len() as int);
    lemma_dispatch_keeps_shape(systems, store, systems.len() as int);
    lemma_same_shape_handles(store.world, done.store.world, entity);
    lemma_retired_forever(done.store.world, done.commands, entity);
}

} // verus!
