//! Changes to the set of entities and to their sets of components, recorded
//! while systems run and applied to the world between stages.

use vstd::prelude::*;
use crate::ecs::entity::{Entity, InvalidEntity};
use crate::ecs::state::WorldState;
use crate::ecs::typemap::{bundle, TypeTag};
use crate::ecs::world::World;

verus! {

/// One recorded change.
pub enum Command<C> {
    CreateEntity(Vec<(TypeTag, C)>),
    DestroyEntity(Entity),
    AddComponent(Entity, TypeTag, C),
    RemoveComponent(Entity, TypeTag),
}

/// A `Command` as a value.
pub enum CommandView<C> {
    CreateEntity(Seq<(TypeTag, C)>),
    DestroyEntity(Entity),
    AddComponent(Entity, TypeTag, C),
    RemoveComponent(Entity, TypeTag),
}

impl<C> Command<C> {
    pub open spec fn view(&self) -> CommandView<C> {
        match self {
            Command::CreateEntity(components) => CommandView::CreateEntity(components@),
            Command::DestroyEntity(entity) => CommandView::DestroyEntity(*entity),
            Command::AddComponent(entity, tag, value) => CommandView::AddComponent(
                *entity,
                *tag,
                *value,
            ),
            Command::RemoveComponent(entity, tag) => CommandView::RemoveComponent(*entity, *tag),
        }
    }
}

/// The values of a list of commands, in order.
pub open spec fn command_views<C>(commands: Seq<Command<C>>) -> Seq<CommandView<C>> {
    Seq::new(commands.len(), |i: int| commands[i]@)
}

impl<C> CommandView<C> {
    /// The entity that the command is about; `None` for the creation of one.
    pub open spec fn target(self) -> Option<Entity> {
        match self {
            CommandView::CreateEntity(_) => None,
            CommandView::DestroyEntity(entity) => Some(entity),
            CommandView::AddComponent(entity, _, _) => Some(entity),
            CommandView::RemoveComponent(entity, _) => Some(entity),
        }
    }

    /// The command is about an entity that does not live in `state`, and so
    /// leaves `state` as it is.
    pub open spec fn is_rejected(self, state: WorldState<C>) -> bool {
        match self.target() {
            Some(entity) => !state.is_live(entity),
            None => false,
        }
    }

    /// The world after the command was applied to `state`.
    pub open spec fn apply(self, state: WorldState<C>) -> WorldState<C> {
        if self.is_rejected(state) {
            state
        } else {
            match self {
                CommandView::CreateEntity(components) => state.spawn(bundle(components)),
                CommandView::DestroyEntity(entity) => state.despawn(entity),
                CommandView::AddComponent(entity, tag, value) => state.attach(entity, tag, value),
                CommandView::RemoveComponent(entity, tag) => state.detach(entity, tag),
            }
        }
    }
}

/// The world after `commands` were applied to `state` one after the other.
pub open spec fn apply_all<C>(state: WorldState<C>, commands: Seq<CommandView<C>>) -> WorldState<
    C,
>
    decreases commands.len(),
{
    if commands.len() == 0 {
        state
    } else {
        commands.last().apply(apply_all(state, commands.drop_last()))
    }
}

/// The failures of the commands among `commands` that were rejected when
/// their turn came, in order.
pub open spec fn rejections<C>(state: WorldState<C>, commands: Seq<CommandView<C>>) -> Seq<
    InvalidEntity,
>
    decreases commands.len(),
{
    if commands.len() == 0 {
        Seq::empty()
    } else {
        let before = apply_all(state, commands.drop_last());
        let earlier = rejections(state, commands.drop_last());
        if commands.last().is_rejected(before) {
            earlier.push(InvalidEntity { entity: commands.last().target()->0 })
        } else {
            earlier
        }
    }
}

/// The commands recorded during one stage, in the order of their recording.
pub struct CommandBuffer<C> {
    records: Vec<Command<C>>,
}

impl<C> CommandBuffer<C> {
    pub closed spec fn view(&self) -> Seq<CommandView<C>> {
        command_views(self.records@)
    }

    pub fn new() -> (buffer: Self)
        ensures
            buffer@ == Seq::<CommandView<C>>::empty(),
    {
        let buffer = CommandBuffer { records: Vec::new() };
        assert(buffer@ =~= Seq::empty());
        buffer
    }

    pub fn len(&self) -> (n: usize)
        ensures
            n == self@.len(),
    {
        self.records.len()
    }

    /// Records `command` behind the commands recorded so far. The world is
    /// not touched before the buffer is flushed.
    pub fn record(&mut self, command: Command<C>)
        ensures
            final(self)@ == old(self)@.push(command@),
    {
        self.records.push(command);
        assert(self@ =~= old(self)@.push(command@));
    }

    /// Records the creation of an entity with `components`.
    pub fn create_entity(&mut self, components: Vec<(TypeTag, C)>)
        ensures
            final(self)@ == old(self)@.push(CommandView::CreateEntity(components@)),
    {
        self.record(Command::CreateEntity(components));
    }

    /// Records the destruction of `entity`.
    pub fn destroy_entity(&mut self, entity: Entity)
        ensures
            final(self)@ == old(self)@.push(CommandView::DestroyEntity(entity)),
    {
        self.record(Command::DestroyEntity(entity));
    }

    /// Records that `entity` gets the component `value` of type `tag`.
    pub fn add_component(&mut self, entity: Entity, tag: TypeTag, value: C)
        ensures
            final(self)@ == old(self)@.push(CommandView::AddComponent(entity, tag, value)),
    {
        self.record(Command::AddComponent(entity, tag, value));
    }

    /// Records that `entity` loses its component of type `tag`.
    pub fn remove_component(&mut self, entity: Entity, tag: TypeTag)
        ensures
            final(self)@ == old(self)@.push(CommandView::RemoveComponent(entity, tag)),
    {
        self.record(Command::RemoveComponent(entity, tag));
    }

    /// Records the commands in `commands`, in their order, behind those
    /// recorded so far.
    pub fn extend(&mut self, commands: Vec<Command<C>>)
        ensures
            final(self)@ == old(self)@ + command_views(commands@),
    {
        let ghost added = commands@;
        let mut commands = commands;
        self.records.append(&mut commands);
        assert(self@ =~= old(self)@ + command_views(added));
    }

    /// Applies the recorded commands to `world` in the order of their
    /// recording and empties the buffer. A command about an entity that does
    /// not live when its turn comes changes nothing; the failures of these
    /// commands are returned in order.
    pub fn flush(&mut self, world: &mut World<C>) -> (failures: Vec<InvalidEntity>)
        requires
            old(world).wf(),
        ensures
            final(world).wf(),
            final(world)@ == apply_all(old(world)@, old(self)@),
            failures@ == rejections(old(world)@, old(self)@),
            final(self)@ == Seq::<CommandView<C>>::empty(),
    {
        let mut records: Vec<Command<C>> = Vec::new();
        std::mem::swap(&mut self.records, &mut records);
        assert(self@ =~= Seq::empty());
        let ghost all = command_views(records@);
        let ghost start = world@;
        let ghost mut done: int = 0;
        let mut failures: Vec<InvalidEntity> = Vec::new();
        for record in it: records
            invariant
                world.wf(),
                command_views(it.seq()) == all,
                done == it.index(),
                world@ == apply_all(start, all.take(done)),
                failures@ == rejections(start, all.take(done)),
        {
            proof {
                assert(all.take(done + 1).drop_last() =~= all.take(done));
                assert(all.take(done + 1).last() == record@);
                done = done + 1;
            }
            match record {
                Command::CreateEntity(components) => {
                    world.create_entity(components);
                },
                Command::DestroyEntity(entity) => {
                    match world.destroy_entity(entity) {
                        Ok(()) => {},
                        Err(failure) => {
                            failures.push(failure);
                        },
                    }
                },
                Command::AddComponent(entity, tag, value) => {
                    match world.add_component(entity, tag, value) {
                        Ok(()) => {},
                        Err(failure) => {
                            failures.push(failure);
                        },
                    }
                },
                Command::RemoveComponent(entity, tag) => {
                    match world.remove_component(entity, tag) {
                        Ok(_) => {},
                        Err(failure) => {
                            failures.push(failure);
                        },
                    }
                },
            }
        }
        assert(all.take(done) =~= all);
        failures
    }
}

} // verus!
