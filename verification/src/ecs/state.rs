//! The mathematical model of a world: what each slot holds and which slots
//! wait to be used again.

use vstd::prelude::*;
use crate::ecs::entity::Entity;
use crate::ecs::typemap::TypeTag;

verus! {

/// What one slot of the entity index holds: its generation, and the
/// components of the entity that lives in it, if one does.
pub struct SlotState<C> {
    pub generation: u64,
    pub components: Option<Map<TypeTag, C>>,
}

/// A world as a value: the slots in order, and the indices of the slots that
/// the next entities will take, the last one first.
pub struct WorldState<C> {
    pub slots: Seq<SlotState<C>>,
    pub free: Seq<usize>,
}

impl<C> WorldState<C> {
    pub open spec fn empty() -> Self {
        WorldState { slots: Seq::empty(), free: Seq::empty() }
    }

    /// The slots can be counted by a machine word.
    pub open spec fn bounded(self) -> bool {
        self.slots.len() <= usize::MAX
    }

    /// Every slot on the free list exists, is empty, can still be given a
    /// higher generation, and stands on the list once.
    pub open spec fn wf(self) -> bool {
        &&& forall|k: int|
            0 <= k < self.free.len() ==> {
                &&& (#[trigger] self.free[k]) < self.slots.len()
                &&& self.slots[self.free[k] as int].components is None
                &&& self.slots[self.free[k] as int].generation < u64::MAX
            }
        &&& forall|k: int, l: int|
            0 <= k < l < self.free.len() ==> self.free[k] != self.free[l]
    }

    /// `entity` names the entity that now lives in its slot.
    pub open spec fn is_live(self, entity: Entity) -> bool {
        &&& entity.index < self.slots.len()
        &&& self.slots[entity.index as int].generation == entity.generation
        &&& self.slots[entity.index as int].components is Some
    }

    /// `entity` named an entity that is gone for good: its slot is empty or
    /// has moved on to a later generation.
    pub open spec fn is_retired(self, entity: Entity) -> bool {
        &&& entity.index < self.slots.len()
        &&& {
            ||| entity.generation < self.slots[entity.index as int].generation
            ||| (entity.generation == self.slots[entity.index as int].generation
                && self.slots[entity.index as int].components is None)
        }
    }

    /// The components of a living entity.
    pub open spec fn components(self, entity: Entity) -> Map<TypeTag, C>
        recommends
            self.is_live(entity),
    {
        self.slots[entity.index as int].components->0
    }

    /// The handle that the next created entity gets.
    pub open spec fn next_entity(self) -> Entity {
        if self.free.len() > 0 {
            Entity {
                index: self.free.last(),
                generation: (self.slots[self.free.last() as int].generation + 1) as u64,
            }
        } else {
            Entity { index: self.slots.len() as usize, generation: 0 }
        }
    }

    /// The world after an entity with `components` was created.
    pub open spec fn spawn(self, components: Map<TypeTag, C>) -> Self {
        let entity = self.next_entity();
        let slot = SlotState { generation: entity.generation, components: Some(components) };
        if self.free.len() > 0 {
            WorldState {
                slots: self.slots.update(entity.index as int, slot),
                free: self.free.drop_last(),
            }
        } else {
            WorldState { slots: self.slots.push(slot), free: self.free }
        }
    }

    /// A copy in which the slot of `entity` holds `components`.
    pub open spec fn with_components(
        self,
        entity: Entity,
        components: Option<Map<TypeTag, C>>,
    ) -> Self {
        WorldState {
            slots: self.slots.update(
                entity.index as int,
                SlotState { generation: entity.generation, components },
            ),
            free: self.free,
        }
    }

    /// The world after the living `entity` was destroyed. Its slot goes on the
    /// free list unless its generation has reached the last one.
    pub open spec fn despawn(self, entity: Entity) -> Self {
        let emptied = self.with_components(entity, None);
        if entity.generation < u64::MAX {
            WorldState { slots: emptied.slots, free: self.free.push(entity.index) }
        } else {
            emptied
        }
    }

    /// The world after the living `entity` was given `value` as its component
    /// of type `tag`, in place of the one it had, if any.
    pub open spec fn attach(self, entity: Entity, tag: TypeTag, value: C) -> Self {
        self.with_components(entity, Some(self.components(entity).insert(tag, value)))
    }

    /// The world after the living `entity` lost its component of type `tag`.
    pub open spec fn detach(self, entity: Entity, tag: TypeTag) -> Self {
        self.with_components(entity, Some(self.components(entity).remove(tag)))
    }

    /// The handle of the entity in slot `index`.
    pub open spec fn entity_at(self, index: int) -> Entity {
        Entity { index: index as usize, generation: self.slots[index].generation }
    }

    /// An entity lives in slot `index` and has a component of every type in
    /// `types`.
    pub open spec fn matches(self, index: int, types: Set<TypeTag>) -> bool {
        &&& 0 <= index < self.slots.len()
        &&& self.slots[index].components is Some
        &&& types.subset_of(self.slots[index].components->0.dom())
    }

    /// The entities in the first `n` slots that have every type in `types`,
    /// in the order of their slots.
    pub open spec fn matching_below(self, types: Set<TypeTag>, n: int) -> Seq<Entity>
        decreases n,
    {
        if n <= 0 {
            Seq::empty()
        } else if self.matches(n - 1, types) {
            self.matching_below(types, n - 1).push(self.entity_at(n - 1))
        } else {
            self.matching_below(types, n - 1)
        }
    }

    /// The entities that have every type in `types`, in the order of their
    /// slots.
    pub open spec fn matching(self, types: Set<TypeTag>) -> Seq<Entity> {
        self.matching_below(types, self.slots.len() as int)
    }

    /// The two worlds have the same entities with the same types of
    /// components; only the values of components may differ.
    pub open spec fn same_shape(self, other: Self) -> bool {
        &&& self.slots.len() == other.slots.len()
        &&& self.free == other.free
        &&& forall|i: int|
            0 <= i < self.slots.len() ==> {
                &&& (#[trigger] self.slots[i]).generation == other.slots[i].generation
                &&& self.slots[i].components is Some == other.slots[i].components is Some
                &&& self.slots[i].components is Some ==> self.slots[i].components->0.dom()
                    == other.slots[i].components->0.dom()
            }
    }

    /// A component of a type that the entity already has can be replaced
    /// without a change to the shape of the world.
    pub proof fn lemma_attach_keeps_shape(self, entity: Entity, tag: TypeTag, value: C)
        requires
            self.is_live(entity),
            self.components(entity).contains_key(tag),
        ensures
            self.same_shape(self.attach(entity, tag, value)),
            self.attach(entity, tag, value).same_shape(self),
    {
        let after = self.attach(entity, tag, value);
        assert(self.components(entity).insert(tag, value).dom() =~= self.components(
            entity,
        ).dom());
        assert forall|i: int| 0 <= i < self.slots.len() implies {
            &&& (#[trigger] self.slots[i]).generation == after.slots[i].generation
            &&& self.slots[i].components is Some == after.slots[i].components is Some
            &&& self.slots[i].components is Some ==> self.slots[i].components->0.dom()
                == after.slots[i].components->0.dom()
        } by {}
        assert forall|i: int| 0 <= i < after.slots.len() implies {
            &&& (#[trigger] after.slots[i]).generation == self.slots[i].generation
            &&& after.slots[i].components is Some == self.slots[i].components is Some
            &&& after.slots[i].components is Some ==> after.slots[i].components->0.dom()
                == self.slots[i].components->0.dom()
        } by {}
    }

    /// Worlds of the same shape answer every query with the same entities.
    pub proof fn lemma_same_shape_matching(self, other: Self, types: Set<TypeTag>, n: int)
        requires
            self.same_shape(other),
            n <= self.slots.len(),
        ensures
            self.matching_below(types, n) == other.matching_below(types, n),
        decreases n,
    {
        if n > 0 {
            self.lemma_same_shape_matching(other, types, n - 1);
            assert(self.slots[n - 1].generation == other.slots[n - 1].generation);
        }
    }

    /// Every entity that a query returns is alive and has the types asked
    /// for.
    pub proof fn lemma_matching_members(self, types: Set<TypeTag>, n: int)
        requires
            n <= self.slots.len() <= usize::MAX,
        ensures
            forall|k: int|
                0 <= k < self.matching_below(types, n).len() ==> {
                    &&& self.is_live(#[trigger] self.matching_below(types, n)[k])
                    &&& types.subset_of(
                        self.components(self.matching_below(types, n)[k]).dom(),
                    )
                },
        decreases n,
    {
        if n > 0 {
            self.lemma_matching_members(types, n - 1);
            let before = self.matching_below(types, n - 1);
            let now = self.matching_below(types, n);
            assert forall|k: int| 0 <= k < now.len() implies {
                &&& self.is_live(#[trigger] now[k])
                &&& types.subset_of(self.components(now[k]).dom())
            } by {
                if k < before.len() {
                    assert(now[k] == before[k]);
                } else {
                    assert(self.matches(n - 1, types));
                    assert(now[k] == self.entity_at(n - 1));
                    assert((n - 1) as usize == n - 1);
                }
            }
        }
    }

    /// A world has its own shape.
    pub proof fn lemma_same_shape_refl(self)
        ensures
            self.same_shape(self),
    {
    }

    /// Having the same shape carries over from one pair of worlds to the
    /// next.
    pub proof fn lemma_same_shape_trans(self, middle: Self, other: Self)
        requires
            self.same_shape(middle),
            middle.same_shape(other),
        ensures
            self.same_shape(other),
    {
        assert forall|i: int| 0 <= i < self.slots.len() implies {
            &&& (#[trigger] self.slots[i]).generation == other.slots[i].generation
            &&& self.slots[i].components is Some == other.slots[i].components is Some
            &&& self.slots[i].components is Some ==> self.slots[i].components->0.dom()
                == other.slots[i].components->0.dom()
        } by {
            assert(middle.slots[i].generation == other.slots[i].generation);
        }
    }
}

} // verus!
