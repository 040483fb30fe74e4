//! The component store. Entities with the same set of component types share
//! an archetype: a table with one row per entity. The entity index says for
//! each slot which generation it is in and where its entity's row stands.

use vstd::prelude::*;
use crate::ecs::entity::{Entity, InvalidEntity};
use crate::ecs::state::{SlotState, WorldState};
use crate::ecs::typemap::{bundle, lemma_ascending_unique, TypeMap, TypeTag};

verus! {

/// One entity's components.
struct Row<C> {
    entity: Entity,
    components: TypeMap<C>,
}

/// The rows of the entities that have exactly the component types `types`.
struct Archetype<C> {
    types: Vec<TypeTag>,
    rows: Vec<Row<C>>,
}

/// Where an entity's row stands.
#[derive(Clone, Copy)]
struct Location {
    archetype: usize,
    row: usize,
}

/// One slot of the entity index.
struct Slot {
    generation: u64,
    location: Option<Location>,
}

/// The store of all entities and their components.
pub struct World<C> {
    slots: Vec<Slot>,
    free: Vec<usize>,
    archetypes: Vec<Archetype<C>>,
}

/// `a` and `b` hold the same tags in the same order.
fn same_tags(a: &Vec<TypeTag>, b: &Vec<TypeTag>) -> (same: bool)
    ensures
        same == (a@ == b@),
{
    if a.len() != b.len() {
        return false;
    }
    let mut i: usize = 0;
    while i < a.len()
        invariant
            a@.len() == b@.len(),
            i <= a@.len(),
            forall|j: int| 0 <= j < i ==> a@[j] == b@[j],
        decreases a@.len() - i,
    {
        if a[i] != b[i] {
            return false;
        }
        i += 1;
    }
    assert(a@ =~= b@);
    true
}

/// Every tag of `wanted` stands in `types`.
fn covers(types: &Vec<TypeTag>, wanted: &Vec<TypeTag>) -> (all: bool)
    ensures
        all == wanted@.to_set().subset_of(types@.to_set()),
{
    let mut i: usize = 0;
    while i < wanted.len()
        invariant
            i <= wanted@.len(),
            forall|j: int| 0 <= j < i ==> types@.contains(wanted@[j]),
        decreases wanted@.len() - i,
    {
        let tag = wanted[i];
        let mut k: usize = 0;
        let mut found = false;
        while k < types.len() && !found
            invariant
                k <= types@.len(),
                found ==> types@.contains(tag),
                !found ==> forall|j: int| 0 <= j < k ==> types@[j] != tag,
            decreases types@.len() - k + (if found { 0int } else { 1int }),
        {
            if types[k] == tag {
                found = true;
            } else {
                k += 1;
            }
        }
        if !found {
            assert(!types@.contains(tag));
            assert(wanted@.to_set().contains(tag));
            return false;
        }
        i += 1;
    }
    assert forall|t: TypeTag| wanted@.to_set().contains(t) implies types@.to_set().contains(
        t,
    ) by {
        let j = choose|j: int| 0 <= j < wanted@.len() && wanted@[j] == t;
        assert(types@.contains(wanted@[j]));
    }
    true
}

/// A copy of `tags`.
fn copy_tags(tags: &Vec<TypeTag>) -> (copy: Vec<TypeTag>)
    ensures
        copy@ == tags@,
{
    let mut copy: Vec<TypeTag> = Vec::new();
    let mut i: usize = 0;
    while i < tags.len()
        invariant
            i <= tags@.len(),
            copy@ == tags@.take(i as int),
        decreases tags@.len() - i,
    {
        copy.push(tags[i]);
        assert(copy@ =~= tags@.take(i + 1));
        i += 1;
    }
    assert(tags@.take(i as int) =~= tags@);
    copy
}

impl<C> World<C> {
    /// Slot `i` is empty, or points at the row of its own entity.
    spec fn slot_ok(&self, i: int) -> bool {
        match self.slots@[i].location {
            None => true,
            Some(l) => {
                &&& l.archetype < self.archetypes@.len()
                &&& l.row < self.archetypes@[l.archetype as int].rows@.len()
                &&& self.archetypes@[l.archetype as int].rows@[l.row as int].entity.index == i
                &&& self.archetypes@[l.archetype as int].rows@[l.row as int].entity.generation
                    == self.slots@[i].generation
            },
        }
    }

    /// Row `r` of archetype `a` has the archetype's types and is the row that
    /// its entity's slot points at.
    spec fn row_ok(&self, a: int, r: int) -> bool {
        let row = self.archetypes@[a].rows@[r];
        &&& row.components.wf()
        &&& row.components.tags() == self.archetypes@[a].types@
        &&& row.entity.index < self.slots@.len()
        &&& self.slots@[row.entity.index as int].location matches Some(l)
        &&& l.archetype == a
        &&& l.row == r
    }

    /// The entity index and the archetype tables agree, no two archetypes have
    /// the same types, and the free list holds empty slots only.
    pub closed spec fn wf(&self) -> bool {
        &&& self.slots@.len() <= usize::MAX
        &&& forall|i: int| 0 <= i < self.slots@.len() ==> self.slot_ok(i)
        &&& forall|a: int, r: int|
            0 <= a < self.archetypes@.len() && 0 <= r < self.archetypes@[a].rows@.len()
                ==> self.row_ok(a, r)
        &&& forall|a: int, b: int|
            0 <= a < b < self.archetypes@.len() ==> self.archetypes@[a].types@
                != self.archetypes@[b].types@
        &&& forall|k: int|
            0 <= k < self.free@.len() ==> {
                &&& (#[trigger] self.free@[k]) < self.slots@.len()
                &&& self.slots@[self.free@[k] as int].location is None
                &&& self.slots@[self.free@[k] as int].generation < u64::MAX
            }
        &&& forall|k: int, l: int|
            0 <= k < l < self.free@.len() ==> self.free@[k] != self.free@[l]
    }

    /// What slot `i` holds.
    spec fn slot_state(&self, i: int) -> SlotState<C> {
        SlotState {
            generation: self.slots@[i].generation,
            components: match self.slots@[i].location {
                None => None,
                Some(l) => Some(
                    self.archetypes@[l.archetype as int].rows@[l.row as int].components@,
                ),
            },
        }
    }

    pub closed spec fn view(&self) -> WorldState<C> {
        WorldState {
            slots: Seq::new(self.slots@.len(), |i: int| self.slot_state(i)),
            free: self.free@,
        }
    }

    /// The model of a well-formed world is well-formed.
    pub proof fn lemma_view_wf(&self)
        requires
            self.wf(),
        ensures
            self@.wf(),
            self@.bounded(),
    {
    }

    pub fn new() -> (world: Self)
        ensures
            world.wf(),
            world@ == WorldState::<C>::empty(),
    {
        let world = World { slots: Vec::new(), free: Vec::new(), archetypes: Vec::new() };
        assert(world@.slots =~= Seq::empty());
        world
    }

    /// Where the row of `entity` stands, if `entity` is alive.
    fn locate(&self, entity: Entity) -> (place: Option<Location>)
        requires
            self.wf(),
        ensures
            place.is_some() == self@.is_live(entity),
            place.is_some() ==> self.slots@[entity.index as int].location == place,
    {
        if entity.index < self.slots.len() {
            let slot = &self.slots[entity.index];
            if slot.generation == entity.generation {
                return slot.location;
            }
        }
        None
    }

    /// Takes the row of the entity in slot `index` out of its table and
    /// leaves the slot empty. The row that stood last in the table takes the
    /// place of the one taken.
    fn take_row(&mut self, index: usize) -> (row: Row<C>)
        requires
            old(self).wf(),
            index < old(self).slots@.len(),
            old(self).slots@[index as int].location is Some,
        ensures
            final(self).wf(),
            final(self)@ == old(self)@.with_components(old(self)@.entity_at(index as int), None),
            final(self).slots@.len() == old(self).slots@.len(),
            final(self).slots@[index as int].location is None,
            final(self).slots@[index as int].generation == old(self).slots@[index as int].generation,
            final(self).free@ == old(self).free@,
            !final(self).free@.contains(index),
            row.entity == old(self)@.entity_at(index as int),
            row.components.wf(),
            Some(row.components@) == old(self)@.slots[index as int].components,
    {
        let l = self.slots[index].location.unwrap();
        assert forall|k: int| 0 <= k < self.free@.len() implies self.free@[k] != index by {}
        let ghost a0 = l.archetype as int;
        let ghost r0 = l.row as int;
        let ghost last = old(self).archetypes@[a0].rows@.len() - 1;
        assert(old(self).slot_ok(index as int));
        assert(old(self).row_ok(a0, r0));
        assert(old(self).row_ok(a0, last));
        let row = self.archetypes[l.archetype].rows.swap_remove(l.row);
        if l.row < self.archetypes[l.archetype].rows.len() {
            let moved = self.archetypes[l.archetype].rows[l.row].entity.index;
            self.slots[moved].location = Some(l);
        }
        self.slots[index].location = None;
        proof {
            assert(self.archetypes@.len() == old(self).archetypes@.len());
            assert(self.archetypes@[a0].types@ == old(self).archetypes@[a0].types@);
            assert(self.archetypes@[a0].rows@ == old(self).archetypes@[a0].rows@.update(
                r0,
                old(self).archetypes@[a0].rows@[last],
            ).drop_last());
            assert forall|a: int| 0 <= a < self.archetypes@.len() && a != a0 implies
                self.archetypes@[a] == old(self).archetypes@[a] by {}
            let ghost moved = old(self).archetypes@[a0].rows@[last].entity.index as int;
            assert forall|i: int| 0 <= i < self.slots@.len() implies self.slots@[i].generation
                == old(self).slots@[i].generation by {}
            assert forall|i: int| 0 <= i < self.slots@.len() && i != index && !(r0 < last && i
                == moved) implies self.slots@[i].location == old(self).slots@[i].location by {}
            assert forall|i: int| 0 <= i < self.slots@.len() implies self.slot_ok(i)
                && self.slot_state(i) == (if i == index {
                SlotState { generation: old(self).slots@[i].generation, components: None }
            } else {
                old(self).slot_state(i)
            }) by {
                assert(old(self).slot_ok(i));
                if i == index {
                } else if r0 < last && i == moved {
                    assert(old(self).slot_ok(moved));
                } else if old(self).slots@[i].location is Some {
                    let li = old(self).slots@[i].location->0;
                    assert(old(self).row_ok(li.archetype as int, li.row as int));
                    if li.archetype == a0 {
                        assert(li.row != r0);
                        assert(li.row != last);
                    }
                }
            }
            assert forall|a: int, r: int|
                0 <= a < self.archetypes@.len() && 0 <= r < self.archetypes@[a].rows@.len()
                implies self.row_ok(a, r) by {
                if a == a0 && r == r0 {
                    assert(old(self).row_ok(a0, last));
                } else {
                    assert(old(self).row_ok(a, r));
                    let e = old(self).archetypes@[a].rows@[r].entity.index as int;
                    assert(e != index);
                    assert(!(r0 < last && e == moved));
                }
            }
            assert(self@.slots =~= old(self)@.with_components(
                old(self)@.entity_at(index as int),
                None,
            ).slots);
        }
        row
    }

    /// Puts `row` into the table of its archetype, which is made if no entity
    /// had these types before, and lets the empty slot `index` point at it.
    fn place_row(&mut self, index: usize, row: Row<C>)
        requires
            old(self).wf(),
            index < old(self).slots@.len(),
            old(self).slots@[index as int].location is None,
            !old(self).free@.contains(index),
            row.entity == old(self)@.entity_at(index as int),
            row.components.wf(),
        ensures
            final(self).wf(),
            final(self)@ == old(self)@.with_components(row.entity, Some(row.components@)),
    {
        let mut a: usize = 0;
        while a < self.archetypes.len() && !same_tags(
            &self.archetypes[a].types,
            row.components.tag_list(),
        )
            invariant
                a <= self.archetypes@.len(),
                forall|b: int| 0 <= b < a ==> self.archetypes@[b].types@ != row.components.tags(),
            decreases self.archetypes@.len() - a,
        {
            a += 1;
        }
        if a == self.archetypes.len() {
            let types = copy_tags(row.components.tag_list());
            self.archetypes.push(Archetype { types, rows: Vec::new() });
        }
        let ghost mid = *self;
        assert(mid.archetypes@[a as int].types@ == row.components.tags());
        assert forall|b: int, r: int|
            0 <= b < mid.archetypes@.len() && 0 <= r < mid.archetypes@[b].rows@.len()
            implies mid.row_ok(b, r) && b < old(self).archetypes@.len() by {
            assert(old(self).row_ok(b, r));
        }
        assert forall|i: int| 0 <= i < mid.slots@.len() implies mid.slot_ok(i)
            && mid.slot_state(i) == old(self).slot_state(i) by {
            assert(old(self).slot_ok(i));
        }
        let r = self.archetypes[a].rows.len();
        self.archetypes[a].rows.push(row);
        self.slots[index].location = Some(Location { archetype: a, row: r });
        proof {
            assert forall|b: int| 0 <= b < self.archetypes@.len() && b != a implies
                self.archetypes@[b] == mid.archetypes@[b] by {}
            assert(self.archetypes@[a as int].rows@ == mid.archetypes@[a as int].rows@.push(row));
            assert forall|i: int| 0 <= i < self.slots@.len() implies self.slot_ok(i)
                && self.slot_state(i) == (if i == index {
                SlotState {
                    generation: old(self).slots@[i].generation,
                    components: Some(row.components@),
                }
            } else {
                old(self).slot_state(i)
            }) by {
                assert(mid.slot_ok(i));
            }
            assert forall|b: int, q: int|
                0 <= b < self.archetypes@.len() && 0 <= q < self.archetypes@[b].rows@.len()
                implies self.row_ok(b, q) by {
                if b == a && q == r {
                } else {
                    assert(mid.row_ok(b, q));
                }
            }
            assert forall|k: int| 0 <= k < self.free@.len() implies self.free@[k] != index by {
                assert(old(self).free@.contains(old(self).free@[k]));
            }
            assert(self@.slots =~= old(self)@.with_components(
                row.entity,
                Some(row.components@),
            ).slots);
        }
    }

    /// Whether `entity` names a living entity.
    pub fn contains(&self, entity: Entity) -> (live: bool)
        requires
            self.wf(),
        ensures
            live == self@.is_live(entity),
    {
        self.locate(entity).is_some()
    }

    /// Creates an entity with the components in `components` and returns its
    /// handle. The entity takes the slot that was freed last, in the next
    /// generation of that slot, or a new slot where none is free.
    pub fn push(&mut self, components: TypeMap<C>) -> (entity: Entity)
        requires
            old(self).wf(),
            components.wf(),
        ensures
            final(self).wf(),
            entity == old(self)@.next_entity(),
            final(self)@ == old(self)@.spawn(components@),
    {
        let index: usize;
        let generation: u64;
        match self.free.pop() {
            Some(i) => {
                assert(old(self).free@[old(self).free@.len() - 1] == i);
                index = i;
                generation = self.slots[i].generation + 1;
                self.slots[i].generation = generation;
            },
            None => {
                index = self.slots.len();
                generation = 0;
                self.slots.push(Slot { generation: 0, location: None });
            },
        }
        let count = self.slots.len();
        let entity = Entity { index, generation };
        proof {
            let mid = *self;
            assert forall|i: int| 0 <= i < mid.slots@.len() implies mid.slot_ok(i) by {
                if i < old(self).slots@.len() {
                    assert(old(self).slot_ok(i));
                }
            }
            assert forall|a: int, r: int|
                0 <= a < mid.archetypes@.len() && 0 <= r < mid.archetypes@[a].rows@.len()
                implies mid.row_ok(a, r) by {
                assert(old(self).row_ok(a, r));
                let e = old(self).archetypes@[a].rows@[r].entity.index as int;
                assert(old(self).slot_ok(e));
            }
            assert forall|k: int| 0 <= k < mid.free@.len() implies mid.free@[k] != index by {
                assert(mid.free@[k] == old(self).free@[k]);
            }
            assert(mid.wf());
            assert(!mid.free@.contains(index));
            assert forall|i: int| 0 <= i < mid.slots@.len() && i != index implies mid.slot_state(i)
                == old(self).slot_state(i) by {
                assert(old(self).slot_ok(i));
            }
        }
        let ghost mid = *self;
        self.place_row(index, Row { entity, components });
        proof {
            assert(self@.slots =~= old(self)@.spawn(components@).slots);
            assert(self@.free =~= old(self)@.spawn(components@).free);
        }
        entity
    }

    /// Creates an entity with the components listed in `components`; of two
    /// components of the same type the later one counts.
    pub fn create_entity(&mut self, components: Vec<(TypeTag, C)>) -> (entity: Entity)
        requires
            old(self).wf(),
        ensures
            final(self).wf(),
            entity == old(self)@.next_entity(),
            final(self)@ == old(self)@.spawn(bundle(components@)),
    {
        let map = TypeMap::from_pairs(components);
        self.push(map)
    }

    /// Destroys `entity` together with its components.
    pub fn destroy_entity(&mut self, entity: Entity) -> (result: Result<(), InvalidEntity>)
        requires
            old(self).wf(),
        ensures
            final(self).wf(),
            old(self)@.is_live(entity) ==> result == Ok::<(), InvalidEntity>(()) && final(self)@
                == old(self)@.despawn(entity),
            !old(self)@.is_live(entity) ==> result == Err::<(), InvalidEntity>(
                InvalidEntity { entity },
            ) && final(self)@ == old(self)@,
    {
        match self.locate(entity) {
            None => Err(InvalidEntity { entity }),
            Some(_) => {
                let _row = self.take_row(entity.index);
                if entity.generation < u64::MAX {
                    let ghost mid = *self;
                    self.free.push(entity.index);
                    proof {
                        assert forall|i: int| 0 <= i < self.slots@.len() implies self.slot_ok(
                            i,
                        ) by {
                            assert(mid.slot_ok(i));
                        }
                        assert forall|a: int, r: int|
                            0 <= a < self.archetypes@.len() && 0 <= r
                                < self.archetypes@[a].rows@.len() implies self.row_ok(a, r) by {
                            assert(mid.row_ok(a, r));
                        }
                        assert forall|i: int| 0 <= i < self.slots@.len() implies self.slot_state(
                            i,
                        ) == mid.slot_state(i) by {}
                    }
                }
                assert(self@.slots =~= old(self)@.despawn(entity).slots);
                Ok(())
            },
        }
    }

    /// Gives `entity` the component `value` of type `tag`, in place of the one
    /// of that type that it had, if any.
    pub fn add_component(&mut self, entity: Entity, tag: TypeTag, value: C) -> (result: Result<
        (),
        InvalidEntity,
    >)
        requires
            old(self).wf(),
        ensures
            final(self).wf(),
            old(self)@.is_live(entity) ==> result == Ok::<(), InvalidEntity>(()) && final(self)@
                == old(self)@.attach(entity, tag, value),
            !old(self)@.is_live(entity) ==> result == Err::<(), InvalidEntity>(
                InvalidEntity { entity },
            ) && final(self)@ == old(self)@,
    {
        match self.locate(entity) {
            None => Err(InvalidEntity { entity }),
            Some(l) => {
                assert(self.slot_ok(entity.index as int));
                assert(self.row_ok(l.archetype as int, l.row as int));
                if self.archetypes[l.archetype].rows[l.row].components.contains(tag) {
                    // The entity stays in its archetype: the value is
                    // replaced where it stands.
                    let _ = self.archetypes[l.archetype].rows[l.row].components.insert(
                        tag,
                        value,
                    );
                    proof {
                        let a0 = l.archetype as int;
                        let r0 = l.row as int;
                        assert(self.archetypes@.len() == old(self).archetypes@.len());
                        assert(self.archetypes@[a0].types@ == old(self).archetypes@[a0].types@);
                        assert(self.archetypes@[a0].rows@.len() == old(
                            self,
                        ).archetypes@[a0].rows@.len());
                        assert(self.archetypes@[a0].rows@[r0].entity == old(
                            self,
                        ).archetypes@[a0].rows@[r0].entity);
                        assert forall|a: int| 0 <= a < self.archetypes@.len() && a != a0 implies
                            self.archetypes@[a] == old(self).archetypes@[a] by {}
                        assert forall|r: int|
                            0 <= r < self.archetypes@[a0].rows@.len() && r != r0 implies
                            self.archetypes@[a0].rows@[r] == old(self).archetypes@[a0].rows@[r] by {}
                        assert forall|a: int, r: int|
                            0 <= a < self.archetypes@.len() && 0 <= r
                                < self.archetypes@[a].rows@.len() implies self.row_ok(a, r) by {
                            assert(old(self).row_ok(a, r));
                        }
                        assert forall|i: int| 0 <= i < self.slots@.len() implies self.slot_ok(i)
                            && self.slot_state(i) == (if i == entity.index {
                            SlotState {
                                generation: entity.generation,
                                components: Some(
                                    old(self)@.components(entity).insert(tag, value),
                                ),
                            }
                        } else {
                            old(self).slot_state(i)
                        }) by {
                            assert(old(self).slot_ok(i));
                            if i != entity.index && old(self).slots@[i].location is Some {
                                let li = old(self).slots@[i].location->0;
                                assert(old(self).row_ok(li.archetype as int, li.row as int));
                            }
                        }
                        assert(self@.slots =~= old(self)@.attach(entity, tag, value).slots);
                    }
                } else {
                    let mut row = self.take_row(entity.index);
                    row.components.insert(tag, value);
                    self.place_row(entity.index, row);
                    assert(self@.slots =~= old(self)@.attach(entity, tag, value).slots);
                }
                Ok(())
            },
        }
    }

    /// Takes the component of type `tag` away from `entity` and returns it;
    /// `None` where the entity has no component of that type.
    pub fn remove_component(&mut self, entity: Entity, tag: TypeTag) -> (result: Result<
        Option<C>,
        InvalidEntity,
    >)
        requires
            old(self).wf(),
        ensures
            final(self).wf(),
            old(self)@.is_live(entity) ==> result == Ok::<Option<C>, InvalidEntity>(
                if old(self)@.components(entity).contains_key(tag) {
                    Some(old(self)@.components(entity)[tag])
                } else {
                    None
                },
            ) && final(self)@ == old(self)@.detach(entity, tag),
            !old(self)@.is_live(entity) ==> result == Err::<Option<C>, InvalidEntity>(
                InvalidEntity { entity },
            ) && final(self)@ == old(self)@,
    {
        match self.locate(entity) {
            None => Err(InvalidEntity { entity }),
            Some(_) => {
                let mut row = self.take_row(entity.index);
                let removed = row.components.remove(tag);
                self.place_row(entity.index, row);
                assert(self@.slots =~= old(self)@.detach(entity, tag).slots);
                Ok(removed)
            },
        }
    }

    /// The component of type `tag` of `entity`; `None` where the entity has no
    /// component of that type.
    pub fn get(&self, entity: Entity, tag: TypeTag) -> (result: Result<Option<&C>, InvalidEntity>)
        requires
            self.wf(),
        ensures
            self@.is_live(entity) ==> match result {
                Ok(Some(value)) => self@.components(entity).contains_key(tag) && *value
                    == self@.components(entity)[tag],
                Ok(None) => !self@.components(entity).contains_key(tag),
                Err(_) => false,
            },
            !self@.is_live(entity) ==> result == Err::<Option<&C>, InvalidEntity>(
                InvalidEntity { entity },
            ),
    {
        match self.locate(entity) {
            None => Err(InvalidEntity { entity }),
            Some(l) => {
                assert(self.slot_ok(entity.index as int));
                assert(self.row_ok(l.archetype as int, l.row as int));
                Ok(self.archetypes[l.archetype].rows[l.row].components.get(tag))
            },
        }
    }

    /// The archetype that the living `entity` belongs to, by its place among
    /// the archetypes.
    pub closed spec fn archetype(&self, entity: Entity) -> int {
        self.slots@[entity.index as int].location->0.archetype as int
    }

    /// An entity belongs to one archetype, and entities belong to the same
    /// archetype exactly when they have the same types of components.
    pub proof fn lemma_archetype_by_types(&self, a: Entity, b: Entity)
        requires
            self.wf(),
            self@.is_live(a),
            self@.is_live(b),
        ensures
            (self.archetype(a) == self.archetype(b)) == (self@.components(a).dom()
                == self@.components(b).dom()),
    {
        assert(self.slot_ok(a.index as int));
        assert(self.slot_ok(b.index as int));
        let la = self.slots@[a.index as int].location->0;
        let lb = self.slots@[b.index as int].location->0;
        assert(self.row_ok(la.archetype as int, la.row as int));
        assert(self.row_ok(lb.archetype as int, lb.row as int));
        let ra = self.archetypes@[la.archetype as int].rows@[la.row as int];
        let rb = self.archetypes@[lb.archetype as int].rows@[lb.row as int];
        ra.components.lemma_wf();
        rb.components.lemma_wf();
        assert(self@.components(a) == ra.components@);
        assert(self@.components(b) == rb.components@);
        if self@.components(a).dom() == self@.components(b).dom() {
            assert forall|t: TypeTag|
                ra.components.tags().contains(t) <==> rb.components.tags().contains(t) by {
                assert(ra.components@.dom().contains(t) == rb.components@.dom().contains(t));
            }
            lemma_ascending_unique(ra.components.tags(), rb.components.tags());
            if la.archetype < lb.archetype {
                assert(self.archetypes@[la.archetype as int].types@
                    != self.archetypes@[lb.archetype as int].types@);
            } else if lb.archetype < la.archetype {
                assert(self.archetypes@[lb.archetype as int].types@
                    != self.archetypes@[la.archetype as int].types@);
            }
        }
        if self.archetype(a) == self.archetype(b) {
            assert(ra.components.tags() == rb.components.tags());
            assert(ra.components@.dom() =~= rb.components@.dom());
        }
    }

    /// The archetype that `entity` belongs to, by its place among the
    /// archetypes.
    pub fn archetype_of(&self, entity: Entity) -> (result: Result<usize, InvalidEntity>)
        requires
            self.wf(),
        ensures
            self@.is_live(entity) ==> result == Ok::<usize, InvalidEntity>(
                self.archetype(entity) as usize,
            ) && self.archetype(entity) == self.archetype(entity) as usize,
            !self@.is_live(entity) ==> result == Err::<usize, InvalidEntity>(
                InvalidEntity { entity },
            ),
    {
        match self.locate(entity) {
            Some(l) => Ok(l.archetype),
            None => Err(InvalidEntity { entity }),
        }
    }

    /// The component of type `tag` of the living `entity`, which has one.
    pub(crate) fn component(&self, entity: Entity, tag: TypeTag) -> (value: &C)
        requires
            self.wf(),
            self@.is_live(entity),
            self@.components(entity).contains_key(tag),
        ensures
            *value == self@.components(entity)[tag],
    {
        let l = self.locate(entity).unwrap();
        assert(self.slot_ok(entity.index as int));
        assert(self.row_ok(l.archetype as int, l.row as int));
        self.archetypes[l.archetype].rows[l.row].components.get(tag).unwrap()
    }

    /// The entities that have a component of every type in `types`, in the
    /// order of their slots.
    pub fn query(&self, types: &Vec<TypeTag>) -> (entities: Vec<Entity>)
        requires
            self.wf(),
        ensures
            entities@ == self@.matching(types@.to_set()),
    {
        let mut fits: Vec<bool> = Vec::new();
        let mut a: usize = 0;
        while a < self.archetypes.len()
            invariant
                a <= self.archetypes@.len(),
                fits@.len() == a,
                forall|b: int|
                    0 <= b < a ==> fits@[b] == types@.to_set().subset_of(
                        self.archetypes@[b].types@.to_set(),
                    ),
            decreases self.archetypes@.len() - a,
        {
            fits.push(covers(&self.archetypes[a].types, types));
            a += 1;
        }
        let mut entities: Vec<Entity> = Vec::new();
        let mut i: usize = 0;
        while i < self.slots.len()
            invariant
                self.wf(),
                i <= self.slots@.len(),
                fits@.len() == self.archetypes@.len(),
                forall|b: int|
                    0 <= b < fits@.len() ==> fits@[b] == types@.to_set().subset_of(
                        self.archetypes@[b].types@.to_set(),
                    ),
                entities@ == self@.matching_below(types@.to_set(), i as int),
            decreases self.slots@.len() - i,
        {
            proof {
                assert(self.slot_ok(i as int));
                if self.slots@[i as int].location is Some {
                    let l = self.slots@[i as int].location->0;
                    assert(self.row_ok(l.archetype as int, l.row as int));
                    let row = self.archetypes@[l.archetype as int].rows@[l.row as int];
                    row.components.lemma_wf();
                    assert(row.components@.dom() =~= self.archetypes@[l.archetype as int].types@.to_set());
                }
            }
            match self.slots[i].location {
                Some(l) => {
                    if fits[l.archetype] {
                        entities.push(Entity { index: i, generation: self.slots[i].generation });
                    }
                },
                None => {},
            }
            i += 1;
        }
        entities
    }
}

} // verus!
