//! Shared state outside the entities: at most one value per resource type.

use vstd::prelude::*;
use crate::ecs::typemap::{insert_all, TypeMap, TypeTag};

verus! {

/// The resources, one value for each type that has one.
pub struct Resources<R> {
    entries: TypeMap<R>,
}

impl<R> Resources<R> {
    pub closed spec fn wf(&self) -> bool {
        self.entries.wf()
    }

    pub closed spec fn view(&self) -> Map<TypeTag, R> {
        self.entries@
    }

    pub fn new() -> (resources: Self)
        ensures
            resources.wf(),
            resources@ == Map::<TypeTag, R>::empty(),
    {
        Resources { entries: TypeMap::new() }
    }

    /// Makes `value` the resource of type `tag`. A resource of that type that
    /// was there before is replaced and returned.
    pub fn insert(&mut self, tag: TypeTag, value: R) -> (previous: Option<R>)
        requires
            old(self).wf(),
        ensures
            final(self).wf(),
            final(self)@ == old(self)@.insert(tag, value),
            old(self)@.contains_key(tag) ==> previous == Some(old(self)@[tag]),
            !old(self)@.contains_key(tag) ==> previous.is_none(),
    {
        self.entries.insert(tag, value)
    }

    /// Stores each of `pairs` in order; a later value takes the place of an
    /// earlier one of the same type.
    pub fn insert_all(&mut self, pairs: Vec<(TypeTag, R)>)
        requires
            old(self).wf(),
        ensures
            final(self).wf(),
            final(self)@ == insert_all(old(self)@, pairs@),
    {
        let ghost all = pairs@;
        let ghost mut done: int = 0;
        for pair in it: pairs
            invariant
                self.wf(),
                it.seq() == all,
                done == it.index(),
                self@ == insert_all(old(self)@, all.take(done)),
        {
            proof {
                assert(all.take(done + 1).drop_last() =~= all.take(done));
                done = done + 1;
            }
            let _ = self.entries.insert(pair.0, pair.1);
        }
        assert(all.take(done) =~= all);
    }

    /// Takes the resource of type `tag` out.
    pub fn remove(&mut self, tag: TypeTag) -> (removed: Option<R>)
        requires
            old(self).wf(),
        ensures
            final(self).wf(),
            final(self)@ == old(self)@.remove(tag),
            old(self)@.contains_key(tag) ==> removed == Some(old(self)@[tag]),
            !old(self)@.contains_key(tag) ==> removed.is_none(),
    {
        self.entries.remove(tag)
    }

    pub fn contains(&self, tag: TypeTag) -> (found: bool)
        requires
            self.wf(),
        ensures
            found == self@.contains_key(tag),
    {
        self.entries.contains(tag)
    }

    pub fn get(&self, tag: TypeTag) -> (value: Option<&R>)
        requires
            self.wf(),
        ensures
            match value {
                Some(v) => self@.contains_key(tag) && *v == self@[tag],
                None => !self@.contains_key(tag),
            },
    {
        self.entries.get(tag)
    }

    /// The number of resource types that have a value.
    pub fn len(&self) -> (n: usize)
        requires
            self.wf(),
        ensures
            n == self@.dom().len(),
            self@.dom().finite(),
    {
        proof {
            self.entries.lemma_wf();
            self.entries.tags().unique_seq_to_set();
            assert(self@.dom() =~= self.entries.tags().to_set());
        }
        self.entries.len()
    }
}

} // verus!
