//! A map from type tags to values, one value per tag, kept in ascending
//! order of the tags.

use vstd::prelude::*;

verus! {

/// Identifies a component type or a resource type. A tag is unique within the
/// process: two types never share one.
pub type TypeTag = u64;

/// `tags` is strictly ascending, so no tag occurs twice.
pub open spec fn ascending(tags: Seq<TypeTag>) -> bool {
    forall|i: int, j: int| 0 <= i < j < tags.len() ==> tags[i] < tags[j]
}

/// The place of `tag` in `tags`.
pub open spec fn slot_of(tags: Seq<TypeTag>, tag: TypeTag) -> int {
    choose|i: int| 0 <= i < tags.len() && tags[i] == tag
}

/// The map that sends each of `tags` to the value at the same place.
pub open spec fn zip_map<V>(tags: Seq<TypeTag>, values: Seq<V>) -> Map<TypeTag, V> {
    Map::new(|t: TypeTag| tags.contains(t), |t: TypeTag| values[slot_of(tags, t)])
}

pub proof fn lemma_slot_unique(tags: Seq<TypeTag>, i: int)
    requires
        ascending(tags),
        0 <= i < tags.len(),
    ensures
        slot_of(tags, tags[i]) == i,
{
    let j = slot_of(tags, tags[i]);
    assert(0 <= j < tags.len() && tags[j] == tags[i]);
    if j < i {
        assert(tags[j] < tags[i]);
    } else if i < j {
        assert(tags[i] < tags[j]);
    }
}

/// Ascending lists with the same tags are the same list.
pub proof fn lemma_ascending_unique(a: Seq<TypeTag>, b: Seq<TypeTag>)
    requires
        ascending(a),
        ascending(b),
        forall|t: TypeTag| a.contains(t) <==> b.contains(t),
    ensures
        a == b,
    decreases a.len(),
{
    if a.len() == 0 {
        if b.len() > 0 {
            assert(b.contains(b[0]));
        }
        assert(a =~= b);
    } else {
        assert(a.contains(a[0]));
        let j = choose|j: int| 0 <= j < b.len() && b[j] == a[0];
        assert(b.contains(b[0]));
        let i = choose|i: int| 0 <= i < a.len() && a[i] == b[0];
        if i > 0 {
            assert(a[0] < a[i]);
        }
        if j > 0 {
            assert(b[0] < b[j]);
        }
        assert(a[0] == b[0]);
        let a1 = a.skip(1);
        let b1 = b.skip(1);
        assert forall|x: int, y: int| 0 <= x < y < a1.len() implies a1[x] < a1[y] by {
            assert(a[x + 1] < a[y + 1]);
        }
        assert forall|x: int, y: int| 0 <= x < y < b1.len() implies b1[x] < b1[y] by {
            assert(b[x + 1] < b[y + 1]);
        }
        assert forall|t: TypeTag| a1.contains(t) <==> b1.contains(t) by {
            if a1.contains(t) {
                let k = choose|k: int| 0 <= k < a1.len() && a1[k] == t;
                assert(a[k + 1] == t);
                assert(a[0] < a[k + 1]);
                assert(a.contains(t));
                let l = choose|l: int| 0 <= l < b.len() && b[l] == t;
                assert(l > 0);
                assert(b1[l - 1] == t);
            }
            if b1.contains(t) {
                let k = choose|k: int| 0 <= k < b1.len() && b1[k] == t;
                assert(b[k + 1] == t);
                assert(b[0] < b[k + 1]);
                assert(b.contains(t));
                let l = choose|l: int| 0 <= l < a.len() && a[l] == t;
                assert(l > 0);
                assert(a1[l - 1] == t);
            }
        }
        lemma_ascending_unique(a1, b1);
        assert forall|k: int| 0 <= k < a.len() implies a[k] == b[k] by {
            if k > 0 {
                assert(a[k] == a1[k - 1]);
                assert(b[k] == b1[k - 1]);
            }
        }
        assert(a.len() == b.len()) by {
            assert(a1.len() == b1.len());
        }
        assert(a =~= b);
    }
}

pub proof fn lemma_zip_map_update<V>(tags: Seq<TypeTag>, values: Seq<V>, i: int, value: V)
    requires
        ascending(tags),
        tags.len() == values.len(),
        0 <= i < tags.len(),
    ensures
        zip_map(tags, values.update(i, value)) == zip_map(tags, values).insert(tags[i], value),
{
    let a = zip_map(tags, values.update(i, value));
    let b = zip_map(tags, values).insert(tags[i], value);
    assert forall|t: TypeTag| a.contains_key(t) == b.contains_key(t) by {
        if t == tags[i] {
            assert(tags.contains(t));
        }
    }
    assert forall|t: TypeTag| a.contains_key(t) implies a[t] == b[t] by {
        let j = slot_of(tags, t);
        assert(0 <= j < tags.len() && tags[j] == t);
        lemma_slot_unique(tags, i);
    }
    assert(a =~= b);
}

pub proof fn lemma_zip_map_insert<V>(
    tags: Seq<TypeTag>,
    values: Seq<V>,
    i: int,
    tag: TypeTag,
    value: V,
)
    requires
        ascending(tags),
        tags.len() == values.len(),
        0 <= i <= tags.len(),
        forall|j: int| 0 <= j < i ==> tags[j] < tag,
        forall|j: int| i <= j < tags.len() ==> tag < tags[j],
    ensures
        ascending(tags.insert(i, tag)),
        zip_map(tags.insert(i, tag), values.insert(i, value)) == zip_map(tags, values).insert(
            tag,
            value,
        ),
{
    let tags2 = tags.insert(i, tag);
    let values2 = values.insert(i, value);
    assert forall|x: int, y: int| 0 <= x < y < tags2.len() implies tags2[x] < tags2[y] by {
        if x < i && y > i {
            assert(tags2[x] == tags[x] && tags2[y] == tags[y - 1]);
        }
    }
    let a = zip_map(tags2, values2);
    let b = zip_map(tags, values).insert(tag, value);
    assert forall|t: TypeTag| a.contains_key(t) == b.contains_key(t) by {
        if tags2.contains(t) {
            let j = choose|j: int| 0 <= j < tags2.len() && tags2[j] == t;
            if j < i {
                assert(tags[j] == t);
            } else if j > i {
                assert(tags[j - 1] == t);
            }
        }
        if t == tag {
            assert(tags2[i] == t);
        } else if tags.contains(t) {
            let j = choose|j: int| 0 <= j < tags.len() && tags[j] == t;
            if j < i {
                assert(tags2[j] == t);
            } else {
                assert(tags2[j + 1] == t);
            }
        }
    }
    assert forall|t: TypeTag| a.contains_key(t) implies a[t] == b[t] by {
        let j = slot_of(tags2, t);
        assert(0 <= j < tags2.len() && tags2[j] == t);
        if j == i {
        } else if j < i {
            assert(tags[j] == t);
            lemma_slot_unique(tags, j);
        } else {
            assert(tags[j - 1] == t);
            lemma_slot_unique(tags, j - 1);
        }
    }
    assert(a =~= b);
}

pub proof fn lemma_zip_map_remove<V>(tags: Seq<TypeTag>, values: Seq<V>, i: int)
    requires
        ascending(tags),
        tags.len() == values.len(),
        0 <= i < tags.len(),
    ensures
        ascending(tags.remove(i)),
        zip_map(tags.remove(i), values.remove(i)) == zip_map(tags, values).remove(tags[i]),
{
    let tags2 = tags.remove(i);
    let values2 = values.remove(i);
    assert forall|x: int, y: int| 0 <= x < y < tags2.len() implies tags2[x] < tags2[y] by {
        let x0 = if x < i { x } else { x + 1 };
        let y0 = if y < i { y } else { y + 1 };
        assert(tags2[x] == tags[x0] && tags2[y] == tags[y0]);
    }
    let a = zip_map(tags2, values2);
    let b = zip_map(tags, values).remove(tags[i]);
    assert forall|t: TypeTag| a.contains_key(t) == b.contains_key(t) by {
        if tags2.contains(t) {
            let j = choose|j: int| 0 <= j < tags2.len() && tags2[j] == t;
            let j0 = if j < i { j } else { j + 1 };
            assert(tags[j0] == t);
            if t == tags[i] {
                lemma_slot_unique(tags, j0);
                lemma_slot_unique(tags, i);
            }
        }
        if t != tags[i] && tags.contains(t) {
            let j = choose|j: int| 0 <= j < tags.len() && tags[j] == t;
            if j < i {
                assert(tags2[j] == t);
            } else {
                assert(tags2[j - 1] == t);
            }
        }
    }
    assert forall|t: TypeTag| a.contains_key(t) implies a[t] == b[t] by {
        let j = slot_of(tags2, t);
        assert(0 <= j < tags2.len() && tags2[j] == t);
        let j0 = if j < i { j } else { j + 1 };
        assert(tags[j0] == t);
        lemma_slot_unique(tags, j0);
    }
    assert(a =~= b);
}

/// The map that a list of tagged values stands for: of two values with the
/// same tag the later one counts.
pub open spec fn bundle<V>(pairs: Seq<(TypeTag, V)>) -> Map<TypeTag, V>
    decreases pairs.len(),
{
    if pairs.len() == 0 {
        Map::empty()
    } else {
        bundle(pairs.drop_last()).insert(pairs.last().0, pairs.last().1)
    }
}

/// `map` after each of `pairs` was stored in it, in order: a later value
/// takes the place of an earlier one with the same tag.
pub open spec fn insert_all<V>(map: Map<TypeTag, V>, pairs: Seq<(TypeTag, V)>) -> Map<TypeTag, V>
    decreases pairs.len(),
{
    if pairs.len() == 0 {
        map
    } else {
        insert_all(map, pairs.drop_last()).insert(pairs.last().0, pairs.last().1)
    }
}

/// A value for each of a set of tags.
pub struct TypeMap<V> {
    tags: Vec<TypeTag>,
    values: Vec<V>,
}

impl<V> TypeMap<V> {
    /// The tags are strictly ascending and each has its value.
    pub closed spec fn wf(&self) -> bool {
        &&& ascending(self.tags@)
        &&& self.tags@.len() == self.values@.len()
    }

    /// The tags that have a value, in ascending order.
    pub closed spec fn tags(&self) -> Seq<TypeTag> {
        self.tags@
    }

    /// The values, in the order of their tags.
    pub closed spec fn values(&self) -> Seq<V> {
        self.values@
    }

    pub open spec fn view(&self) -> Map<TypeTag, V> {
        zip_map(self.tags(), self.values())
    }

    /// The tags of a well-formed map are strictly ascending, and each has
    /// its value at the same place.
    pub proof fn lemma_wf(&self)
        requires
            self.wf(),
        ensures
            ascending(self.tags()),
            self.tags().len() == self.values().len(),
            forall|t: TypeTag| self@.contains_key(t) <==> self.tags().contains(t),
            forall|i: int|
                0 <= i < self.tags().len() ==> #[trigger] self@[self.tags()[i]]
                    == self.values()[i],
    {
        assert forall|i: int| 0 <= i < self.tags().len() implies #[trigger] self@[self.tags()[i]]
            == self.values()[i] by {
            lemma_slot_unique(self.tags(), i);
        }
    }

    pub fn new() -> (map: Self)
        ensures
            map.wf(),
            map@ == Map::<TypeTag, V>::empty(),
            map.tags() == Seq::<TypeTag>::empty(),
    {
        let map = Self { tags: Vec::new(), values: Vec::new() };
        assert(map@ =~= Map::<TypeTag, V>::empty());
        map
    }

    /// The map that `pairs` stands for.
    pub fn from_pairs(pairs: Vec<(TypeTag, V)>) -> (map: Self)
        ensures
            map.wf(),
            map@ == bundle(pairs@),
    {
        let mut map = Self::new();
        let ghost all = pairs@;
        let ghost mut done: int = 0;
        for pair in it: pairs
            invariant
                map.wf(),
                it.seq() == all,
                done == it.index(),
                map@ == bundle(all.take(done)),
        {
            proof {
                assert(all.take(done + 1).drop_last() =~= all.take(done));
                done = done + 1;
            }
            map.insert(pair.0, pair.1);
        }
        assert(all.take(done) =~= all);
        map
    }

    pub fn len(&self) -> (n: usize)
        requires
            self.wf(),
        ensures
            n == self.tags().len(),
    {
        self.tags.len()
    }

    /// The tags in ascending order.
    pub fn tag_list(&self) -> (tags: &Vec<TypeTag>)
        ensures
            tags@ == self.tags(),
    {
        &self.tags
    }

    /// Where `tag` stands (`Ok`), or where it would have to be put (`Err`).
    pub fn find(&self, tag: TypeTag) -> (place: Result<usize, usize>)
        requires
            self.wf(),
        ensures
            match place {
                Ok(i) => i < self.tags().len() && self.tags()[i as int] == tag,
                Err(i) => {
                    &&& i <= self.tags().len()
                    &&& !self.tags().contains(tag)
                    &&& forall|j: int| 0 <= j < i ==> self.tags()[j] < tag
                    &&& forall|j: int| i <= j < self.tags().len() ==> tag < self.tags()[j]
                },
            },
    {
        let mut i: usize = 0;
        while i < self.tags.len() && self.tags[i] < tag
            invariant
                i <= self.tags@.len(),
                forall|j: int| 0 <= j < i ==> self.tags@[j] < tag,
            decreases self.tags@.len() - i,
        {
            i += 1;
        }
        if i < self.tags.len() && self.tags[i] == tag {
            Ok(i)
        } else {
            assert forall|j: int| i <= j < self.tags@.len() implies tag < self.tags@[j] by {
                if j > i {
                    assert(self.tags@[i as int] < self.tags@[j]);
                }
            }
            Err(i)
        }
    }

    pub fn contains(&self, tag: TypeTag) -> (found: bool)
        requires
            self.wf(),
        ensures
            found == self@.contains_key(tag),
    {
        self.find(tag).is_ok()
    }

    pub fn get(&self, tag: TypeTag) -> (value: Option<&V>)
        requires
            self.wf(),
        ensures
            match value {
                Some(v) => self@.contains_key(tag) && *v == self@[tag],
                None => !self@.contains_key(tag),
            },
    {
        match self.find(tag) {
            Ok(i) => {
                proof {
                    lemma_slot_unique(self.tags@, i as int);
                }
                Some(&self.values[i])
            },
            Err(_) => None,
        }
    }

    /// Gives `tag` the value `value` and returns the value it had before.
    pub fn insert(&mut self, tag: TypeTag, value: V) -> (previous: Option<V>)
        requires
            old(self).wf(),
        ensures
            final(self).wf(),
            final(self)@ == old(self)@.insert(tag, value),
            old(self)@.contains_key(tag) ==> previous == Some(old(self)@[tag]),
            old(self)@.contains_key(tag) ==> final(self).tags() == old(self).tags(),
            !old(self)@.contains_key(tag) ==> previous.is_none(),
    {
        match self.find(tag) {
            Ok(i) => {
                proof {
                    lemma_slot_unique(self.tags@, i as int);
                    lemma_zip_map_update(self.tags@, self.values@, i as int, value);
                }
                self.values.push(value);
                let previous = self.values.swap_remove(i);
                assert(self.values@ =~= old(self).values@.update(i as int, value));
                Some(previous)
            },
            Err(i) => {
                proof {
                    lemma_zip_map_insert(self.tags@, self.values@, i as int, tag, value);
                }
                self.tags.insert(i, tag);
                self.values.insert(i, value);
                None
            },
        }
    }

    /// Takes the value of `tag` out of the map.
    pub fn remove(&mut self, tag: TypeTag) -> (removed: Option<V>)
        requires
            old(self).wf(),
        ensures
            final(self).wf(),
            final(self)@ == old(self)@.remove(tag),
            old(self)@.contains_key(tag) ==> removed == Some(old(self)@[tag]),
            !old(self)@.contains_key(tag) ==> removed.is_none() && final(self).tags() == old(self).tags(),
    {
        match self.find(tag) {
            Ok(i) => {
                proof {
                    lemma_slot_unique(self.tags@, i as int);
                    lemma_zip_map_remove(self.tags@, self.values@, i as int);
                }
                self.tags.remove(i);
                let removed = self.values.remove(i);
                Some(removed)
            },
            Err(_) => {
                assert(self@ =~= old(self)@.remove(tag));
                None
            },
        }
    }
}

} // verus!
