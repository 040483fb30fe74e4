//! What a system declares that it reads and writes, and the rule that says
//! which systems may run side by side.

use vstd::prelude::*;
use crate::ecs::typemap::TypeTag;

verus! {

/// Some tag stands in both lists.
pub open spec fn overlap(a: Seq<TypeTag>, b: Seq<TypeTag>) -> bool {
    exists|t: TypeTag| a.contains(t) && b.contains(t)
}

/// Whether some tag stands in both lists.
pub fn overlaps(a: &Vec<TypeTag>, b: &Vec<TypeTag>) -> (found: bool)
    ensures
        found == overlap(a@, b@),
{
    let mut i: usize = 0;
    while i < a.len()
        invariant
            i <= a@.len(),
            forall|x: int, y: int| 0 <= x < i && 0 <= y < b@.len() ==> a@[x] != b@[y],
        decreases a@.len() - i,
    {
        let mut k: usize = 0;
        while k < b.len()
            invariant
                i < a@.len(),
                k <= b@.len(),
                forall|y: int| 0 <= y < k ==> a@[i as int] != b@[y],
            decreases b@.len() - k,
        {
            if a[i] == b[k] {
                assert(a@.contains(a@[i as int]) && b@.contains(b@[k as int]));
                return true;
            }
            k += 1;
        }
        i += 1;
    }
    assert(!overlap(a@, b@)) by {
        if overlap(a@, b@) {
            let t = choose|t: TypeTag| a@.contains(t) && b@.contains(t);
            let x = choose|x: int| 0 <= x < a@.len() && a@[x] == t;
            let y = choose|y: int| 0 <= y < b@.len() && b@[y] == t;
            assert(a@[x] != b@[y]);
        }
    }
    false
}

/// Whether no tag stands twice in `tags`.
pub fn distinct(tags: &Vec<TypeTag>) -> (unique: bool)
    ensures
        unique == tags@.no_duplicates(),
{
    let mut i: usize = 0;
    while i < tags.len()
        invariant
            i <= tags@.len(),
            forall|x: int, y: int| 0 <= x < i && x < y < tags@.len() ==> tags@[x] != tags@[y],
        decreases tags@.len() - i,
    {
        let mut k: usize = i + 1;
        while k < tags.len()
            invariant
                i < tags@.len(),
                i < k <= tags@.len(),
                forall|y: int| i < y < k ==> tags@[i as int] != tags@[y],
            decreases tags@.len() - k,
        {
            if tags[i] == tags[k] {
                return false;
            }
            k += 1;
        }
        i += 1;
    }
    assert forall|x: int, y: int|
        0 <= x < tags@.len() && 0 <= y < tags@.len() && x != y implies tags@[x] != tags@[y] by {
        if x < y {
        } else {
            assert(tags@[y] != tags@[x]);
        }
    }
    true
}

/// The lists name each type once, and no type is both read and written.
pub open spec fn well_declared(
    reads: Seq<TypeTag>,
    writes: Seq<TypeTag>,
    resource_reads: Seq<TypeTag>,
    resource_writes: Seq<TypeTag>,
) -> bool {
    &&& reads.no_duplicates()
    &&& writes.no_duplicates()
    &&& resource_reads.no_duplicates()
    &&& resource_writes.no_duplicates()
    &&& !overlap(reads, writes)
    &&& !overlap(resource_reads, resource_writes)
}

/// The access that a system declares: the component types it reads and
/// writes, and the resource types it reads and writes. Every value of this
/// type is well declared: `new` makes no other.
pub struct Access {
    reads: Vec<TypeTag>,
    writes: Vec<TypeTag>,
    resource_reads: Vec<TypeTag>,
    resource_writes: Vec<TypeTag>,
}

/// An `Access` as a value.
pub struct AccessView {
    pub reads: Seq<TypeTag>,
    pub writes: Seq<TypeTag>,
    pub resource_reads: Seq<TypeTag>,
    pub resource_writes: Seq<TypeTag>,
}

impl AccessView {
    pub open spec fn wf(self) -> bool {
        well_declared(self.reads, self.writes, self.resource_reads, self.resource_writes)
    }

    /// The component types that an entity must have to be visited: those
    /// read, then those written.
    pub open spec fn components(self) -> Seq<TypeTag> {
        self.reads + self.writes
    }

    /// The resource types that must be present: those read, then those
    /// written.
    pub open spec fn resources(self) -> Seq<TypeTag> {
        self.resource_reads + self.resource_writes
    }

    /// One of the two writes a component type or a resource type that the
    /// other reads or writes.
    pub open spec fn conflicts(self, other: AccessView) -> bool {
        ||| overlap(self.writes, other.components())
        ||| overlap(other.writes, self.components())
        ||| overlap(self.resource_writes, other.resources())
        ||| overlap(other.resource_writes, self.resources())
    }
}

impl Access {
    #[verifier::type_invariant]
    spec fn inv(&self) -> bool {
        well_declared(self.reads@, self.writes@, self.resource_reads@, self.resource_writes@)
    }

    pub closed spec fn view(&self) -> AccessView {
        AccessView {
            reads: self.reads@,
            writes: self.writes@,
            resource_reads: self.resource_reads@,
            resource_writes: self.resource_writes@,
        }
    }

    /// The declaration with the given lists; `None` where a list names a type
    /// twice or a type is both read and written.
    pub fn new(
        reads: Vec<TypeTag>,
        writes: Vec<TypeTag>,
        resource_reads: Vec<TypeTag>,
        resource_writes: Vec<TypeTag>,
    ) -> (access: Option<Access>)
        ensures
            access.is_some() == well_declared(
                reads@,
                writes@,
                resource_reads@,
                resource_writes@,
            ),
            access matches Some(a) ==> a@ == (AccessView {
                reads: reads@,
                writes: writes@,
                resource_reads: resource_reads@,
                resource_writes: resource_writes@,
            }),
    {
        if distinct(&reads) && distinct(&writes) && distinct(&resource_reads) && distinct(
            &resource_writes,
        ) && !overlaps(&reads, &writes) && !overlaps(&resource_reads, &resource_writes) {
            Some(Access { reads, writes, resource_reads, resource_writes })
        } else {
            None
        }
    }

    pub fn reads(&self) -> (tags: &Vec<TypeTag>)
        ensures
            tags@ == self@.reads,
    {
        &self.reads
    }

    pub fn writes(&self) -> (tags: &Vec<TypeTag>)
        ensures
            tags@ == self@.writes,
    {
        &self.writes
    }

    pub fn resource_reads(&self) -> (tags: &Vec<TypeTag>)
        ensures
            tags@ == self@.resource_reads,
    {
        &self.resource_reads
    }

    pub fn resource_writes(&self) -> (tags: &Vec<TypeTag>)
        ensures
            tags@ == self@.resource_writes,
    {
        &self.resource_writes
    }

    /// Whether the two declarations conflict, so that their systems must run
    /// one after the other.
    pub fn conflicts_with(&self, other: &Access) -> (conflict: bool)
        ensures
            conflict == self@.conflicts(other@),
    {
        proof {
            lemma_overlap_concat(self.writes@, other.reads@, other.writes@);
            lemma_overlap_concat(other.writes@, self.reads@, self.writes@);
            lemma_overlap_concat(
                self.resource_writes@,
                other.resource_reads@,
                other.resource_writes@,
            );
            lemma_overlap_concat(
                other.resource_writes@,
                self.resource_reads@,
                self.resource_writes@,
            );
        }
        overlaps(&self.writes, &other.reads) || overlaps(&self.writes, &other.writes) || overlaps(
            &other.writes,
            &self.reads,
        ) || overlaps(&self.resource_writes, &other.resource_reads) || overlaps(
            &self.resource_writes,
            &other.resource_writes,
        ) || overlaps(&other.resource_writes, &self.resource_reads)
    }
}

/// A list overlaps a concatenation where it overlaps one of the parts.
pub proof fn lemma_overlap_concat(a: Seq<TypeTag>, b: Seq<TypeTag>, c: Seq<TypeTag>)
    ensures
        overlap(a, b + c) == (overlap(a, b) || overlap(a, c)),
        overlap(a, b) == overlap(b, a),
{
    if overlap(a, b + c) {
        let t = choose|t: TypeTag| a.contains(t) && (b + c).contains(t);
        let i = choose|i: int| 0 <= i < (b + c).len() && (b + c)[i] == t;
        if i < b.len() {
            assert(b[i] == t);
        } else {
            assert(c[i - b.len()] == t);
        }
    }
    if overlap(a, b) {
        let t = choose|t: TypeTag| a.contains(t) && b.contains(t);
        let i = choose|i: int| 0 <= i < b.len() && b[i] == t;
        assert((b + c)[i] == t);
    }
    if overlap(a, c) {
        let t = choose|t: TypeTag| a.contains(t) && c.contains(t);
        let i = choose|i: int| 0 <= i < c.len() && c[i] == t;
        assert((b + c)[b.len() + i] == t);
    }
    if overlap(b, a) {
        let t = choose|t: TypeTag| b.contains(t) && a.contains(t);
        assert(a.contains(t) && b.contains(t));
    }
}

} // verus!
