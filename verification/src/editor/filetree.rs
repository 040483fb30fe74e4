//! The tree of files and directories that the editor shows.

use vstd::prelude::*;

verus! {

/// What a name in the tree stands for.
#[derive(Debug, Clone, Copy, PartialEq, Eq, Structural)]
pub enum Kind {
    File,
    Directory,
}

/// One name in a directory: a file, or a directory with its own entries.
pub struct FileEntry {
    pub name: String,
    pub child: Option<Box<FileTree>>,
}

/// The entries of a directory, each name once.
pub struct FileTree {
    pub entries: Vec<FileEntry>,
}

/// `shorter` is the beginning of `longer`.
pub open spec fn is_prefix(shorter: Seq<Seq<char>>, longer: Seq<Seq<char>>) -> bool {
    shorter.len() <= longer.len() && longer.take(shorter.len() as int) == shorter
}

/// Two paths that begin with the same name are equal where the rest of the
/// one is the rest of the other, and the one is the beginning of the other
/// where its rest is the beginning of the rest of the other.
pub proof fn lemma_same_head(a: Seq<Seq<char>>, b: Seq<Seq<char>>)
    requires
        a.len() > 0,
        b.len() > 0,
        a[0] == b[0],
    ensures
        (a == b) == (a.skip(1) == b.skip(1)),
        is_prefix(a, b) == is_prefix(a.skip(1), b.skip(1)),
{
    if a.skip(1) == b.skip(1) {
        assert(a.len() == b.len());
        assert forall|i: int| 0 <= i < a.len() implies a[i] == b[i] by {
            if i > 0 {
                assert(a[i] == a.skip(1)[i - 1]);
                assert(b[i] == b.skip(1)[i - 1]);
            }
        }
        assert(a =~= b);
    }
    if a.len() <= b.len() {
        let n = a.len() as int;
        let front = b.take(n);
        let tail_front = b.skip(1).take(n - 1);
        assert(front.skip(1) =~= tail_front);
        if tail_front == a.skip(1) {
            assert forall|i: int| 0 <= i < n implies front[i] == a[i] by {
                if i > 0 {
                    assert(front[i] == tail_front[i - 1]);
                    assert(a[i] == a.skip(1)[i - 1]);
                }
            }
            assert(front =~= a);
        }
    }
}

/// The names of a path, character by character.
pub open spec fn names(path: Seq<String>) -> Seq<Seq<char>> {
    Seq::new(path.len(), |i: int| path[i]@)
}

/// The names of each of a list of paths.
pub open spec fn all_names(paths: Seq<Vec<String>>) -> Seq<Seq<Seq<char>>> {
    Seq::new(paths.len(), |i: int| names(paths[i]@))
}

/// What stands at `at` in the tree into which the first `n` of `paths` were
/// inserted, one after the other.
pub open spec fn listed(paths: Seq<Seq<Seq<char>>>, n: int, at: Seq<Seq<char>>) -> Option<Kind>
    decreases n,
{
    if n <= 0 {
        None
    } else {
        let path = paths[n - 1];
        if path.len() == 0 {
            listed(paths, n - 1, at)
        } else if 0 < at.len() < path.len() && is_prefix(at, path) {
            Some(Kind::Directory)
        } else if at == path {
            if listed(paths, n - 1, path) is Some {
                Some(Kind::Directory)
            } else {
                Some(Kind::File)
            }
        } else {
            listed(paths, n - 1, at)
        }
    }
}

/// Whether the editor walks into the entries of a directory entry: it does
/// for every directory but the one that holds the history of the project.
pub fn is_walked(name: &str, is_dir: bool) -> (walked: bool)
    ensures
        walked == (is_dir && name@ != ".git"@),
{
    is_dir && !(name.to_owned() == ".git".to_owned())
}

impl FileTree {
    /// No name stands twice in a directory, at any depth.
    pub open spec fn wf(&self) -> bool
        decreases self,
    {
        &&& forall|i: int, j: int|
            0 <= i < j < self.entries@.len() ==> self.entries@[i].name@ != self.entries@[j].name@
        &&& forall|i: int|
            0 <= i < self.entries@.len() && (#[trigger] self.entries@[i]).child is Some
                ==> self.entries@[i].child->0.wf()
    }

    /// The place of the entry `name`, if there is one.
    pub open spec fn place(&self, name: Seq<char>) -> Option<int> {
        if exists|i: int| 0 <= i < self.entries@.len() && self.entries@[i].name@ == name {
            Some(choose|i: int| 0 <= i < self.entries@.len() && self.entries@[i].name@ == name)
        } else {
            None
        }
    }

    /// What stands at `path`, if anything does.
    pub open spec fn lookup(&self, path: Seq<Seq<char>>) -> Option<Kind>
        decreases path.len(),
    {
        if path.len() == 0 {
            None
        } else {
            match self.place(path[0]) {
                None => None,
                Some(i) => {
                    let child = self.entries@[i].child;
                    if path.len() == 1 {
                        Some(
                            if child is Some {
                                Kind::Directory
                            } else {
                                Kind::File
                            },
                        )
                    } else {
                        match child {
                            Some(sub) => sub.lookup(path.skip(1)),
                            None => None,
                        }
                    }
                },
            }
        }
    }

    /// What stands at `at` once `path` was inserted into `self`. Every name
    /// on the way to the last becomes a directory. The last becomes a file
    /// where nothing stood at `path`, and a directory where something did.
    pub open spec fn after_insert(&self, path: Seq<Seq<char>>, at: Seq<Seq<char>>) -> Option<
        Kind,
    > {
        if path.len() == 0 {
            self.lookup(at)
        } else if 0 < at.len() < path.len() && is_prefix(at, path) {
            Some(Kind::Directory)
        } else if at == path {
            if self.lookup(path) is Some {
                Some(Kind::Directory)
            } else {
                Some(Kind::File)
            }
        } else {
            self.lookup(at)
        }
    }

    pub fn new() -> (tree: Self)
        ensures
            tree.wf(),
            tree.entries@.len() == 0,
            forall|path: Seq<Seq<char>>| tree.lookup(path) is None,
    {
        let tree = Self { entries: Vec::new() };
        assert forall|path: Seq<Seq<char>>| tree.lookup(path) is None by {
            if path.len() > 0 {
                assert(tree.place(path[0]) is None);
            }
        }
        tree
    }

    /// The place of the entry `name`.
    pub fn position(&self, name: &String) -> (place: Option<usize>)
        requires
            self.wf(),
        ensures
            match place {
                Some(i) => self.place(name@) == Some(i as int) && i < self.entries@.len()
                    && self.entries@[i as int].name@ == name@,
                None => self.place(name@) is None,
            },
    {
        let mut i: usize = 0;
        while i < self.entries.len()
            invariant
                i <= self.entries@.len(),
                self.wf(),
                forall|k: int| 0 <= k < i ==> self.entries@[k].name@ != name@,
            decreases self.entries@.len() - i,
        {
            if self.entries[i].name == *name {
                proof {
                    let k = choose|k: int|
                        0 <= k < self.entries@.len() && self.entries@[k].name@ == name@;
                    if k < i {
                    } else if k > i {
                        assert(self.entries@[i as int].name@ != self.entries@[k].name@);
                    }
                }
                return Some(i);
            }
            i += 1;
        }
        None
    }

    /// What stands at `path`.
    pub fn kind(&self, path: &Vec<String>) -> (kind: Option<Kind>)
        requires
            self.wf(),
        ensures
            kind == self.lookup(names(path@)),
    {
        assert(names(path@).skip(0) =~= names(path@));
        self.kind_from(path, 0)
    }

    fn kind_from(&self, path: &Vec<String>, from: usize) -> (kind: Option<Kind>)
        requires
            self.wf(),
            from <= path@.len(),
        ensures
            kind == self.lookup(names(path@).skip(from as int)),
        decreases path@.len() - from,
    {
        let ghost rest = names(path@).skip(from as int);
        if from == path.len() {
            return None;
        }
        assert(rest[0] == path@[from as int]@);
        match self.position(&path[from]) {
            None => None,
            Some(i) => {
                if from + 1 == path.len() {
                    if self.entries[i].child.is_some() {
                        Some(Kind::Directory)
                    } else {
                        Some(Kind::File)
                    }
                } else {
                    assert(rest.skip(1) =~= names(path@).skip(from + 1));
                    match &self.entries[i].child {
                        Some(sub) => sub.kind_from(path, from + 1),
                        None => None,
                    }
                }
            },
        }
    }

    /// In a well-formed tree the entry of a name stands at one place only.
    pub proof fn lemma_place_unique(&self, i: int)
        requires
            self.wf(),
            0 <= i < self.entries@.len(),
        ensures
            self.place(self.entries@[i].name@) == Some(i),
    {
        let name = self.entries@[i].name@;
        let k = choose|k: int| 0 <= k < self.entries@.len() && self.entries@[k].name@ == name;
        if k < i {
            assert(self.entries@[k].name@ != self.entries@[i].name@);
        } else if i < k {
            assert(self.entries@[i].name@ != self.entries@[k].name@);
        }
    }

    /// Inserts the names of `path` from place `from` on; `false` where there
    /// are none.
    pub fn insert_(&mut self, path: &Vec<String>, from: usize) -> (inserted: bool)
        requires
            old(self).wf(),
            from <= path@.len(),
        ensures
            final(self).wf(),
            inserted == (from < path@.len()),
            forall|at: Seq<Seq<char>>|
                #[trigger] final(self).lookup(at) == old(self).after_insert(
                    names(path@).skip(from as int),
                    at,
                ),
        decreases path@.len() - from,
    {
        if from == path.len() {
            return false;
        }
        let ghost p = names(path@).skip(from as int);
        let ghost rest = names(path@).skip(from + 1);
        let ghost name = path@[from as int]@;
        assert(p[0] == name);
        assert(p.skip(1) =~= rest);
        match self.position(&path[from]) {
            Some(i) => {
                let mut child = match self.entries[i].child.take() {
                    Some(sub) => *sub,
                    None => FileTree::new(),
                };
                let ghost before = child;
                assert(before.wf()) by {
                    if old(self).entries@[i as int].child is Some {
                        assert(old(self).entries@[i as int].child->0.wf());
                    }
                }
                child.insert_(path, from + 1);
                self.entries[i].child = Some(Box::new(child));
                proof {
                    assert forall|k: int| 0 <= k < self.entries@.len() implies
                        self.entries@[k].name@ == old(self).entries@[k].name@ by {}
                    assert forall|k: int|
                        0 <= k < self.entries@.len() && (#[trigger] self.entries@[k]).child
                            is Some implies self.entries@[k].child->0.wf() by {
                        if k != i {
                            assert(old(self).entries@[k].child is Some);
                            assert(old(self).entries@[k].child->0.wf());
                        }
                    }
                    assert(self.wf());
                    assert forall|at: Seq<Seq<char>>|
                        #[trigger] self.lookup(at) == old(self).after_insert(p, at) by {
                        if at.len() > 0 {
                            if at[0] == name {
                                self.lemma_place_unique(i as int);
                                old(self).lemma_place_unique(i as int);
                                if at.len() > 1 {
                                    let tail = at.skip(1);
                                    assert(child.lookup(tail) == before.after_insert(rest, tail));
                                    lemma_same_head(at, p);
                                    if old(self).entries@[i as int].child is None {
                                        assert(before.lookup(tail) is None);
                                        assert(before.lookup(rest) is None);
                                    }
                                } else {
                                    assert(at =~= seq![name]);
                                    if p.len() == 1 {
                                        assert(p =~= at);
                                    } else {
                                        assert(p.take(1) =~= at);
                                    }
                                }
                            } else {
                                assert(at != p);
                                assert(!is_prefix(at, p)) by {
                                    if is_prefix(at, p) {
                                        assert(p.take(at.len() as int)[0] == at[0]);
                                    }
                                }
                                if old(self).place(at[0]) is Some {
                                    let k = old(self).place(at[0])->0;
                                    assert(self.entries@[k].name@ == at[0]);
                                    self.lemma_place_unique(k);
                                } else {
                                    if self.place(at[0]) is Some {
                                        let k = self.place(at[0])->0;
                                        assert(old(self).entries@[k].name@ == at[0]);
                                    }
                                }
                            }
                        }
                    }
                }
            },
            None => {
                let mut sub = FileTree::new();
                let ghost empty = sub;
                let more = sub.insert_(path, from + 1);
                let child = if more {
                    Some(Box::new(sub))
                } else {
                    None
                };
                let entry = FileEntry { name: path[from].clone(), child };
                self.entries.push(entry);
                proof {
                    let last = old(self).entries@.len() as int;
                    assert(self.entries@[last].name@ == name);
                    assert forall|a: int, b: int| 0 <= a < b < self.entries@.len() implies
                        self.entries@[a].name@ != self.entries@[b].name@ by {
                        if b == last {
                            assert(old(self).entries@[a].name@ != name);
                        } else {
                            assert(old(self).entries@[a].name@ != old(self).entries@[b].name@);
                        }
                    }
                    assert forall|k: int|
                        0 <= k < self.entries@.len() && (#[trigger] self.entries@[k]).child
                            is Some implies self.entries@[k].child->0.wf() by {
                        if k != last {
                            assert(old(self).entries@[k].child is Some);
                            assert(old(self).entries@[k].child->0.wf());
                        }
                    }
                    assert(self.wf());
                    assert forall|at: Seq<Seq<char>>|
                        #[trigger] self.lookup(at) == old(self).after_insert(p, at) by {
                        if at.len() > 0 {
                            if at[0] == name {
                                self.lemma_place_unique(last);
                                assert(old(self).lookup(at) is None);
                                assert(old(self).lookup(p) is None);
                                if at.len() > 1 {
                                    let tail = at.skip(1);
                                    lemma_same_head(at, p);
                                    if more {
                                        assert(sub.lookup(tail) == empty.after_insert(rest, tail));
                                        assert(empty.lookup(tail) is None);
                                        assert(empty.lookup(rest) is None);
                                    }
                                } else {
                                    assert(at =~= seq![name]);
                                    if p.len() == 1 {
                                        assert(p =~= at);
                                    } else {
                                        assert(p.take(1) =~= at);
                                    }
                                }
                            } else {
                                assert(at != p);
                                assert(!is_prefix(at, p)) by {
                                    if is_prefix(at, p) {
                                        assert(p.take(at.len() as int)[0] == at[0]);
                                    }
                                }
                                if old(self).place(at[0]) is Some {
                                    let k = old(self).place(at[0])->0;
                                    assert(self.entries@[k].name@ == at[0]);
                                    self.lemma_place_unique(k);
                                } else {
                                    if self.place(at[0]) is Some {
                                        let k = self.place(at[0])->0;
                                        assert(old(self).entries@[k].name@ == at[0]);
                                    }
                                }
                            }
                        }
                    }
                }
            },
        }
        true
    }

    /// Inserts `path`, name by name from the root: each name on the way
    /// becomes a directory, and the last a file, or a directory where
    /// something stood at `path` already.
    pub fn insert(&mut self, path: &Vec<String>)
        requires
            old(self).wf(),
        ensures
            final(self).wf(),
            forall|at: Seq<Seq<char>>|
                #[trigger] final(self).lookup(at) == old(self).after_insert(names(path@), at),
    {
        assert(names(path@).skip(0) =~= names(path@));
        self.insert_(path, 0);
    }

    /// The tree that holds `paths`, inserted one after the other.
    pub fn from_paths(paths: &Vec<Vec<String>>) -> (tree: Self)
        ensures
            tree.wf(),
            forall|at: Seq<Seq<char>>|
                #[trigger] tree.lookup(at) == listed(
                    all_names(paths@),
                    paths@.len() as int,
                    at,
                ),
    {
        let mut tree = FileTree::new();
        let mut i: usize = 0;
        while i < paths.len()
            invariant
                i <= paths@.len(),
                tree.wf(),
                forall|at: Seq<Seq<char>>|
                    #[trigger] tree.lookup(at) == listed(all_names(paths@), i as int, at),
            decreases paths@.len() - i,
        {
            let ghost before = tree;
            tree.insert(&paths[i]);
            proof {
                let path = names(paths@[i as int]@);
                assert(all_names(paths@)[i as int] == path);
                assert forall|at: Seq<Seq<char>>|
                    #[trigger] tree.lookup(at) == listed(all_names(paths@), i + 1, at) by {
                    assert(tree.lookup(at) == before.after_insert(path, at));
                    assert(before.lookup(at) == listed(all_names(paths@), i as int, at));
                    assert(before.lookup(path) == listed(all_names(paths@), i as int, path));
                }
            }
            i += 1;
        }
        tree
    }
}

} // verus!
