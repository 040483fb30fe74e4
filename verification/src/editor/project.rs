use vstd::prelude::*;

verus! {

/// The project that the editor works on, known by the path of its directory.
pub struct Project {
    path: Option<String>,
}

impl Project {
    /// The path of the open project, `None` while no project is open.
    pub closed spec fn location(&self) -> Option<Seq<char>> {
        match self.path {
            Some(p) => Some(p@),
            None => None,
        }
    }

    pub fn new() -> (project: Self)
        ensures
            project.location() == None::<Seq<char>>,
    {
        Self { path: None }
    }

    /// Opens the project at `path`, replacing the one that was open.
    pub fn open(&mut self, path: String)
        ensures
            final(self).location() == Some(path@),
    {
        self.path = Some(path);
    }

    pub fn path(&self) -> (path: Option<&String>)
        ensures
            match path {
                Some(p) => self.location() == Some(p@),
                None => self.location() == None::<Seq<char>>,
            },
    {
        self.path.as_ref()
    }
}

} // verus!
