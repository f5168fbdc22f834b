//! The three paths that creating a patch needs: the tree before the update,
//! the tree after it, and the archive to write.

use vstd::prelude::*;

verus! {

/// The chosen paths, all three of them.
pub struct FileTriplet<'a> {
    pub original: &'a String,
    pub new: &'a String,
    pub result: &'a String,
}

/// The paths chosen so far.
pub struct FileSelectors {
    pub original: Option<String>,
    pub new: Option<String>,
    pub result: Option<String>,
}

impl FileSelectors {
    /// Nothing chosen yet.
    pub fn new() -> (r: FileSelectors)
        ensures
            r.original is None,
            r.new is None,
            r.result is None,
    {
        FileSelectors { original: None, new: None, result: None }
    }

    /// The three paths, once all of them are chosen.
    pub fn triplet(&self) -> (r: Option<FileTriplet<'_>>)
        ensures
            r is Some <==> (self.original is Some && self.new is Some && self.result is Some),
            r matches Some(t) ==> {
                &&& Some(*t.original) == self.original
                &&& Some(*t.new) == self.new
                &&& Some(*t.result) == self.result
            },
    {
        match (&self.original, &self.new, &self.result) {
            (Some(original), Some(new), Some(result)) => Some(FileTriplet { original, new, result }),
            _ => None,
        }
    }
}

} // verus!
