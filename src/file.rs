use vstd::prelude::*;

verus! {

/// A file of the tree: its path relative to the root, and its bytes.
pub struct File {
    pub path: String,
    pub contents: Vec<u8>,
}

impl File {
    /// A file with the given relative path and contents.
    pub fn new(path: String, contents: Vec<u8>) -> (r: File)
        ensures
            r.path@ == path@,
            r.contents@ == contents@,
    {
        File { path, contents }
    }

    /// The file's path relative to the root.
    pub fn path(&self) -> (r: &str)
        ensures
            r@ == self.path@,
    {
        self.path.as_str()
    }

    /// The file's bytes.
    pub fn contents(&self) -> (r: &[u8])
        ensures
            r@ == self.contents@,
    {
        self.contents.as_slice()
    }
}

} // verus!
