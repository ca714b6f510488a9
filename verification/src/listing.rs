//! Directory listing entries, as the listing source reports them.

use vstd::prelude::*;

verus! {

/// One immediate child of a remote directory: its leaf name (no slashes),
/// whether it is itself a directory, its size in bytes (meaningful for
/// files only) and an optional last-modified stamp in seconds since the
/// Unix epoch. Entries are produced only by the listing source; the
/// adapter never synthesizes one.
#[derive(Debug)]
pub struct DavEntry {
    pub name: String,
    pub is_dir: bool,
    pub size: u64,
    pub modified: Option<i64>,
}

impl Clone for DavEntry {
    fn clone(&self) -> (r: Self)
        ensures
            r == *self,
    {
        DavEntry {
            name: self.name.clone(),
            is_dir: self.is_dir,
            size: self.size,
            modified: self.modified,
        }
    }
}

/// Clones a listing so that a cache can hand out copies of what it stores.
pub fn clone_entries(v: &Vec<DavEntry>) -> (r: Vec<DavEntry>)
    ensures
        r@ == v@,
{
    let r = v.clone();
    proof {
        assert forall|i: int| 0 <= i < r@.len() implies r@[i] == v@[i] by {
            assert(cloned::<DavEntry>(v@[i], r@[i]));
        }
        assert(r@ =~= v@);
    }
    r
}

} // verus!
