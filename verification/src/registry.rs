//! Identifier registry: a bidirectional mapping between filesystem paths
//! and inode numbers, stable for the lifetime of a mount.
//!
//! Inode `i` names the path stored at index `i - 1` of the table, so both
//! mapping directions live in one structure and can never disagree. Index 0
//! always holds the root path `"/"`, giving the root the reserved inode 1.
//! Entries are never removed or reassigned; a path that disappears remotely
//! simply stops resolving to live data.

use vstd::prelude::*;

verus! {

/// True when no path occurs twice in the table, so no two inodes share one.
pub open spec fn distinct_paths(s: Seq<Seq<char>>) -> bool {
    forall|i: int, j: int| 0 <= i < j < s.len() ==> s[i] != s[j]
}

/// Well-formedness of a registry table: non-empty, rooted at `"/"`, and
/// free of duplicate paths.
pub open spec fn wf_table(s: Seq<Seq<char>>) -> bool {
    &&& s.len() >= 1
    &&& s[0] == "/"@
    &&& distinct_paths(s)
}

pub struct InodeRegistry {
    paths: Vec<String>,
}

impl View for InodeRegistry {
    type V = Seq<Seq<char>>;

    closed spec fn view(&self) -> Seq<Seq<char>> {
        self.paths.deep_view()
    }
}

impl InodeRegistry {
    pub open spec fn wf(&self) -> bool {
        wf_table(self@)
    }

    /// A fresh registry holding only the root path under inode 1.
    pub fn new() -> (r: InodeRegistry)
        ensures
            r.wf(),
            r@.len() == 1,
            r@[0] == "/"@,
    {
        let mut paths: Vec<String> = Vec::new();
        paths.push("/".to_owned());
        let r = InodeRegistry { paths };
        proof {
            assert(r@ =~= seq!["/"@]);
        }
        r
    }

    /// Returns the inode already assigned to `path`, or assigns the next
    /// unused inode (the table length plus one) and records the mapping.
    pub fn resolve(&mut self, path: &str) -> (ino: u64)
        requires
            old(self).wf(),
            old(self)@.len() < usize::MAX,
        ensures
            final(self).wf(),
            1 <= ino <= final(self)@.len(),
            final(self)@[ino as int - 1] == path@,
            old(self)@.contains(path@) ==> final(self)@ == old(self)@,
            !old(self)@.contains(path@) ==> final(self)@ == old(self)@.push(path@)
                && ino == old(self)@.len() + 1,
    {
        let wanted: String = path.to_owned();
        let n: usize = self.paths.len();
        let mut i: usize = 0;
        while i < n
            invariant
                *self == *old(self),
                old(self).wf(),
                n == self.paths.len(),
                i <= n,
                wanted@ == path@,
                forall|k: int| 0 <= k < i ==> self@[k] != path@,
            decreases n - i,
        {
            if self.paths[i] == wanted {
                proof {
                    assert(self@[i as int] == path@);
                    assert(old(self)@.contains(path@));
                }
                return (i as u64) + 1;
            }
            i += 1;
        }
        assert(!self@.contains(path@));
        self.paths.push(wanted);
        proof {
            assert(self@ =~= old(self)@.push(path@));
        }
        (n as u64) + 1
    }

    /// Lookup only: the path recorded for `ino`, if any. Never allocates.
    pub fn path_of(&self, ino: u64) -> (r: Option<String>)
        requires
            self.wf(),
        ensures
            match r {
                Some(p) => 1 <= ino <= self@.len() && p@ == self@[ino as int - 1],
                None => !(1 <= ino && ino <= self@.len()),
            },
    {
        if 1 <= ino && ino <= self.paths.len() as u64 {
            Some(self.paths[(ino - 1) as usize].clone())
        } else {
            None
        }
    }

    /// The number of paths registered so far; the next fresh inode is one
    /// more than this.
    pub fn len(&self) -> (n: usize)
        ensures
            n == self@.len(),
    {
        self.paths.len()
    }
}

/// Inode stability: a well-formed table answers one inode per path, so
/// repeated resolution of the same path always returns the same inode.
pub proof fn lemma_inode_stability(s: Seq<Seq<char>>, p: Seq<char>, ino1: u64, ino2: u64)
    requires
        wf_table(s),
        1 <= ino1 <= s.len(),
        s[ino1 as int - 1] == p,
        1 <= ino2 <= s.len(),
        s[ino2 as int - 1] == p,
    ensures
        ino1 == ino2,
{
    if ino1 != ino2 {
        let i = ino1 as int - 1;
        let j = ino2 as int - 1;
        assert(s[i] != s[j]);
    }
}

/// Distinct paths never share an inode: the registry's answers for two
/// different paths always differ.
pub proof fn lemma_distinct_paths_distinct_inodes(
    s: Seq<Seq<char>>,
    p: Seq<char>,
    q: Seq<char>,
    ino_p: u64,
    ino_q: u64,
)
    requires
        wf_table(s),
        p != q,
        1 <= ino_p <= s.len(),
        s[ino_p as int - 1] == p,
        1 <= ino_q <= s.len(),
        s[ino_q as int - 1] == q,
    ensures
        ino_p != ino_q,
{
}

/// Allocation monotonicity: an inode assigned to a previously-unseen path
/// is strictly larger than every inode the table had already issued, and
/// is never 1 (index 0 is forever the root's).
pub proof fn lemma_allocation_monotonic(pre: Seq<Seq<char>>, p: Seq<char>, ino: u64, prior: u64)
    requires
        wf_table(pre),
        !pre.contains(p),
        ino == pre.len() + 1,
        1 <= prior <= pre.len(),
    ensures
        ino > prior,
        ino != 1,
{
}

/// Inode 1 belongs to the root path and to no other: a registered path maps
/// to inode 1 exactly when it is `"/"`.
pub proof fn lemma_root_inode(s: Seq<Seq<char>>, p: Seq<char>, ino: u64)
    requires
        wf_table(s),
        1 <= ino <= s.len(),
        s[ino as int - 1] == p,
    ensures
        ino == 1 <==> p == "/"@,
{
    if p == "/"@ && ino != 1 {
        assert(s[0] == s[ino as int - 1]);
    }
}

} // verus!
