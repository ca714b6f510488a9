//! The filesystem adapter: per-call kernel request logic over the inode
//! registry, the directory cache and the listing source.
//!
//! Each kernel callback is a one-shot transaction. The logic of a call
//! that may need the network is split in two: a `*_local` step that
//! answers from registry and cache alone or asks for one remote listing
//! (`Fetch`), and a `*_fetched` step that receives the outcome of that
//! listing call as a plain value and finishes the transaction. The
//! unverified shell performs the blocking network call between the two
//! steps; everything it hands back is handled here, whatever came back.

use vstd::prelude::*;
use crate::attr::FileAttrData;
use crate::attr::FileKind;
use crate::attr::ROOT_INO;
use crate::attr::dir_attr;
use crate::attr::file_attr;
use crate::attr::root_attr;
use crate::attr::spec_dir_attr;
use crate::attr::spec_file_attr;
use crate::attr::spec_root_attr;
use crate::cache::CachedDirectory;
use crate::cache::DirectoryCache;
use crate::listing::DavEntry;
use crate::listing::clone_entries;
use crate::paths::ends_with_slash;
use crate::paths::join_child;
use crate::paths::join_spec;
use crate::paths::leaf_spec;
use crate::paths::parent_spec;
use crate::paths::remote_of;
use crate::paths::remote_spec;
use crate::paths::split_parent;
use crate::registry::InodeRegistry;

verus! {

/// Time-to-live of the foreground directory cache, in milliseconds.
pub const FOREGROUND_TTL_MS: u64 = 5000;

/// Whether `ino` has been issued by a registry table of this length.
pub open spec fn reg_has(reg: Seq<Seq<char>>, ino: u64) -> bool {
    1 <= ino <= reg.len()
}

/// The path registered under `ino`.
pub open spec fn reg_path(reg: Seq<Seq<char>>, ino: u64) -> Seq<char> {
    reg[ino as int - 1]
}

/// The first entry of `entries` named `name`, if any: name collisions are
/// resolved first-match-wins, in listing order.
pub open spec fn first_match(entries: Seq<DavEntry>, name: Seq<char>) -> Option<DavEntry>
    decreases entries.len(),
{
    if entries.len() == 0 {
        None
    } else if entries.first().name@ == name {
        Some(entries.first())
    } else {
        first_match(entries.drop_first(), name)
    }
}

/// The attribute record a listing entry earns under inode `ino`:
/// directory defaults for a directory, file defaults and the entry's size
/// for a file.
pub open spec fn attr_of_entry(e: DavEntry, ino: u64, uid: u32, gid: u32) -> FileAttrData {
    if e.is_dir {
        spec_dir_attr(ino, uid, gid)
    } else {
        spec_file_attr(ino, e.size, uid, gid)
    }
}

/// Outcome of the local step of a lookup or getattr transaction.
#[derive(Debug)]
pub enum LookupStep {
    /// The child exists: its inode and synthesized attributes.
    Found { ino: u64, attr: FileAttrData },
    /// No matching entry at any resolvable layer.
    NotFound,
    /// The cache cannot answer: fetch this remote path's listing first.
    Fetch { remote: String },
}

/// Errors a finished transaction can report to the kernel.
#[derive(Clone, Copy, Debug, PartialEq, Eq, Structural)]
pub enum FsError {
    /// No such entry.
    NotFound,
    /// Content transfer is out of scope: the destination is unreachable.
    Unreachable,
}

/// Outcome of a getattr step.
#[derive(Debug)]
pub enum AttrStep {
    /// The object's synthesized attributes.
    Attr(FileAttrData),
    /// No matching entry.
    NotFound,
    /// The cache cannot answer: fetch this remote path's listing first.
    Fetch { remote: String },
}

/// One row of a readdir reply: the child's inode, kind and name.
#[derive(Debug)]
pub struct DirEntryOut {
    pub ino: u64,
    pub kind: FileKind,
    pub name: String,
}

impl Clone for DirEntryOut {
    fn clone(&self) -> (r: Self)
        ensures
            r == *self,
    {
        DirEntryOut { ino: self.ino, kind: self.kind, name: self.name.clone() }
    }
}

/// Outcome of a readdir step.
#[derive(Debug)]
pub enum ReaddirStep {
    /// The rows of the reply, starting at the requested offset.
    Entries(Vec<DirEntryOut>),
    /// The directory inode was never issued.
    NotFound,
    /// The cache cannot answer: fetch this remote path's listing first.
    Fetch { remote: String },
}

/// `new` preserves every entry `old` had, under the same inode.
pub open spec fn reg_extends(new: Seq<Seq<char>>, old: Seq<Seq<char>>) -> bool {
    &&& old.len() <= new.len()
    &&& forall|k: int| 0 <= k < old.len() ==> new[k] == old[k]
}

/// The self-reference rows that begin every readdir reply: `.` at
/// position 0 and `..` at position 1, both under the directory's own
/// inode.
pub open spec fn dot_entry_ok(dir_ino: u64, pos: int, o: DirEntryOut) -> bool {
    &&& o.ino == dir_ino
    &&& o.kind == FileKind::Directory
    &&& o.name@ == if pos == 0 {
        "."@
    } else {
        ".."@
    }
}

/// A readdir row for listing entry `e` of directory `dir`: same name,
/// kind from the directory flag, and an inode the registry maps to the
/// joined child path.
pub open spec fn child_entry_ok(
    reg: Seq<Seq<char>>,
    dir: Seq<char>,
    e: DavEntry,
    o: DirEntryOut,
) -> bool {
    &&& o.name@ == e.name@
    &&& o.kind == if e.is_dir {
        FileKind::Directory
    } else {
        FileKind::RegularFile
    }
    &&& reg_has(reg, o.ino)
    &&& reg_path(reg, o.ino) == join_spec(dir, e.name@)
}

/// A readdir reply page: the rows of `. , .. , listing...` from `offset`
/// on, in that order and nothing else.
pub open spec fn readdir_page_ok(
    reg: Seq<Seq<char>>,
    dir_ino: u64,
    dir: Seq<char>,
    listing: Seq<DavEntry>,
    offset: int,
    out: Seq<DirEntryOut>,
) -> bool {
    &&& out.len() == if offset <= listing.len() + 2 {
        listing.len() + 2 - offset
    } else {
        0
    }
    &&& forall|k: int|
        0 <= k < out.len() ==> {
            let pos = offset + k;
            if pos < 2 {
                dot_entry_ok(dir_ino, pos, #[trigger] out[k])
            } else {
                child_entry_ok(reg, dir, listing[pos - 2], out[k])
            }
        }
}

/// Readdir completeness: for a directory whose cached listing holds the
/// entries `e0, e1, ...`, the page at offset 0 is `. , .. , e0, e1, ...`
/// in that order and nothing else, and the page at offset 2 is the same
/// sequence starting from index 2, the first listing entry.
pub proof fn lemma_readdir_completeness(
    reg: Seq<Seq<char>>,
    dir_ino: u64,
    dir: Seq<char>,
    listing: Seq<DavEntry>,
    out0: Seq<DirEntryOut>,
    out2: Seq<DirEntryOut>,
)
    requires
        readdir_page_ok(reg, dir_ino, dir, listing, 0, out0),
        readdir_page_ok(reg, dir_ino, dir, listing, 2, out2),
    ensures
        out0.len() == listing.len() + 2,
        dot_entry_ok(dir_ino, 0, out0[0]),
        dot_entry_ok(dir_ino, 1, out0[1]),
        forall|k: int|
            0 <= k < listing.len() ==> child_entry_ok(reg, dir, listing[k], #[trigger] out0[k + 2]),
        out2.len() == listing.len(),
        forall|k: int|
            0 <= k < listing.len() ==> child_entry_ok(reg, dir, listing[k], #[trigger] out2[k]),
{
    assert forall|k: int| 0 <= k < listing.len() implies child_entry_ok(
        reg,
        dir,
        listing[k],
        #[trigger] out0[k + 2],
    ) by {
        assert(0 <= k + 2 < out0.len());
    }
}

/// Reply of an extended-attribute call: the buffer size needed when the
/// caller probed with size zero, the value itself when the caller's
/// buffer is large enough, or the reason nothing is returned.
#[derive(Debug)]
pub enum XattrReply {
    /// The caller probed with size 0: this many bytes are needed.
    Size(u32),
    /// The attribute's value.
    Value(String),
    /// The caller's buffer is too small.
    Range,
    /// No attribute of that name exists.
    NoData,
    /// The inode was never issued.
    NotFound,
}

/// The coarse-grained state the one extended attribute reports for an
/// inode: `cached` for the root or any path whose own listing is cached,
/// `cloud` for a leaf whose parent listing is cached, `unknown`
/// otherwise. Derived state, recomputed per call, never stored.
pub open spec fn xattr_state(
    reg: Seq<Seq<char>>,
    cache: Map<Seq<char>, CachedDirectory>,
    ino: u64,
) -> Seq<char> {
    if ino == ROOT_INO {
        "cached"@
    } else {
        let p = reg_path(reg, ino);
        if (p.len() > 0 && p.last() == '/') || cache.contains_key(p) {
            "cached"@
        } else if cache.contains_key(parent_spec(p)) {
            "cloud"@
        } else {
            "unknown"@
        }
    }
}

/// The filesystem adapter's shared state: the inode registry, the
/// directory cache, and the identity every synthesized attribute record
/// carries.
pub struct DavFs {
    pub registry: InodeRegistry,
    pub cache: DirectoryCache,
    pub uid: u32,
    pub gid: u32,
}

/// Scans a listing for the first entry with the given name.
fn find_entry(entries: &Vec<DavEntry>, name: &str) -> (r: Option<DavEntry>)
    ensures
        r == first_match(entries@, name@),
{
    let wanted: String = name.to_owned();
    let n: usize = entries.len();
    let mut i: usize = 0;
    proof {
        assert(entries@.skip(0) =~= entries@);
    }
    while i < n
        invariant
            n == entries@.len(),
            i <= n,
            wanted@ == name@,
            first_match(entries@, name@) == first_match(entries@.skip(i as int), name@),
        decreases n - i,
    {
        proof {
            assert(entries@.skip(i as int).first() == entries@[i as int]);
        }
        if entries[i].name == wanted {
            return Some(entries[i].clone());
        }
        proof {
            assert(entries@.skip(i as int).drop_first() =~= entries@.skip(i as int + 1));
        }
        i += 1;
    }
    proof {
        assert(entries@.skip(n as int) =~= Seq::<DavEntry>::empty());
    }
    None
}

impl DavFs {
    pub open spec fn wf(&self) -> bool {
        &&& self.registry.wf()
        &&& self.cache.wf()
    }

    /// Fixed parts of the adapter's state: everything but the registry
    /// and the cache contents.
    pub open spec fn same_config(&self, other: &DavFs) -> bool {
        &&& self.uid == other.uid
        &&& self.gid == other.gid
        &&& self.cache.spec_ttl() == other.cache.spec_ttl()
    }

    /// A fresh adapter: the registry knows only the root, the cache is
    /// empty with the foreground time-to-live, and `uid`/`gid` stamp every
    /// attribute record synthesized from here on.
    pub fn new(uid: u32, gid: u32) -> (r: DavFs)
        ensures
            r.wf(),
            r.registry@.len() == 1,
            r.registry@[0] == "/"@,
            r.cache@ == Map::<Seq<char>, CachedDirectory>::empty(),
            r.cache.spec_ttl() == FOREGROUND_TTL_MS,
            r.uid == uid,
            r.gid == gid,
    {
        DavFs {
            registry: InodeRegistry::new(),
            cache: DirectoryCache::new(FOREGROUND_TTL_MS),
            uid,
            gid,
        }
    }

    /// Local step of `lookup(parent, name)`: resolve the parent inode to
    /// its path and scan the cached parent listing, any age, for `name`.
    /// On a match the child inode is resolved (allocating if unseen) and
    /// attributes are synthesized; with no cached listing at all the
    /// caller is asked to fetch the parent's remote listing.
    pub fn lookup_local(&mut self, parent: u64, name: &str) -> (r: LookupStep)
        requires
            old(self).wf(),
            old(self).registry@.len() < usize::MAX,
        ensures
            final(self).wf(),
            final(self).same_config(old(self)),
            final(self).cache == old(self).cache,
            match r {
                LookupStep::Found { ino, attr } => {
                    &&& reg_has(old(self).registry@, parent)
                    &&& {
                        let pp = reg_path(old(self).registry@, parent);
                        let child = join_spec(pp, name@);
                        &&& old(self).cache@.contains_key(pp)
                        &&& first_match(old(self).cache@[pp].entries@, name@) is Some
                        &&& attr == attr_of_entry(
                            first_match(old(self).cache@[pp].entries@, name@)->0,
                            ino,
                            old(self).uid,
                            old(self).gid,
                        )
                        &&& reg_has(final(self).registry@, ino)
                        &&& reg_path(final(self).registry@, ino) == child
                        &&& (final(self).registry@ == old(self).registry@
                            || final(self).registry@ == old(self).registry@.push(child))
                    }
                },
                LookupStep::NotFound => {
                    &&& final(self).registry == old(self).registry
                    &&& {
                        ||| !reg_has(old(self).registry@, parent)
                        ||| {
                            let pp = reg_path(old(self).registry@, parent);
                            &&& old(self).cache@.contains_key(pp)
                            &&& first_match(old(self).cache@[pp].entries@, name@) is None
                        }
                    }
                },
                LookupStep::Fetch { remote } => {
                    &&& final(self).registry == old(self).registry
                    &&& reg_has(old(self).registry@, parent)
                    &&& !old(self).cache@.contains_key(reg_path(old(self).registry@, parent))
                    &&& remote@ == remote_spec(reg_path(old(self).registry@, parent))
                },
            },
    {
        let parent_path: String = match self.registry.path_of(parent) {
            Some(p) => p,
            None => {
                return LookupStep::NotFound;
            },
        };
        match self.cache.get_stale(parent_path.as_str()) {
            Some(entries) => {
                match find_entry(&entries, name) {
                    Some(e) => {
                        let child = join_child(parent_path.as_str(), name);
                        let ino = self.registry.resolve(child.as_str());
                        let attr = if e.is_dir {
                            dir_attr(ino, self.uid, self.gid)
                        } else {
                            file_attr(ino, e.size, self.uid, self.gid)
                        };
                        LookupStep::Found { ino, attr }
                    },
                    None => LookupStep::NotFound,
                }
            },
            None => LookupStep::Fetch { remote: remote_of(parent_path.as_str()) },
        }
    }

    /// Completion step of a lookup whose local step asked for a fetch:
    /// `fetched` is the outcome of the listing call, absent on failure.
    /// A successful listing is cached, stamped `now`, before the scan; a
    /// failed one reports the child not found, as no cache fallback
    /// exists on this path.
    pub fn lookup_fetched(
        &mut self,
        parent: u64,
        name: &str,
        fetched: Option<Vec<DavEntry>>,
        now: u64,
    ) -> (r: LookupStep)
        requires
            old(self).wf(),
            old(self).registry@.len() < usize::MAX,
        ensures
            final(self).wf(),
            final(self).same_config(old(self)),
            !(r is Fetch),
            match r {
                LookupStep::Found { ino, attr } => {
                    &&& reg_has(old(self).registry@, parent)
                    &&& fetched is Some
                    &&& {
                        let pp = reg_path(old(self).registry@, parent);
                        let listing = fetched->0@;
                        let child = join_spec(pp, name@);
                        &&& final(self).cache@ == old(self).cache@.insert(
                            pp,
                            CachedDirectory { entries: fetched->0, cached_at: now },
                        )
                        &&& first_match(listing, name@) is Some
                        &&& attr == attr_of_entry(
                            first_match(listing, name@)->0,
                            ino,
                            old(self).uid,
                            old(self).gid,
                        )
                        &&& reg_has(final(self).registry@, ino)
                        &&& reg_path(final(self).registry@, ino) == child
                        &&& (final(self).registry@ == old(self).registry@
                            || final(self).registry@ == old(self).registry@.push(child))
                    }
                },
                LookupStep::NotFound => {
                    &&& final(self).registry == old(self).registry
                    &&& {
                        ||| (!reg_has(old(self).registry@, parent) && final(self).cache
                            == old(self).cache)
                        ||| (fetched is None && final(self).cache == old(self).cache)
                        ||| {
                            let pp = reg_path(old(self).registry@, parent);
                            &&& fetched is Some
                            &&& final(self).cache@ == old(self).cache@.insert(
                                pp,
                                CachedDirectory { entries: fetched->0, cached_at: now },
                            )
                            &&& first_match(fetched->0@, name@) is None
                        }
                    }
                },
                LookupStep::Fetch { .. } => false,
            },
    {
        let parent_path: String = match self.registry.path_of(parent) {
            Some(p) => p,
            None => {
                return LookupStep::NotFound;
            },
        };
        match fetched {
            Some(entries) => {
                let listing = clone_entries(&entries);
                self.cache.insert(parent_path.clone(), entries, now);
                match find_entry(&listing, name) {
                    Some(e) => {
                        let child = join_child(parent_path.as_str(), name);
                        let ino = self.registry.resolve(child.as_str());
                        let attr = if e.is_dir {
                            dir_attr(ino, self.uid, self.gid)
                        } else {
                            file_attr(ino, e.size, self.uid, self.gid)
                        };
                        LookupStep::Found { ino, attr }
                    },
                    None => LookupStep::NotFound,
                }
            },
            None => LookupStep::NotFound,
        }
    }

    /// Local step of `getattr(ino)`: inode 1 always answers the root
    /// directory attributes; otherwise the stored path is split into
    /// parent and leaf, and the cached parent listing, any age, is
    /// scanned for the leaf.
    pub fn getattr_local(&self, ino: u64) -> (r: AttrStep)
        requires
            self.wf(),
        ensures
            match r {
                AttrStep::Attr(a) => {
                    ||| (ino == ROOT_INO && a == spec_root_attr(self.uid, self.gid))
                    ||| {
                        &&& ino != ROOT_INO
                        &&& reg_has(self.registry@, ino)
                        &&& {
                            let p = reg_path(self.registry@, ino);
                            let pp = parent_spec(p);
                            &&& self.cache@.contains_key(pp)
                            &&& first_match(self.cache@[pp].entries@, leaf_spec(p)) is Some
                            &&& a == attr_of_entry(
                                first_match(self.cache@[pp].entries@, leaf_spec(p))->0,
                                ino,
                                self.uid,
                                self.gid,
                            )
                        }
                    }
                },
                AttrStep::NotFound => {
                    &&& ino != ROOT_INO
                    &&& {
                        ||| !reg_has(self.registry@, ino)
                        ||| {
                            let p = reg_path(self.registry@, ino);
                            let pp = parent_spec(p);
                            &&& self.cache@.contains_key(pp)
                            &&& first_match(self.cache@[pp].entries@, leaf_spec(p)) is None
                        }
                    }
                },
                AttrStep::Fetch { remote } => {
                    &&& ino != ROOT_INO
                    &&& reg_has(self.registry@, ino)
                    &&& !self.cache@.contains_key(parent_spec(reg_path(self.registry@, ino)))
                    &&& remote@ == remote_spec(parent_spec(reg_path(self.registry@, ino)))
                },
            },
    {
        if ino == ROOT_INO {
            return AttrStep::Attr(root_attr(self.uid, self.gid));
        }
        let path: String = match self.registry.path_of(ino) {
            Some(p) => p,
            None => {
                return AttrStep::NotFound;
            },
        };
        let (parent, leaf) = split_parent(path.as_str());
        match self.cache.get_stale(parent.as_str()) {
            Some(entries) => {
                match find_entry(&entries, leaf.as_str()) {
                    Some(e) => {
                        let attr = if e.is_dir {
                            dir_attr(ino, self.uid, self.gid)
                        } else {
                            file_attr(ino, e.size, self.uid, self.gid)
                        };
                        AttrStep::Attr(attr)
                    },
                    None => AttrStep::NotFound,
                }
            },
            None => AttrStep::Fetch { remote: remote_of(parent.as_str()) },
        }
    }

    /// Completion step of a getattr whose local step asked for a fetch.
    /// A successful listing is cached under the parent path, stamped
    /// `now`, then scanned for the leaf. A failed fetch with no cache to
    /// fall back on degrades to a generic regular-file attribute record
    /// of 1024 bytes rather than an error, so the kernel can make
    /// progress.
    pub fn getattr_fetched(
        &mut self,
        ino: u64,
        fetched: Option<Vec<DavEntry>>,
        now: u64,
    ) -> (r: AttrStep)
        requires
            old(self).wf(),
        ensures
            final(self).wf(),
            final(self).same_config(old(self)),
            final(self).registry == old(self).registry,
            !(r is Fetch),
            match r {
                AttrStep::Attr(a) => {
                    &&& reg_has(old(self).registry@, ino)
                    &&& {
                        ||| (fetched is None && *final(self) == *old(self) && a
                            == spec_file_attr(ino, 1024, old(self).uid, old(self).gid))
                        ||| {
                            let p = reg_path(old(self).registry@, ino);
                            let pp = parent_spec(p);
                            let listing = fetched->0@;
                            &&& fetched is Some
                            &&& final(self).cache@ == old(self).cache@.insert(
                                pp,
                                CachedDirectory { entries: fetched->0, cached_at: now },
                            )
                            &&& first_match(listing, leaf_spec(p)) is Some
                            &&& a == attr_of_entry(
                                first_match(listing, leaf_spec(p))->0,
                                ino,
                                old(self).uid,
                                old(self).gid,
                            )
                        }
                    }
                },
                AttrStep::NotFound => {
                    ||| (!reg_has(old(self).registry@, ino) && *final(self) == *old(self))
                    ||| {
                        let p = reg_path(old(self).registry@, ino);
                        let pp = parent_spec(p);
                        &&& reg_has(old(self).registry@, ino)
                        &&& fetched is Some
                        &&& final(self).cache@ == old(self).cache@.insert(
                            pp,
                            CachedDirectory { entries: fetched->0, cached_at: now },
                        )
                        &&& first_match(fetched->0@, leaf_spec(p)) is None
                    }
                },
                AttrStep::Fetch { .. } => false,
            },
    {
        let path: String = match self.registry.path_of(ino) {
            Some(p) => p,
            None => {
                return AttrStep::NotFound;
            },
        };
        match fetched {
            None => AttrStep::Attr(file_attr(ino, 1024, self.uid, self.gid)),
            Some(entries) => {
                let (parent, leaf) = split_parent(path.as_str());
                let listing = clone_entries(&entries);
                self.cache.insert(parent, entries, now);
                match find_entry(&listing, leaf.as_str()) {
                    Some(e) => {
                        let attr = if e.is_dir {
                            dir_attr(ino, self.uid, self.gid)
                        } else {
                            file_attr(ino, e.size, self.uid, self.gid)
                        };
                        AttrStep::Attr(attr)
                    },
                    None => AttrStep::NotFound,
                }
            },
        }
    }

    /// Builds the readdir rows for `dir_ino`/`dir_path` over `listing`,
    /// starting at `offset`: `.` and `..` first, then one row per listing
    /// entry in listing order, each child's inode resolved (allocating if
    /// unseen) for the joined child path.
    fn build_dir_page(
        &mut self,
        dir_ino: u64,
        dir_path: &str,
        listing: &Vec<DavEntry>,
        offset: usize,
    ) -> (out: Vec<DirEntryOut>)
        requires
            old(self).wf(),
            listing@.len() > 0 ==> old(self).registry@.len() + listing@.len() < usize::MAX,
        ensures
            final(self).wf(),
            final(self).same_config(old(self)),
            final(self).cache == old(self).cache,
            reg_extends(final(self).registry@, old(self).registry@),
            final(self).registry@.len() <= old(self).registry@.len() + listing@.len(),
            readdir_page_ok(
                final(self).registry@,
                dir_ino,
                dir_path@,
                listing@,
                offset as int,
                out@,
            ),
    {
        let mut all: Vec<DirEntryOut> = Vec::new();
        all.push(DirEntryOut { ino: dir_ino, kind: FileKind::Directory, name: ".".to_owned() });
        all.push(DirEntryOut { ino: dir_ino, kind: FileKind::Directory, name: "..".to_owned() });
        let n: usize = listing.len();
        let mut i: usize = 0;
        while i < n
            invariant
                old(self).wf(),
                self.wf(),
                self.same_config(old(self)),
                self.cache == old(self).cache,
                reg_extends(self.registry@, old(self).registry@),
                self.registry@.len() <= old(self).registry@.len() + i,
                n > 0 ==> old(self).registry@.len() + n < usize::MAX,
                n == listing@.len(),
                i <= n,
                all@.len() == i + 2,
                forall|k: int|
                    0 <= k < all@.len() ==> if k < 2 {
                        dot_entry_ok(dir_ino, k, #[trigger] all@[k])
                    } else {
                        child_entry_ok(self.registry@, dir_path@, listing@[k - 2], all@[k])
                    },
            decreases n - i,
        {
            let ghost pre = self.registry@;
            let e = &listing[i];
            let child = join_child(dir_path, e.name.as_str());
            let cino = self.registry.resolve(child.as_str());
            let kind = if e.is_dir {
                FileKind::Directory
            } else {
                FileKind::RegularFile
            };
            all.push(DirEntryOut { ino: cino, kind, name: e.name.clone() });
            proof {
                assert forall|k: int|
                    0 <= k < all@.len() implies if k < 2 {
                    dot_entry_ok(dir_ino, k, #[trigger] all@[k])
                } else {
                    child_entry_ok(self.registry@, dir_path@, listing@[k - 2], all@[k])
                } by {
                    if 2 <= k < all@.len() - 1 {
                        assert(child_entry_ok(pre, dir_path@, listing@[k - 2], all@[k]));
                        assert(reg_path(self.registry@, all@[k].ino) == reg_path(
                            pre,
                            all@[k].ino,
                        ));
                    }
                }
            }
            i += 1;
        }
        let total: usize = all.len();
        let mut out: Vec<DirEntryOut> = Vec::new();
        let mut j: usize = offset;
        while j < total
            invariant
                total == all@.len(),
                offset <= j <= total || (offset > total && j == offset),
                out@.len() == if offset <= j {
                    j - offset
                } else {
                    0
                },
                forall|k: int| 0 <= k < out@.len() ==> out@[k] == all@[offset + k],
            decreases total - j,
        {
            out.push(all[j].clone());
            j += 1;
        }
        out
    }

    /// Local step of `readdir(ino, offset)`: resolve the directory's own
    /// path and answer from the cached listing, any age; with no entry at
    /// all, ask for a fetch.
    pub fn readdir_local(&mut self, ino: u64, offset: usize) -> (r: ReaddirStep)
        requires
            old(self).wf(),
            reg_has(old(self).registry@, ino) && old(self).cache@.contains_key(
                reg_path(old(self).registry@, ino),
            ) ==> old(self).registry@.len() + old(self).cache@[reg_path(
                old(self).registry@,
                ino,
            )].entries@.len() < usize::MAX,
        ensures
            final(self).wf(),
            final(self).same_config(old(self)),
            final(self).cache == old(self).cache,
            reg_extends(final(self).registry@, old(self).registry@),
            match r {
                ReaddirStep::Entries(v) => {
                    &&& reg_has(old(self).registry@, ino)
                    &&& {
                        let p = reg_path(old(self).registry@, ino);
                        &&& old(self).cache@.contains_key(p)
                        &&& readdir_page_ok(
                            final(self).registry@,
                            ino,
                            p,
                            old(self).cache@[p].entries@,
                            offset as int,
                            v@,
                        )
                        &&& final(self).registry@.len() <= old(self).registry@.len()
                            + old(self).cache@[p].entries@.len()
                    }
                },
                ReaddirStep::NotFound => {
                    &&& !reg_has(old(self).registry@, ino)
                    &&& final(self).registry == old(self).registry
                },
                ReaddirStep::Fetch { remote } => {
                    &&& reg_has(old(self).registry@, ino)
                    &&& !old(self).cache@.contains_key(reg_path(old(self).registry@, ino))
                    &&& remote@ == remote_spec(reg_path(old(self).registry@, ino))
                    &&& final(self).registry == old(self).registry
                },
            },
    {
        let dir_path: String = match self.registry.path_of(ino) {
            Some(p) => p,
            None => {
                return ReaddirStep::NotFound;
            },
        };
        match self.cache.get_stale(dir_path.as_str()) {
            Some(entries) => {
                let page = self.build_dir_page(ino, dir_path.as_str(), &entries, offset);
                ReaddirStep::Entries(page)
            },
            None => ReaddirStep::Fetch { remote: remote_of(dir_path.as_str()) },
        }
    }

    /// Completion step of a readdir whose local step asked for a fetch.
    /// A successful listing is cached, stamped `now`, its rows are built,
    /// and the paths of its subdirectories are returned as prefetch
    /// seeds: a genuine cache miss is the one trigger of background
    /// prefetch. A failed fetch still answers the `.` and `..` rows so
    /// the directory is not reported broken, and seeds nothing.
    pub fn readdir_fetched(
        &mut self,
        ino: u64,
        offset: usize,
        fetched: Option<Vec<DavEntry>>,
        now: u64,
    ) -> (r: (ReaddirStep, Vec<String>))
        requires
            old(self).wf(),
            fetched is Some ==> old(self).registry@.len() + fetched->0@.len() < usize::MAX,
        ensures
            final(self).wf(),
            final(self).same_config(old(self)),
            reg_extends(final(self).registry@, old(self).registry@),
            match r.0 {
                ReaddirStep::Entries(v) => {
                    &&& reg_has(old(self).registry@, ino)
                    &&& {
                        let p = reg_path(old(self).registry@, ino);
                        if fetched is Some {
                            &&& final(self).cache@ == old(self).cache@.insert(
                                p,
                                CachedDirectory { entries: fetched->0, cached_at: now },
                            )
                            &&& readdir_page_ok(
                                final(self).registry@,
                                ino,
                                p,
                                fetched->0@,
                                offset as int,
                                v@,
                            )
                            &&& final(self).registry@.len() <= old(self).registry@.len()
                                + fetched->0@.len()
                            &&& r.1.deep_view() == crate::prefetch::subdir_paths_spec(p, fetched->0@)
                        } else {
                            &&& final(self).cache == old(self).cache
                            &&& final(self).registry@ == old(self).registry@
                            &&& readdir_page_ok(
                                final(self).registry@,
                                ino,
                                p,
                                Seq::<DavEntry>::empty(),
                                offset as int,
                                v@,
                            )
                            &&& r.1@.len() == 0
                        }
                    }
                },
                ReaddirStep::NotFound => {
                    &&& !reg_has(old(self).registry@, ino)
                    &&& *final(self) == *old(self)
                    &&& r.1@.len() == 0
                },
                ReaddirStep::Fetch { .. } => false,
            },
    {
        let dir_path: String = match self.registry.path_of(ino) {
            Some(p) => p,
            None => {
                return (ReaddirStep::NotFound, Vec::new());
            },
        };
        match fetched {
            Some(entries) => {
                let listing = clone_entries(&entries);
                self.cache.insert(dir_path.clone(), entries, now);
                let page = self.build_dir_page(ino, dir_path.as_str(), &listing, offset);
                let seeds = crate::prefetch::subdir_paths(dir_path.as_str(), &listing);
                (ReaddirStep::Entries(page), seeds)
            },
            None => {
                let empty: Vec<DavEntry> = Vec::new();
                let page = self.build_dir_page(ino, dir_path.as_str(), &empty, offset);
                proof {
                    assert(self.registry@ =~= old(self).registry@);
                }
                (ReaddirStep::Entries(page), Vec::new())
            },
        }
    }

    /// Opening always succeeds with a fixed placeholder handle and no
    /// flags: no real file-handle state is tracked, because content
    /// transfer is out of scope.
    pub fn open(&self, ino: u64) -> (r: (u64, u32))
        ensures
            r == (0u64, 0u32),
    {
        let _ = ino;
        (0, 0)
    }

    /// Reading always fails as unreachable, at any offset and size:
    /// content transfer is a deliberate boundary of the system, never
    /// retried and never worked around.
    pub fn read(&self, ino: u64, offset: i64, size: u32) -> (r: Result<Vec<u8>, FsError>)
        ensures
            r == Err::<Vec<u8>, FsError>(FsError::Unreachable),
    {
        let _ = ino;
        let _ = offset;
        let _ = size;
        Err(FsError::Unreachable)
    }

    /// Lists the one extended attribute the adapter exposes. A probe with
    /// size 0 reports the bytes needed for the name and its trailing NUL;
    /// a large enough buffer receives exactly that value.
    pub fn listxattr(&self, size: u32) -> (r: XattrReply)
        ensures
            match r {
                XattrReply::Size(n) => size == 0 && n == "user.davfs.state"@.len() + 1,
                XattrReply::Value(s) => size != 0 && size >= "user.davfs.state"@.len() + 1
                    && s@ == "user.davfs.state"@ + seq!['\0'],
                XattrReply::Range => 0 < size < "user.davfs.state"@.len() + 1,
                _ => false,
            },
    {
        proof {
            reveal_strlit("user.davfs.state");
            reveal_strlit("user.davfs.state\0");
        }
        let total: u32 = {
            let n: usize = "user.davfs.state".unicode_len();
            (n as u32) + 1
        };
        if size == 0 {
            XattrReply::Size(total)
        } else if size >= total {
            let value: String = "user.davfs.state\0".to_owned();
            proof {
                assert(value@ =~= "user.davfs.state"@ + seq!['\0']);
            }
            XattrReply::Value(value)
        } else {
            XattrReply::Range
        }
    }

    /// Answers a read of the `user.davfs.state` extended attribute with
    /// the inode's derived state. Any other attribute name holds no data;
    /// an inode never issued is not found; otherwise the probe/value/
    /// too-small protocol is as in `listxattr`.
    pub fn getxattr(&self, ino: u64, name: &str, size: u32) -> (r: XattrReply)
        requires
            self.wf(),
        ensures
            match r {
                XattrReply::NoData => name@ != "user.davfs.state"@,
                XattrReply::NotFound => name@ == "user.davfs.state"@ && !reg_has(
                    self.registry@,
                    ino,
                ),
                XattrReply::Size(n) => name@ == "user.davfs.state"@ && reg_has(
                    self.registry@,
                    ino,
                ) && size == 0 && n == xattr_state(self.registry@, self.cache@, ino).len(),
                XattrReply::Value(s) => name@ == "user.davfs.state"@ && reg_has(
                    self.registry@,
                    ino,
                ) && size != 0 && size >= xattr_state(self.registry@, self.cache@, ino).len()
                    && s@ == xattr_state(self.registry@, self.cache@, ino),
                XattrReply::Range => name@ == "user.davfs.state"@ && reg_has(
                    self.registry@,
                    ino,
                ) && 0 < size < xattr_state(self.registry@, self.cache@, ino).len(),
            },
    {
        let wanted: String = name.to_owned();
        let attr_name: String = "user.davfs.state".to_owned();
        if !(wanted == attr_name) {
            return XattrReply::NoData;
        }
        let path: String = match self.registry.path_of(ino) {
            Some(p) => p,
            None => {
                return XattrReply::NotFound;
            },
        };
        let state: String = if ino == ROOT_INO {
            "cached".to_owned()
        } else if ends_with_slash(path.as_str()) || self.cache.contains(path.as_str()) {
            "cached".to_owned()
        } else {
            let (parent, _leaf) = split_parent(path.as_str());
            if self.cache.contains(parent.as_str()) {
                "cloud".to_owned()
            } else {
                "unknown".to_owned()
            }
        };
        proof {
            reveal_strlit("cached");
            reveal_strlit("cloud");
            reveal_strlit("unknown");
            assert(state@ == xattr_state(self.registry@, self.cache@, ino));
            assert(state@.len() <= 7);
        }
        let vlen: u32 = state.as_str().unicode_len() as u32;
        if size == 0 {
            XattrReply::Size(vlen)
        } else if size >= vlen {
            XattrReply::Value(state)
        } else {
            XattrReply::Range
        }
    }
}

} // verus!
