//! Directory cache: a time-bounded cache of directory listings keyed by
//! filesystem path.
//!
//! Each entry is a listing paired with the instant it was fetched; entries
//! are immutable once inserted and are replaced, never mutated, by a later
//! fetch. Time enters as an explicit `now` argument so that freshness is a
//! property of plain values: an entry is fresh while `now - cached_at` is
//! below the cache's time-to-live. The freshness-checked read treats an
//! expired entry as absent without removing it; the staleness-tolerant
//! read returns it regardless of age, until it is explicitly evicted.

use vstd::prelude::*;
use vstd::hash_map::StringHashMap;
use vstd::seq_lib::group_seq_lib_default;
use crate::listing::DavEntry;
use crate::listing::clone_entries;

verus! {

broadcast use group_seq_lib_default;

/// A listing together with the instant (caller-supplied clock value) at
/// which it was fetched.
pub struct CachedDirectory {
    pub entries: Vec<DavEntry>,
    pub cached_at: u64,
}

/// An entry stamped `cached_at` is fresh at instant `now` for time-to-live
/// `ttl` while less than `ttl` has elapsed. A stamp in the caller's future
/// counts as fresh: no time has elapsed yet.
pub open spec fn is_fresh(cached_at: u64, now: u64, ttl: u64) -> bool {
    now - cached_at < ttl
}

/// The set of cached paths whose entries are no longer fresh at `now`.
pub open spec fn expired_keys(
    m: Map<Seq<char>, CachedDirectory>,
    now: u64,
    ttl: u64,
) -> Set<Seq<char>> {
    m.dom().filter(|k: Seq<char>| !is_fresh(m[k].cached_at, now, ttl))
}

/// Counts of cached directories by freshness.
pub struct CacheStats {
    pub total_directories: usize,
    pub expired_directories: usize,
    pub active_directories: usize,
}

pub struct DirectoryCache {
    map: StringHashMap<CachedDirectory>,
    keys: Vec<String>,
    ttl: u64,
}

impl View for DirectoryCache {
    type V = Map<Seq<char>, CachedDirectory>;

    closed spec fn view(&self) -> Map<Seq<char>, CachedDirectory> {
        self.map@
    }
}

impl DirectoryCache {
    /// The time-to-live this cache was created with.
    pub closed spec fn spec_ttl(&self) -> u64 {
        self.ttl
    }

    /// The key list mirrors the map's domain exactly and holds no
    /// duplicates, so the domain is finite and countable.
    pub closed spec fn wf(&self) -> bool {
        &&& self.keys.deep_view().no_duplicates()
        &&& self.map@.dom() == self.keys.deep_view().to_set()
    }

    /// A well-formed cache holds finitely many entries.
    pub proof fn lemma_wf_finite(&self)
        requires
            self.wf(),
        ensures
            self@.dom().finite(),
    {
        vstd::seq_lib::seq_to_set_is_finite::<Seq<char>>(self.keys.deep_view());
        self.keys.deep_view().unique_seq_to_set();
    }

    /// An empty cache with the given time-to-live.
    pub fn new(ttl: u64) -> (r: DirectoryCache)
        ensures
            r.wf(),
            r@ == Map::<Seq<char>, CachedDirectory>::empty(),
            r.spec_ttl() == ttl,
    {
        let r = DirectoryCache { map: StringHashMap::new(), keys: Vec::new(), ttl };
        proof {
            assert(r.keys.deep_view() =~= Seq::<Seq<char>>::empty());
            assert(r.map@.dom() =~= r.keys.deep_view().to_set());
        }
        r
    }

    /// Freshness-checked read: the listing cached for `path`, provided it
    /// is still fresh at `now`. An expired entry behaves as absent but is
    /// not removed.
    pub fn get(&self, path: &str, now: u64) -> (r: Option<Vec<DavEntry>>)
        requires
            self.wf(),
        ensures
            match r {
                Some(v) => self@.contains_key(path@) && is_fresh(
                    self@[path@].cached_at,
                    now,
                    self.spec_ttl(),
                ) && v@ == self@[path@].entries@,
                None => !self@.contains_key(path@) || !is_fresh(
                    self@[path@].cached_at,
                    now,
                    self.spec_ttl(),
                ),
            },
    {
        match self.map.get(path) {
            Some(cached) => {
                let elapsed_ok: bool = if now >= cached.cached_at {
                    now - cached.cached_at < self.ttl
                } else {
                    true
                };
                if elapsed_ok {
                    Some(clone_entries(&cached.entries))
                } else {
                    None
                }
            },
            None => None,
        }
    }

    /// Staleness-tolerant read: the listing cached for `path` regardless
    /// of its age; absent only if no entry exists at all.
    pub fn get_stale(&self, path: &str) -> (r: Option<Vec<DavEntry>>)
        requires
            self.wf(),
        ensures
            match r {
                Some(v) => self@.contains_key(path@) && v@ == self@[path@].entries@,
                None => !self@.contains_key(path@),
            },
    {
        match self.map.get(path) {
            Some(cached) => Some(clone_entries(&cached.entries)),
            None => None,
        }
    }

    /// Whether any entry, fresh or stale, exists for `path`.
    pub fn contains(&self, path: &str) -> (r: bool)
        ensures
            r == self@.contains_key(path@),
    {
        self.map.contains_key(path)
    }

    /// Inserts or replaces the entry for `path`, stamping it `now`.
    pub fn insert(&mut self, path: String, entries: Vec<DavEntry>, now: u64)
        requires
            old(self).wf(),
        ensures
            final(self).wf(),
            final(self)@ == old(self)@.insert(
                path@,
                CachedDirectory { entries, cached_at: now },
            ),
            final(self).spec_ttl() == old(self).spec_ttl(),
    {
        let already: bool = self.map.contains_key(path.as_str());
        if !already {
            self.keys.push(path.clone());
        }
        let stamped = CachedDirectory { entries, cached_at: now };
        self.map.insert(path, stamped);
        proof {
            let ks = old(self).keys.deep_view();
            if already {
                assert(self.map@.dom() =~= ks.to_set());
            } else {
                assert(self.keys.deep_view() =~= ks.push(path@));
                assert(!ks.to_set().contains(path@));
                ks.lemma_push_to_set_commute(path@);
                lemma_push_fresh_no_dup(ks, path@);
                assert(self.map@.dom() =~= self.keys.deep_view().to_set());
            }
        }
    }

    /// Removes the entry for `path`, if any.
    pub fn invalidate(&mut self, path: &str)
        requires
            old(self).wf(),
        ensures
            final(self).wf(),
            final(self)@ == old(self)@.remove(path@),
            final(self).spec_ttl() == old(self).spec_ttl(),
    {
        self.map.remove(path);
        let wanted: String = path.to_owned();
        let n: usize = self.keys.len();
        let mut i: usize = 0;
        while i < n
            invariant
                old(self).wf(),
                n == self.keys.len(),
                i <= n,
                wanted@ == path@,
                self.map@ == old(self).map@.remove(path@),
                self.ttl == old(self).ttl,
                self.keys == old(self).keys,
                forall|k: int| 0 <= k < i ==> self.keys.deep_view()[k] != path@,
            decreases n - i,
        {
            if self.keys[i] == wanted {
                assert(self.keys.deep_view()[i as int] == path@);
                self.keys.remove(i);
                proof {
                    lemma_remove_at(old(self).keys.deep_view(), i as int, path@);
                    assert(self.keys.deep_view() =~= old(self).keys.deep_view().remove(
                        i as int,
                    ));
                    assert(self.map@.dom() =~= self.keys.deep_view().to_set());
                }
                return;
            }
            i += 1;
        }
        proof {
            assert(!old(self).keys.deep_view().to_set().contains(path@));
            assert(self.map@.dom() =~= self.keys.deep_view().to_set());
        }
    }

    /// Removes every entry.
    pub fn clear(&mut self)
        requires
            old(self).wf(),
        ensures
            final(self).wf(),
            final(self)@ == Map::<Seq<char>, CachedDirectory>::empty(),
            final(self).spec_ttl() == old(self).spec_ttl(),
    {
        self.map.clear();
        self.keys.clear();
        proof {
            assert(self.keys.deep_view() =~= Seq::<Seq<char>>::empty());
            assert(self.map@.dom() =~= self.keys.deep_view().to_set());
        }
    }

    /// Counts the cached directories by freshness at instant `now`.
    pub fn stats(&self, now: u64) -> (r: CacheStats)
        requires
            self.wf(),
        ensures
            r.total_directories == self@.len(),
            r.expired_directories == expired_keys(self@, now, self.spec_ttl()).len(),
            r.active_directories == r.total_directories - r.expired_directories,
            r.expired_directories <= r.total_directories,
    {
        proof {
            self.lemma_wf_finite();
        }
        let total: usize = self.map.len();
        let ghost kseq = self.keys.deep_view();
        let n: usize = self.keys.len();
        let mut expired: usize = 0;
        let mut i: usize = 0;
        proof {
            assert(kseq.take(0).to_set() =~= Set::<Seq<char>>::empty());
            assert(expired_in(kseq.take(0), self@, now, self.ttl) =~= Set::<Seq<char>>::empty());
        }
        while i < n
            invariant
                self.wf(),
                kseq == self.keys.deep_view(),
                n == kseq.len(),
                n == self.keys.len(),
                i <= n,
                expired <= i,
                expired == expired_in(kseq.take(i as int), self@, now, self.spec_ttl()).len(),
                expired_in(kseq.take(i as int), self@, now, self.spec_ttl()).finite(),
            decreases n - i,
        {
            let ghost before = expired_in(kseq.take(i as int), self@, now, self.ttl);
            let key = &self.keys[i];
            proof {
                assert(kseq[i as int] == key@);
                assert(kseq.to_set().contains(key@));
                assert(self@.contains_key(key@));
            }
            let cached = self.map.get(key.as_str()).unwrap();
            let is_expired: bool = if now >= cached.cached_at {
                now - cached.cached_at >= self.ttl
            } else {
                false
            };
            proof {
                assert(kseq.take(i as int + 1) =~= kseq.take(i as int).push(kseq[i as int]));
                lemma_expired_in_push(kseq.take(i as int), kseq[i as int], self@, now, self.ttl);
                if is_expired {
                    assert(!before.contains(key@)) by {
                        if before.contains(key@) {
                            let j = choose|j: int|
                                0 <= j < i && kseq.take(i as int)[j] == key@;
                            assert(kseq[j] == kseq[i as int]);
                        }
                    }
                    assert(expired_in(kseq.take(i as int + 1), self@, now, self.ttl)
                        =~= before.insert(key@));
                } else {
                    assert(expired_in(kseq.take(i as int + 1), self@, now, self.ttl) =~= before);
                }
            }
            if is_expired {
                expired += 1;
            }
            i += 1;
        }
        proof {
            assert(kseq.take(n as int) =~= kseq);
            assert(expired_in(kseq, self@, now, self.ttl) =~= expired_keys(
                self@,
                now,
                self.ttl,
            ));
            vstd::set_lib::lemma_len_subset(
                expired_keys(self@, now, self.ttl),
                self@.dom(),
            );
        }
        CacheStats {
            total_directories: total,
            expired_directories: expired,
            active_directories: total - expired,
        }
    }
}

/// The expired keys among the first elements of a key sequence; a helper
/// for counting them one key at a time.
pub open spec fn expired_in(
    keys: Seq<Seq<char>>,
    m: Map<Seq<char>, CachedDirectory>,
    now: u64,
    ttl: u64,
) -> Set<Seq<char>> {
    keys.to_set().filter(|k: Seq<char>| m.contains_key(k) && !is_fresh(m[k].cached_at, now, ttl))
}

proof fn lemma_expired_in_push(
    keys: Seq<Seq<char>>,
    k: Seq<char>,
    m: Map<Seq<char>, CachedDirectory>,
    now: u64,
    ttl: u64,
)
    ensures
        m.contains_key(k) && !is_fresh(m[k].cached_at, now, ttl) ==> expired_in(
            keys.push(k),
            m,
            now,
            ttl,
        ) =~= expired_in(keys, m, now, ttl).insert(k),
        !(m.contains_key(k) && !is_fresh(m[k].cached_at, now, ttl)) ==> expired_in(
            keys.push(k),
            m,
            now,
            ttl,
        ) =~= expired_in(keys, m, now, ttl),
{
    keys.lemma_push_to_set_commute(k);
}

/// Appending a value that a duplicate-free sequence does not contain keeps
/// it duplicate-free.
proof fn lemma_push_fresh_no_dup(keys: Seq<Seq<char>>, k: Seq<char>)
    requires
        keys.no_duplicates(),
        !keys.contains(k),
    ensures
        keys.push(k).no_duplicates(),
{
    let p = keys.push(k);
    assert forall|i: int, j: int| 0 <= i < j < p.len() implies p[i] != p[j] by {
        if j == keys.len() {
            assert(p[i] == keys[i]);
        }
    }
}

/// Removing the only occurrence of a value from a duplicate-free sequence
/// removes exactly that value from the sequence's set of elements.
proof fn lemma_remove_at(keys: Seq<Seq<char>>, i: int, k: Seq<char>)
    requires
        keys.no_duplicates(),
        0 <= i < keys.len(),
        keys[i] == k,
    ensures
        keys.remove(i).no_duplicates(),
        keys.remove(i).to_set() =~= keys.to_set().remove(k),
        !keys.remove(i).to_set().contains(k),
{
    let r = keys.remove(i);
    assert forall|x: Seq<char>| r.to_set().contains(x) implies keys.to_set().contains(x)
        && x != k by {
        let j = choose|j: int| 0 <= j < r.len() && r[j] == x;
        if j < i {
            assert(keys[j] == x);
        } else {
            assert(keys[j + 1] == x);
        }
    }
    assert forall|x: Seq<char>| keys.to_set().contains(x) && x != k implies r.to_set().contains(
        x,
    ) by {
        let j = choose|j: int| 0 <= j < keys.len() && keys[j] == x;
        if j < i {
            assert(r[j] == x);
        } else {
            assert(j != i);
            assert(r[j - 1] == x);
        }
    }
}

/// Cache freshness: at any instant at least `ttl` past an entry's stamp,
/// the entry is no longer fresh, yet it is still present. By the contract
/// of [`DirectoryCache::get`] the freshness-checked read must then report
/// it absent, while by the contract of [`DirectoryCache::get_stale`] the
/// staleness-tolerant read must still return that same entry.
pub proof fn lemma_cache_freshness(c: DirectoryCache, p: Seq<char>, now: u64)
    requires
        c@.contains_key(p),
        now >= c@[p].cached_at + c.spec_ttl(),
    ensures
        !is_fresh(c@[p].cached_at, now, c.spec_ttl()),
        c@.contains_key(p),
{
}

} // verus!
