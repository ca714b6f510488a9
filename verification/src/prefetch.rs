//! Prefetcher: a depth-bounded walker that warms the directory cache
//! ahead of foreground demand.
//!
//! The walker holds a queue of candidate directories, each with its depth
//! from the seeding point. The unverified shell drives it: it asks for
//! the next target, performs the one listing call, and hands the outcome
//! back; a failed fetch simply ends that branch. The demand walker skips
//! any path that already has a cache entry, fresh or stale — prefetch
//! never refreshes, only fills gaps. The initial walker, run once at
//! mount start, fetches unconditionally: the root, its directories, and
//! a bounded number of directories beneath each of those.

use vstd::prelude::*;
use crate::cache::CachedDirectory;
use crate::cache::DirectoryCache;
use crate::listing::DavEntry;
use crate::paths::join_child;
use crate::paths::join_spec;

verus! {

/// Depth bound of the demand walker: directories more than this many
/// levels below the seeding directory are not walked.
pub const DEMAND_DEPTH_LIMIT: u32 = 4;

/// Depth bound of the initial walker: the root and two levels below it.
pub const INITIAL_DEPTH_LIMIT: u32 = 3;

/// Bounded fan-out of the initial walker below the first level.
pub const INITIAL_FANOUT: usize = 5;

/// The full paths of the subdirectories named in `listing`, under the
/// directory `dir`, in listing order.
pub open spec fn subdir_paths_spec(dir: Seq<char>, listing: Seq<DavEntry>) -> Seq<Seq<char>>
    decreases listing.len(),
{
    if listing.len() == 0 {
        Seq::empty()
    } else {
        subdir_paths_spec(dir, listing.drop_last()) + if listing.last().is_dir {
            seq![join_spec(dir, listing.last().name@)]
        } else {
            Seq::empty()
        }
    }
}

/// Computes the full paths of the subdirectories in `listing`.
pub fn subdir_paths(dir: &str, listing: &Vec<DavEntry>) -> (r: Vec<String>)
    ensures
        r.deep_view() == subdir_paths_spec(dir@, listing@),
{
    let mut r: Vec<String> = Vec::new();
    let n: usize = listing.len();
    let mut i: usize = 0;
    proof {
        assert(listing@.take(0) =~= Seq::<DavEntry>::empty());
        assert(r.deep_view() =~= Seq::<Seq<char>>::empty());
    }
    while i < n
        invariant
            n == listing@.len(),
            i <= n,
            r.deep_view() == subdir_paths_spec(dir@, listing@.take(i as int)),
        decreases n - i,
    {
        let ghost before = r.deep_view();
        if listing[i].is_dir {
            r.push(join_child(dir, listing[i].name.as_str()));
            proof {
                assert(r.deep_view() =~= before.push(join_spec(dir@, listing@[i as int].name@)));
                assert(before.push(join_spec(dir@, listing@[i as int].name@)) =~= before
                    + seq![join_spec(dir@, listing@[i as int].name@)]);
            }
        } else {
            proof {
                assert(before + Seq::<Seq<char>>::empty() =~= before);
            }
        }
        proof {
            assert(listing@.take(i as int + 1).drop_last() =~= listing@.take(i as int));
            assert(listing@.take(i as int + 1).last() == listing@[i as int]);
        }
        i += 1;
    }
    proof {
        assert(listing@.take(n as int) =~= listing@);
    }
    r
}

/// How many of a directory's subdirectories the walker enqueues: all of
/// them from the seeding level, at most the fan-out bound below it.
pub open spec fn enqueue_limit(depth: u32, fanout: nat, count: nat) -> nat {
    if depth == 0 {
        count
    } else if fanout < count {
        fanout
    } else {
        count
    }
}

/// A depth-bounded prefetch walk in progress: the queue of candidate
/// directories still to visit, each with its depth.
pub struct Prefetcher {
    queue: Vec<(String, u32)>,
    max_depth: u32,
    skip_cached: bool,
    fanout: usize,
}

impl Prefetcher {
    /// The queued candidates, each a path with its depth.
    pub closed spec fn queue_view(&self) -> Seq<(Seq<char>, u32)> {
        self.queue@.map_values(|e: (String, u32)| (e.0@, e.1))
    }

    /// The walker's depth bound.
    pub closed spec fn spec_max_depth(&self) -> u32 {
        self.max_depth
    }

    /// Whether the walker skips paths that already have a cache entry.
    pub closed spec fn skips_cached(&self) -> bool {
        self.skip_cached
    }

    /// The walker's fan-out bound below the seeding level.
    pub closed spec fn spec_fanout(&self) -> nat {
        self.fanout as nat
    }

    /// The fixed policy of a walker: its bounds never change.
    pub open spec fn same_policy(&self, other: &Prefetcher) -> bool {
        &&& self.spec_max_depth() == other.spec_max_depth()
        &&& self.skips_cached() == other.skips_cached()
        &&& self.spec_fanout() == other.spec_fanout()
    }

    /// Whether a queued candidate is worth fetching under this walker's
    /// policy: its depth is below the bound and — for a walker that skips
    /// cached paths — no cache entry of any age exists for it.
    pub open spec fn eligible(
        &self,
        cache: Map<Seq<char>, CachedDirectory>,
        t: (Seq<char>, u32),
    ) -> bool {
        &&& t.1 < self.spec_max_depth()
        &&& (self.skips_cached() ==> !cache.contains_key(t.0))
    }

    /// The demand walker, seeded after a foreground cache miss with the
    /// missed directory's subdirectories: it skips anything already
    /// cached and walks at most the demand depth bound.
    pub fn new_demand(seeds: Vec<String>) -> (r: Prefetcher)
        ensures
            r.spec_max_depth() == DEMAND_DEPTH_LIMIT,
            r.skips_cached(),
            r.queue_view().len() == seeds.deep_view().len(),
            forall|i: int|
                0 <= i < seeds.deep_view().len() ==> r.queue_view()[i] == (
                    seeds.deep_view()[i],
                    1u32,
                ),
    {
        let mut queue: Vec<(String, u32)> = Vec::new();
        let n: usize = seeds.len();
        let mut seeds = seeds;
        let mut i: usize = 0;
        while i < n
            invariant
                n == seeds.len(),
                i <= n,
                queue@.len() == i,
                forall|k: int|
                    0 <= k < i ==> #[trigger] queue@[k].0@ == seeds.deep_view()[k]
                        && queue@[k].1 == 1u32,
            decreases n - i,
        {
            let s = seeds[i].clone();
            queue.push((s, 1));
            i += 1;
        }
        let r = Prefetcher {
            queue,
            max_depth: DEMAND_DEPTH_LIMIT,
            skip_cached: true,
            fanout: usize::MAX,
        };
        proof {
            assert forall|i: int| 0 <= i < seeds.deep_view().len() implies r.queue_view()[i]
                == (seeds.deep_view()[i], 1u32) by {
                assert(r.queue_view()[i] == (r.queue@[i].0@, r.queue@[i].1));
            }
        }
        r
    }

    /// The initial walker, run once at mount start: it fetches
    /// unconditionally, starting at the root, down to the initial depth
    /// bound, with bounded fan-out below the first level.
    pub fn new_initial() -> (r: Prefetcher)
        ensures
            r.spec_max_depth() == INITIAL_DEPTH_LIMIT,
            !r.skips_cached(),
            r.spec_fanout() == INITIAL_FANOUT,
            r.queue_view() == seq![("/"@, 0u32)],
    {
        let mut queue: Vec<(String, u32)> = Vec::new();
        queue.push(("/".to_owned(), 0));
        let r = Prefetcher {
            queue,
            max_depth: INITIAL_DEPTH_LIMIT,
            skip_cached: false,
            fanout: INITIAL_FANOUT,
        };
        proof {
            assert(r.queue_view() =~= seq![("/"@, 0u32)]);
        }
        r
    }

    /// Picks the next directory to fetch: the most recently queued
    /// eligible candidate. Ineligible candidates — at or beyond the depth
    /// bound or, for a walker that skips cached paths, already holding a
    /// cache entry of any age — are discarded on the way, and only they
    /// are: a returned target is eligible, everything behind it in the
    /// queue was ineligible, and nothing is returned only once every
    /// queued candidate has been found ineligible. So no fetch is ever
    /// issued for a path already present.
    pub fn next_target(&mut self, cache: &DirectoryCache) -> (r: Option<(String, u32)>)
        ensures
            final(self).same_policy(old(self)),
            match r {
                Some(t) => {
                    let q = old(self).queue_view();
                    let j = final(self).queue_view().len() as int;
                    &&& j < q.len()
                    &&& (t.0@, t.1) == q[j]
                    &&& old(self).eligible(cache@, q[j])
                    &&& final(self).queue_view() == q.take(j)
                    &&& forall|k: int|
                        j < k < q.len() ==> !old(self).eligible(cache@, #[trigger] q[k])
                    &&& t.1 < old(self).spec_max_depth()
                    &&& (old(self).skips_cached() ==> !cache@.contains_key(t.0@))
                },
                None => {
                    &&& final(self).queue_view().len() == 0
                    &&& forall|k: int|
                        0 <= k < old(self).queue_view().len() ==> !old(self).eligible(
                            cache@,
                            #[trigger] old(self).queue_view()[k],
                        )
                },
            },
    {
        let ghost q0 = old(self).queue_view();
        proof {
            assert(self.queue_view() =~= q0.take(self.queue_view().len() as int));
        }
        loop
            invariant
                q0 == old(self).queue_view(),
                self.same_policy(old(self)),
                self.queue_view().len() <= q0.len(),
                self.queue_view() == q0.take(self.queue_view().len() as int),
                forall|k: int|
                    self.queue_view().len() <= k < q0.len() ==> !old(self).eligible(
                        cache@,
                        #[trigger] q0[k],
                    ),
            decreases self.queue@.len(),
        {
            let ghost pre = self.queue_view();
            let popped = self.queue.pop();
            match popped {
                None => {
                    return None;
                },
                Some(t) => {
                    proof {
                        assert(pre.len() >= 1);
                        assert((t.0@, t.1) == pre[pre.len() - 1]);
                        assert(q0[pre.len() - 1] == pre[pre.len() - 1]);
                        assert(self.queue_view() =~= pre.take(pre.len() - 1));
                        assert(self.queue_view() =~= q0.take(
                            self.queue_view().len() as int,
                        ));
                    }
                    let in_depth: bool = t.1 < self.max_depth;
                    let usable: bool = if !in_depth {
                        false
                    } else if self.skip_cached {
                        !cache.contains(t.0.as_str())
                    } else {
                        true
                    };
                    if usable {
                        proof {
                            assert(old(self).eligible(cache@, q0[pre.len() - 1]));
                        }
                        return Some(t);
                    }
                    proof {
                        assert(!old(self).eligible(cache@, q0[pre.len() - 1]));
                    }
                },
            }
        }
    }

    /// Records the outcome of a successful fetch: the listing is cached
    /// under `path`, stamped `now`, and if the next level is still within
    /// the depth bound, the listing's subdirectories are enqueued at
    /// `depth + 1` — all of them from the seeding level, at most the
    /// fan-out bound below it.
    pub fn record_listing(
        &mut self,
        path: String,
        depth: u32,
        entries: Vec<DavEntry>,
        cache: &mut DirectoryCache,
        now: u64,
    )
        requires
            old(cache).wf(),
            depth < old(self).spec_max_depth(),
        ensures
            final(cache).wf(),
            final(cache)@ == old(cache)@.insert(
                path@,
                crate::cache::CachedDirectory { entries, cached_at: now },
            ),
            final(cache).spec_ttl() == old(cache).spec_ttl(),
            final(self).same_policy(old(self)),
            ({
                let subs = subdir_paths_spec(path@, entries@);
                let k = enqueue_limit(depth, old(self).spec_fanout(), subs.len());
                if depth + 1 < old(self).spec_max_depth() {
                    final(self).queue_view() == old(self).queue_view() + Seq::new(
                        k,
                        |i: int| (subs[i], (depth + 1) as u32),
                    )
                } else {
                    final(self).queue_view() == old(self).queue_view()
                }
            }),
    {
        let subs = subdir_paths(path.as_str(), &entries);
        let ghost subs_v = subdir_paths_spec(path@, entries@);
        cache.insert(path, entries, now);
        if depth + 1 < self.max_depth {
            let limit: usize = if depth == 0 {
                subs.len()
            } else if self.fanout < subs.len() {
                self.fanout
            } else {
                subs.len()
            };
            proof {
                assert(limit == enqueue_limit(depth, self.spec_fanout(), subs_v.len()));
            }
            let mut i: usize = 0;
            let mut subs = subs;
            proof {
                assert(self.queue_view() =~= old(self).queue_view() + Seq::new(
                    0nat,
                    |k: int| (subs_v[k], (depth + 1) as u32),
                ));
            }
            while i < limit
                invariant
                    limit <= subs.len(),
                    subs.deep_view() == subs_v,
                    i <= limit,
                    self.same_policy(old(self)),
                    depth + 1 < self.spec_max_depth(),
                    self.queue_view() == old(self).queue_view() + Seq::new(
                        i as nat,
                        |k: int| (subs_v[k], (depth + 1) as u32),
                    ),
                decreases limit - i,
            {
                let s = subs[i].clone();
                self.queue.push((s, depth + 1));
                proof {
                    assert(s@ == subs_v[i as int]);
                    assert(self.queue_view() =~= (old(self).queue_view() + Seq::new(
                        i as nat,
                        |k: int| (subs_v[k], (depth + 1) as u32),
                    )).push((subs_v[i as int], (depth + 1) as u32)));
                    assert((old(self).queue_view() + Seq::new(
                        i as nat,
                        |k: int| (subs_v[k], (depth + 1) as u32),
                    )).push((subs_v[i as int], (depth + 1) as u32)) =~= old(self).queue_view()
                        + Seq::new((i + 1) as nat, |k: int| (subs_v[k], (depth + 1) as u32)));
                }
                i += 1;
            }
        } else {
            proof {
                assert(self.queue_view() == old(self).queue_view());
            }
        }
    }
}

} // verus!
