use davfs_sync::cache::DirectoryCache;
use davfs_sync::listing::DavEntry;
use davfs_sync::paths::join_child;
use davfs_sync::paths::remote_of;
use davfs_sync::paths::split_parent;
use davfs_sync::prefetch::Prefetcher;
use davfs_sync::prefetch::subdir_paths;

fn mk_entry(name: &str, is_dir: bool, size: u64) -> DavEntry {
    DavEntry { name: name.to_string(), is_dir, size, modified: None }
}

#[test]
fn join_rule_for_root_and_nested() {
    assert_eq!(join_child("/", "Photos"), "/Photos");
    assert_eq!(join_child("/Photos", "2024"), "/Photos/2024");
    assert_eq!(join_child("/Photos/2024", "img.jpg"), "/Photos/2024/img.jpg");
}

#[test]
fn split_parent_cases() {
    assert_eq!(split_parent("/Photos"), ("/".to_string(), "Photos".to_string()));
    assert_eq!(split_parent("/Photos/2024"), ("/Photos".to_string(), "2024".to_string()));
    assert_eq!(split_parent("/a/b/c"), ("/a/b".to_string(), "c".to_string()));
    assert_eq!(split_parent("plain"), ("/".to_string(), "plain".to_string()));
    assert_eq!(split_parent("/"), ("/".to_string(), "".to_string()));
}

#[test]
fn remote_form_drops_leading_slash() {
    assert_eq!(remote_of("/"), "");
    assert_eq!(remote_of("/Photos"), "Photos");
    assert_eq!(remote_of("/Photos/2024"), "Photos/2024");
    assert_eq!(remote_of(""), "");
}

#[test]
fn subdir_paths_filters_and_joins() {
    let listing = vec![
        mk_entry("a", true, 0),
        mk_entry("f.txt", false, 1),
        mk_entry("b", true, 0),
    ];
    assert_eq!(subdir_paths("/", &listing), vec!["/a".to_string(), "/b".to_string()]);
    assert_eq!(
        subdir_paths("/d", &listing),
        vec!["/d/a".to_string(), "/d/b".to_string()]
    );
}

#[test]
fn demand_walker_skips_cached_paths() {
    let mut cache = DirectoryCache::new(5000);
    cache.insert("/a".to_string(), vec![], 0);
    let mut walker = Prefetcher::new_demand(vec!["/a".to_string(), "/b".to_string()]);
    // "/a" already has a cache entry, so no fetch is ever issued for it:
    // the only target the walker yields is "/b"
    let t = walker.next_target(&cache).expect("one target expected");
    assert_eq!(t.0, "/b");
    assert_eq!(t.1, 1);
    assert!(walker.next_target(&cache).is_none());
}

#[test]
fn demand_walker_yields_most_recently_queued_first() {
    let cache = DirectoryCache::new(5000);
    let mut walker = Prefetcher::new_demand(vec!["/a".to_string(), "/b".to_string()]);
    let first = walker.next_target(&cache).expect("a target");
    let second = walker.next_target(&cache).expect("a target");
    assert_eq!(first.0, "/b");
    assert_eq!(second.0, "/a");
    assert!(walker.next_target(&cache).is_none());
}

#[test]
fn demand_walker_skips_stale_entries_too() {
    let mut cache = DirectoryCache::new(5);
    cache.insert("/a".to_string(), vec![], 0);
    // far past the ttl the entry is stale, yet prefetch still skips it
    assert!(cache.get("/a", 1_000_000).is_none());
    let mut walker = Prefetcher::new_demand(vec!["/a".to_string()]);
    assert!(walker.next_target(&cache).is_none());
}

#[test]
fn demand_walker_stops_at_depth_bound() {
    let mut cache = DirectoryCache::new(5000);
    let mut walker = Prefetcher::new_demand(vec!["/a".to_string()]);
    // depth 1: fetch /a, whose listing nests one directory per level
    let (p1, d1) = walker.next_target(&cache).expect("depth 1");
    assert_eq!((p1.as_str(), d1), ("/a", 1));
    walker.record_listing(p1, d1, vec![mk_entry("b", true, 0)], &mut cache, 0);
    let (p2, d2) = walker.next_target(&cache).expect("depth 2");
    assert_eq!((p2.as_str(), d2), ("/a/b", 2));
    walker.record_listing(p2, d2, vec![mk_entry("c", true, 0)], &mut cache, 0);
    let (p3, d3) = walker.next_target(&cache).expect("depth 3");
    assert_eq!((p3.as_str(), d3), ("/a/b/c", 3));
    walker.record_listing(p3, d3, vec![mk_entry("d", true, 0)], &mut cache, 0);
    // the child at depth 4 reaches the bound: it is never fetched
    assert!(walker.next_target(&cache).is_none());
}

#[test]
fn record_listing_populates_cache_and_queue() {
    let mut cache = DirectoryCache::new(5000);
    let mut walker = Prefetcher::new_demand(vec!["/a".to_string()]);
    let (p, d) = walker.next_target(&cache).expect("target");
    let listing = vec![mk_entry("sub", true, 0), mk_entry("f", false, 3)];
    walker.record_listing(p, d, listing, &mut cache, 123);
    let cached = cache.get("/a", 123).expect("listing cached");
    assert_eq!(cached.len(), 2);
    // the subdirectory was enqueued and is the next target
    let (p2, d2) = walker.next_target(&cache).expect("enqueued child");
    assert_eq!((p2.as_str(), d2), ("/a/sub", 2));
}

#[test]
fn initial_walker_starts_at_root_unconditionally() {
    let mut cache = DirectoryCache::new(5000);
    cache.insert("/".to_string(), vec![], 0);
    let mut walker = Prefetcher::new_initial();
    // the initial walk does not skip cached paths
    let (p, d) = walker.next_target(&cache).expect("the root");
    assert_eq!((p.as_str(), d), ("/", 0));
}

#[test]
fn initial_walker_bounds_fanout_below_first_level() {
    let mut cache = DirectoryCache::new(5000);
    let mut walker = Prefetcher::new_initial();
    let (root, d0) = walker.next_target(&cache).expect("the root");
    // seven top-level directories: all are enqueued from the root
    let top: Vec<DavEntry> = (0..7).map(|i| mk_entry(&format!("d{}", i), true, 0)).collect();
    walker.record_listing(root, d0, top, &mut cache, 0);
    let mut level1 = Vec::new();
    let mut queued_deeper = 0;
    while let Some((p, d)) = walker.next_target(&cache) {
        if d == 1 {
            level1.push(p.clone());
            // each first-level directory also holds seven subdirectories,
            // but only five per directory are enqueued below that level
            let sub: Vec<DavEntry> =
                (0..7).map(|i| mk_entry(&format!("s{}", i), true, 0)).collect();
            walker.record_listing(p, d, sub, &mut cache, 0);
        } else {
            assert_eq!(d, 2);
            queued_deeper += 1;
            // depth 2 is the last fetched level: its children are not
            // enqueued because depth 3 reaches the bound
            walker.record_listing(p, d, vec![mk_entry("deep", true, 0)], &mut cache, 0);
        }
    }
    assert_eq!(level1.len(), 7);
    assert_eq!(queued_deeper, 7 * 5);
}
