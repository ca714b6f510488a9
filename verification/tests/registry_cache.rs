use davfs_sync::cache::DirectoryCache;
use davfs_sync::listing::DavEntry;
use davfs_sync::registry::InodeRegistry;

fn dav_entry(name: &str, is_dir: bool, size: u64) -> DavEntry {
    DavEntry { name: name.to_string(), is_dir, size, modified: None }
}

#[test]
fn registry_root_is_inode_one() {
    let mut reg = InodeRegistry::new();
    assert_eq!(reg.resolve("/"), 1);
    assert_eq!(reg.path_of(1), Some("/".to_string()));
}

#[test]
fn registry_resolve_is_stable() {
    let mut reg = InodeRegistry::new();
    let a = reg.resolve("/Photos");
    let b = reg.resolve("/Photos");
    let c = reg.resolve("/Photos");
    assert_eq!(a, b);
    assert_eq!(b, c);
}

#[test]
fn registry_distinct_paths_distinct_inodes() {
    let mut reg = InodeRegistry::new();
    let a = reg.resolve("/Photos");
    let b = reg.resolve("/Documents");
    let c = reg.resolve("/Photos/2024");
    assert_ne!(a, b);
    assert_ne!(a, c);
    assert_ne!(b, c);
}

#[test]
fn registry_allocation_is_monotonic() {
    let mut reg = InodeRegistry::new();
    let a = reg.resolve("/a");
    let b = reg.resolve("/b");
    let _ = reg.resolve("/a");
    let c = reg.resolve("/c");
    assert_eq!(a, 2);
    assert_eq!(b, 3);
    assert_eq!(c, 4);
    assert!(a < b && b < c);
}

#[test]
fn registry_never_reassigns_inode_one() {
    let mut reg = InodeRegistry::new();
    for (i, p) in ["/x", "/y", "/z"].iter().enumerate() {
        let ino = reg.resolve(p);
        assert_eq!(ino, i as u64 + 2);
        assert_ne!(ino, 1);
    }
}

#[test]
fn registry_path_of_never_allocates() {
    let reg = InodeRegistry::new();
    assert_eq!(reg.path_of(2), None);
    assert_eq!(reg.path_of(0), None);
    assert_eq!(reg.len(), 1);
}

#[test]
fn cache_fresh_read_within_ttl() {
    let mut cache = DirectoryCache::new(5000);
    cache.insert("/a".to_string(), vec![dav_entry("x.txt", false, 7)], 1000);
    let got = cache.get("/a", 2000).expect("fresh entry expected");
    assert_eq!(got.len(), 1);
    assert_eq!(got[0].name, "x.txt");
    assert_eq!(got[0].size, 7);
}

#[test]
fn cache_fresh_read_expires_but_stale_read_survives() {
    let mut cache = DirectoryCache::new(5000);
    cache.insert("/a".to_string(), vec![dav_entry("x.txt", false, 7)], 1000);
    // exactly at the ttl boundary the entry is no longer fresh
    assert!(cache.get("/a", 6000).is_none());
    assert!(cache.get("/a", 99_000).is_none());
    // the staleness-tolerant read still returns that same entry
    let stale = cache.get_stale("/a").expect("stale entry expected");
    assert_eq!(stale.len(), 1);
    assert_eq!(stale[0].name, "x.txt");
}

#[test]
fn cache_absent_path_is_absent_for_both_reads() {
    let cache = DirectoryCache::new(5000);
    assert!(cache.get("/nope", 0).is_none());
    assert!(cache.get_stale("/nope").is_none());
}

#[test]
fn cache_insert_replaces_and_restamps() {
    let mut cache = DirectoryCache::new(5000);
    cache.insert("/a".to_string(), vec![dav_entry("old", false, 1)], 0);
    assert!(cache.get("/a", 6000).is_none());
    cache.insert("/a".to_string(), vec![dav_entry("new", true, 0)], 6000);
    let got = cache.get("/a", 7000).expect("replaced entry is fresh again");
    assert_eq!(got.len(), 1);
    assert_eq!(got[0].name, "new");
    assert!(got[0].is_dir);
}

#[test]
fn cache_invalidate_removes_one_path() {
    let mut cache = DirectoryCache::new(5000);
    cache.insert("/a".to_string(), vec![dav_entry("x", false, 0)], 0);
    cache.insert("/b".to_string(), vec![dav_entry("y", false, 0)], 0);
    cache.invalidate("/a");
    assert!(cache.get_stale("/a").is_none());
    assert!(cache.get_stale("/b").is_some());
}

#[test]
fn cache_clear_removes_everything() {
    let mut cache = DirectoryCache::new(5000);
    cache.insert("/a".to_string(), vec![], 0);
    cache.insert("/b".to_string(), vec![], 0);
    cache.clear();
    assert!(cache.get_stale("/a").is_none());
    assert!(cache.get_stale("/b").is_none());
    let stats = cache.stats(0);
    assert_eq!(stats.total_directories, 0);
}

#[test]
fn cache_stats_count_by_freshness() {
    let mut cache = DirectoryCache::new(5000);
    cache.insert("/old".to_string(), vec![], 0);
    cache.insert("/older".to_string(), vec![], 100);
    cache.insert("/new".to_string(), vec![], 9000);
    let stats = cache.stats(10_000);
    assert_eq!(stats.total_directories, 3);
    assert_eq!(stats.expired_directories, 2);
    assert_eq!(stats.active_directories, 1);
}
