use davfs_sync::attr::FileKind;
use davfs_sync::filesystem::AttrStep;
use davfs_sync::filesystem::DavFs;
use davfs_sync::filesystem::FsError;
use davfs_sync::filesystem::LookupStep;
use davfs_sync::filesystem::ReaddirStep;
use davfs_sync::filesystem::XattrReply;
use davfs_sync::listing::DavEntry;

fn entry(name: &str, is_dir: bool, size: u64) -> DavEntry {
    DavEntry { name: name.to_string(), is_dir, size, modified: None }
}

fn root_listing() -> Vec<DavEntry> {
    vec![entry("Photos", true, 0), entry("notes.txt", false, 42)]
}

#[test]
fn scenario_mount_root_with_photos_and_notes() {
    let mut fs = DavFs::new(1000, 1000);

    // the first lookup has nothing cached: it asks for the root's remote
    // listing, which is the empty remote path
    let step = fs.lookup_local(1, "Photos");
    match step {
        LookupStep::Fetch { remote } => assert_eq!(remote, ""),
        _ => panic!("expected a fetch"),
    }

    // the fetched listing answers the lookup: Photos is inode 2, a directory
    match fs.lookup_fetched(1, "Photos", Some(root_listing()), 0) {
        LookupStep::Found { ino, attr } => {
            assert_eq!(ino, 2);
            assert_eq!(attr.ino, 2);
            assert_eq!(attr.kind, FileKind::Directory);
            assert_eq!(attr.perm, 0o755);
            assert_eq!(attr.nlink, 2);
            assert_eq!(attr.uid, 1000);
            assert_eq!(attr.gid, 1000);
        },
        _ => panic!("expected Photos to be found"),
    }

    // the root listing is now cached, so the next lookup answers locally:
    // notes.txt is inode 3, a 42-byte file
    match fs.lookup_local(1, "notes.txt") {
        LookupStep::Found { ino, attr } => {
            assert_eq!(ino, 3);
            assert_eq!(attr.kind, FileKind::RegularFile);
            assert_eq!(attr.size, 42);
            assert_eq!(attr.blocks, 1);
            assert_eq!(attr.perm, 0o644);
            assert_eq!(attr.nlink, 1);
        },
        _ => panic!("expected notes.txt to be found"),
    }

    // reading file content fails as unreachable regardless of offset
    assert_eq!(fs.read(3, 0, 4096), Err(FsError::Unreachable));
    assert_eq!(fs.read(3, 10_000, 1), Err(FsError::Unreachable));
    assert_eq!(fs.open(3), (0, 0));

    // the root's own listing is cached, so its state reads "cached"
    match fs.getxattr(1, "user.davfs.state", 0) {
        XattrReply::Size(n) => assert_eq!(n, 6),
        _ => panic!("expected a size probe reply"),
    }
    match fs.getxattr(1, "user.davfs.state", 64) {
        XattrReply::Value(s) => assert_eq!(s, "cached"),
        _ => panic!("expected the state value"),
    }
}

#[test]
fn lookup_below_root_asks_for_the_remote_path() {
    let mut fs = DavFs::new(0, 0);
    let _ = fs.lookup_fetched(1, "Photos", Some(root_listing()), 0);
    let photos = match fs.lookup_local(1, "Photos") {
        LookupStep::Found { ino, .. } => ino,
        _ => panic!("expected Photos"),
    };
    // Photos' own listing is not cached: the fetch names its remote form,
    // the filesystem path without the leading slash
    match fs.lookup_local(photos, "img.jpg") {
        LookupStep::Fetch { remote } => assert_eq!(remote, "Photos"),
        _ => panic!("expected a fetch"),
    }
}

#[test]
fn lookup_unknown_parent_is_not_found() {
    let mut fs = DavFs::new(0, 0);
    assert!(matches!(fs.lookup_local(99, "x"), LookupStep::NotFound));
}

#[test]
fn lookup_fetch_failure_is_not_found() {
    let mut fs = DavFs::new(0, 0);
    assert!(matches!(fs.lookup_fetched(1, "x", None, 0), LookupStep::NotFound));
}

#[test]
fn lookup_missing_name_is_not_found() {
    let mut fs = DavFs::new(0, 0);
    assert!(matches!(
        fs.lookup_fetched(1, "gone", Some(root_listing()), 0),
        LookupStep::NotFound
    ));
}

#[test]
fn lookup_name_collision_first_match_wins() {
    let mut fs = DavFs::new(0, 0);
    let listing = vec![entry("twin", false, 11), entry("twin", true, 0)];
    match fs.lookup_fetched(1, "twin", Some(listing), 0) {
        LookupStep::Found { attr, .. } => {
            assert_eq!(attr.kind, FileKind::RegularFile);
            assert_eq!(attr.size, 11);
        },
        _ => panic!("expected the first twin"),
    }
}

#[test]
fn getattr_root_needs_no_listing() {
    let fs = DavFs::new(7, 8);
    match fs.getattr_local(1) {
        AttrStep::Attr(a) => {
            assert_eq!(a.ino, 1);
            assert_eq!(a.kind, FileKind::Directory);
            assert_eq!(a.uid, 7);
            assert_eq!(a.gid, 8);
        },
        _ => panic!("root always has attributes"),
    }
}

#[test]
fn getattr_falls_back_to_generic_file_on_total_failure() {
    let mut fs = DavFs::new(0, 0);
    // register notes.txt under inode 3, then drop every cache entry
    let _ = fs.lookup_fetched(1, "Photos", Some(root_listing()), 0);
    let ino = match fs.lookup_local(1, "notes.txt") {
        LookupStep::Found { ino, .. } => ino,
        _ => panic!("expected notes.txt"),
    };
    fs.cache.clear();
    // with no cache the local step asks for the parent's listing
    match fs.getattr_local(ino) {
        AttrStep::Fetch { remote } => assert_eq!(remote, ""),
        _ => panic!("expected a fetch"),
    }
    // a failed fetch with no cache fallback degrades to a generic
    // 1024-byte regular file rather than an error
    match fs.getattr_fetched(ino, None, 0) {
        AttrStep::Attr(a) => {
            assert_eq!(a.ino, ino);
            assert_eq!(a.kind, FileKind::RegularFile);
            assert_eq!(a.size, 1024);
        },
        _ => panic!("expected the fallback attributes"),
    }
}

#[test]
fn getattr_answers_from_parent_listing() {
    let mut fs = DavFs::new(0, 0);
    let _ = fs.lookup_fetched(1, "Photos", Some(root_listing()), 0);
    let ino = match fs.lookup_local(1, "notes.txt") {
        LookupStep::Found { ino, .. } => ino,
        _ => panic!("expected notes.txt"),
    };
    match fs.getattr_local(ino) {
        AttrStep::Attr(a) => {
            assert_eq!(a.size, 42);
            assert_eq!(a.kind, FileKind::RegularFile);
        },
        _ => panic!("expected attributes from the cached parent listing"),
    }
}

#[test]
fn readdir_lists_dots_then_children_in_order() {
    let mut fs = DavFs::new(0, 0);
    let listing = vec![entry("a", true, 0), entry("b", false, 5), entry("c", false, 6)];
    let (step, _seeds) = fs.readdir_fetched(1, 0, Some(listing), 0);
    match step {
        ReaddirStep::Entries(rows) => {
            let names: Vec<&str> = rows.iter().map(|r| r.name.as_str()).collect();
            assert_eq!(names, vec![".", "..", "a", "b", "c"]);
            assert_eq!(rows[0].ino, 1);
            assert_eq!(rows[1].ino, 1);
            assert_eq!(rows[0].kind, FileKind::Directory);
            assert_eq!(rows[2].kind, FileKind::Directory);
            assert_eq!(rows[3].kind, FileKind::RegularFile);
            // children got fresh, distinct inodes
            assert_eq!(rows[2].ino, 2);
            assert_eq!(rows[3].ino, 3);
            assert_eq!(rows[4].ino, 4);
        },
        _ => panic!("expected rows"),
    }
}

#[test]
fn readdir_at_offset_two_starts_at_first_child() {
    let mut fs = DavFs::new(0, 0);
    let listing = vec![entry("a", true, 0), entry("b", false, 5), entry("c", false, 6)];
    let _ = fs.readdir_fetched(1, 0, Some(listing), 0);
    // the listing is now cached: the local step answers, paginated
    match fs.readdir_local(1, 2) {
        ReaddirStep::Entries(rows) => {
            let names: Vec<&str> = rows.iter().map(|r| r.name.as_str()).collect();
            assert_eq!(names, vec!["a", "b", "c"]);
        },
        _ => panic!("expected rows"),
    }
    match fs.readdir_local(1, 4) {
        ReaddirStep::Entries(rows) => {
            assert_eq!(rows.len(), 1);
            assert_eq!(rows[0].name, "c");
        },
        _ => panic!("expected rows"),
    }
    match fs.readdir_local(1, 99) {
        ReaddirStep::Entries(rows) => assert!(rows.is_empty()),
        _ => panic!("expected rows"),
    }
}

#[test]
fn readdir_failure_still_lists_dots() {
    let mut fs = DavFs::new(0, 0);
    let (step, seeds) = fs.readdir_fetched(1, 0, None, 0);
    match step {
        ReaddirStep::Entries(rows) => {
            let names: Vec<&str> = rows.iter().map(|r| r.name.as_str()).collect();
            assert_eq!(names, vec![".", ".."]);
        },
        _ => panic!("expected the dot rows"),
    }
    assert!(seeds.is_empty());
}

#[test]
fn readdir_miss_seeds_prefetch_with_subdirectories() {
    let mut fs = DavFs::new(0, 0);
    let listing = vec![entry("a", true, 0), entry("b", false, 5), entry("c", true, 0)];
    let (_, seeds) = fs.readdir_fetched(1, 0, Some(listing), 0);
    assert_eq!(seeds, vec!["/a".to_string(), "/c".to_string()]);
}

#[test]
fn xattr_state_tracks_the_cache() {
    let mut fs = DavFs::new(0, 0);
    let _ = fs.lookup_fetched(1, "Photos", Some(root_listing()), 0);
    let photos = match fs.lookup_local(1, "Photos") {
        LookupStep::Found { ino, .. } => ino,
        _ => panic!("expected Photos"),
    };
    // Photos' own listing is not cached, but its parent's is: "cloud"
    match fs.getxattr(photos, "user.davfs.state", 64) {
        XattrReply::Value(s) => assert_eq!(s, "cloud"),
        _ => panic!("expected a value"),
    }
    // once Photos' own listing is cached the state becomes "cached"
    let _ = fs.readdir_fetched(photos, 0, Some(vec![entry("img.jpg", false, 9)]), 0);
    match fs.getxattr(photos, "user.davfs.state", 64) {
        XattrReply::Value(s) => assert_eq!(s, "cached"),
        _ => panic!("expected a value"),
    }
    // with the whole cache dropped nothing is known
    fs.cache.clear();
    match fs.getxattr(photos, "user.davfs.state", 64) {
        XattrReply::Value(s) => assert_eq!(s, "unknown"),
        _ => panic!("expected a value"),
    }
}

#[test]
fn xattr_protocol_edges() {
    let fs = DavFs::new(0, 0);
    assert!(matches!(fs.getxattr(1, "user.other", 0), XattrReply::NoData));
    assert!(matches!(fs.getxattr(42, "user.davfs.state", 0), XattrReply::NotFound));
    assert!(matches!(fs.getxattr(1, "user.davfs.state", 3), XattrReply::Range));
    match fs.listxattr(0) {
        XattrReply::Size(n) => assert_eq!(n, 17),
        _ => panic!("expected a size probe reply"),
    }
    match fs.listxattr(64) {
        XattrReply::Value(s) => {
            assert_eq!(s.as_bytes(), b"user.davfs.state\0");
        },
        _ => panic!("expected the name list"),
    }
    assert!(matches!(fs.listxattr(5), XattrReply::Range));
}
