use davfs_sync::attr::dir_attr;
use davfs_sync::attr::file_attr;
use davfs_sync::attr::root_attr;
use davfs_sync::attr::FileKind;
use davfs_sync::propfind::extract_tag_content;
use davfs_sync::propfind::parse_propfind_response;
use davfs_sync::propfind::trim_str;

#[test]
fn extract_finds_trimmed_content() {
    assert_eq!(
        extract_tag_content("<d:displayname>Photos</d:displayname>", "d:displayname"),
        Some("Photos".to_string())
    );
    assert_eq!(
        extract_tag_content("  <d:displayname>  notes.txt </d:displayname>", "d:displayname"),
        Some("notes.txt".to_string())
    );
}

#[test]
fn extract_misses_are_none() {
    // no tags at all
    assert_eq!(extract_tag_content("plain text", "d:href"), None);
    // an opening tag without its closing form
    assert_eq!(extract_tag_content("<d:href>/remote", "d:href"), None);
    // nothing strictly between the tags
    assert_eq!(extract_tag_content("<d:href></d:href>", "d:href"), None);
    // the closing form occurs before the opening form
    assert_eq!(extract_tag_content("</d:href>x<d:href>", "d:href"), None);
}

#[test]
fn trim_removes_surrounding_whitespace_only() {
    assert_eq!(trim_str("  a b \t"), "a b");
    assert_eq!(trim_str("\r\n"), "");
    assert_eq!(trim_str("x"), "x");
    assert_eq!(trim_str(""), "");
}

fn sample_response() -> String {
    [
        "<?xml version=\"1.0\"?>",
        "<d:multistatus xmlns:d=\"DAV:\"><d:response>",
        "<d:href>/remote.php/dav/files/u/</d:href>",
        "<d:displayname>.</d:displayname>",
        "<d:resourcetype><d:collection/></d:resourcetype>",
        "</d:response><d:response>",
        "<d:displayname>Photos</d:displayname>",
        "<d:resourcetype><d:collection/></d:resourcetype>",
        "</d:response><d:response>",
        "<d:displayname>notes.txt</d:displayname>",
        "<d:resourcetype></d:resourcetype>",
        "</d:response></d:multistatus>",
    ]
    .join("\n")
}

#[test]
fn parse_collects_named_entries_with_kinds() {
    let entries = parse_propfind_response(&sample_response());
    // the first block names the current directory "." and is dropped
    assert_eq!(entries.len(), 2);
    assert_eq!(entries[0].name, "Photos");
    assert!(entries[0].is_dir);
    assert_eq!(entries[1].name, "notes.txt");
    assert!(!entries[1].is_dir);
    assert_eq!(entries[0].size, 0);
    assert!(entries[0].modified.is_none());
}

#[test]
fn parse_falls_back_to_href_component() {
    let xml = [
        "preamble<d:response>",
        "<d:href>/remote.php/dav/files/u/Music/</d:href>",
        "<d:resourcetype><d:collection/></d:resourcetype>",
        "</d:response>",
    ]
    .join("\n");
    let entries = parse_propfind_response(&xml);
    assert_eq!(entries.len(), 1);
    assert_eq!(entries[0].name, "Music");
    assert!(entries[0].is_dir);
}

#[test]
fn parse_prefers_displayname_over_href() {
    let xml = [
        "x<d:response>",
        "<d:href>/files/u/ugly-id/</d:href>",
        "<d:displayname>Pretty</d:displayname>",
        "</d:response>",
    ]
    .join("\n");
    let entries = parse_propfind_response(&xml);
    assert_eq!(entries.len(), 1);
    assert_eq!(entries[0].name, "Pretty");
    assert!(!entries[0].is_dir);
}

#[test]
fn parse_drops_empty_dot_and_parent_names() {
    let xml = [
        "x<d:response>\n<d:displayname>..</d:displayname>\n</d:response>",
        "<d:response>\n<d:displayname>.</d:displayname>\n</d:response>",
        "<d:response>\n<d:displayname>a..b</d:displayname>\n</d:response>",
        "<d:response>\nno name here\n</d:response>",
    ]
    .join("");
    let entries = parse_propfind_response(&xml);
    assert_eq!(entries.len(), 0);
}

#[test]
fn parse_empty_input_yields_nothing() {
    assert_eq!(parse_propfind_response("").len(), 0);
    assert_eq!(parse_propfind_response("<d:multistatus/>").len(), 0);
}

#[test]
fn attribute_records_use_fixed_defaults() {
    let r = root_attr(10, 20);
    assert_eq!(r.ino, 1);
    assert_eq!(r.kind, FileKind::Directory);
    assert_eq!(r.perm, 0o755);
    assert_eq!(r.nlink, 2);
    assert_eq!(r.blksize, 512);
    assert_eq!((r.uid, r.gid), (10, 20));

    let d = dir_attr(5, 0, 0);
    assert_eq!(d.ino, 5);
    assert_eq!(d.size, 0);
    assert_eq!(d.blocks, 0);

    let f = file_attr(6, 1025, 0, 0);
    assert_eq!(f.kind, FileKind::RegularFile);
    assert_eq!(f.size, 1025);
    assert_eq!(f.blocks, 3);
    assert_eq!(f.perm, 0o644);
    assert_eq!(f.nlink, 1);
}

#[test]
fn file_blocks_round_up_without_overflow() {
    assert_eq!(file_attr(1, 0, 0, 0).blocks, 0);
    assert_eq!(file_attr(1, 1, 0, 0).blocks, 1);
    assert_eq!(file_attr(1, 512, 0, 0).blocks, 1);
    assert_eq!(file_attr(1, 513, 0, 0).blocks, 2);
    assert_eq!(file_attr(1, u64::MAX, 0, 0).blocks, u64::MAX / 512 + 1);
}
