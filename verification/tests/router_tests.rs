//! Tests of the routing table itself.

use virtual_hosts::router::{BuildError, Router, RouterBuilder};

fn bytes(s: &str) -> Vec<u8> {
    s.as_bytes().to_vec()
}

fn build(entries: &[(&str, &str, bool, u32)]) -> Router<u32> {
    let mut builder = RouterBuilder::new();
    for (host, path, strip, value) in entries {
        builder.push(host.as_bytes(), path.as_bytes(), *strip, *value);
    }
    builder.build().unwrap()
}

#[test]
fn longest_prefix_wins() {
    let router = build(&[
        ("h", "", false, 0),
        ("h", "/a/", true, 1),
        ("h", "/a/b", false, 2),
    ]);
    assert_eq!(router.lookup(b"h", b"/a/b/c"), Some((2, None)));
    assert_eq!(
        router.lookup(b"h", b"/a/c"),
        Some((1, Some(bytes("/c"))))
    );
    assert_eq!(router.lookup(b"h", b"/other"), Some((0, None)));
}

#[test]
fn lookup_unknown_host() {
    let router = build(&[("h", "", false, 0)]);
    assert_eq!(router.lookup(b"nope", b"/"), None);
}

#[test]
fn lookup_without_root_mount() {
    let router = build(&[("h", "/a", false, 0)]);
    assert_eq!(router.lookup(b"h", b"/b"), None);
    assert_eq!(router.lookup(b"h", b"/a"), Some((0, None)));
}

#[test]
fn root_mount_matches_everything() {
    let router = build(&[("h", "", true, 7)]);
    assert_eq!(
        router.lookup(b"h", b"/x/y?q"),
        Some((0, Some(bytes("/x/y?q"))))
    );
}

#[test]
fn stripped_tail_is_byte_exact() {
    let router = build(&[("h", "/subdir/", true, 1)]);
    assert_eq!(
        router.lookup(b"h", b"//subdir///xyz//"),
        Some((0, Some(bytes("///xyz//"))))
    );
    assert_eq!(router.lookup(b"h", b"/subdir_xyz"), None);
}

#[test]
fn query_bounds_the_path_part() {
    let router = build(&[("h", "/m", true, 1)]);
    assert_eq!(router.lookup(b"h", b"/m?a/b"), Some((0, Some(bytes("?a/b")))));
    assert_eq!(router.lookup(b"h", b"/mx?a"), None);
}

#[test]
fn retrieve_by_index() {
    let router = build(&[("h", "", false, 10), ("h", "/a", true, 11)]);
    let entry = router.retrieve(1).unwrap();
    assert_eq!(entry.value, 11);
    assert!(entry.strip_prefix);
    assert_eq!(entry.host, bytes("h"));
    assert!(router.retrieve(2).is_none());
}

#[test]
fn duplicate_mount_is_refused() {
    // "/a" and "/a/" normalize to the same mount.
    let mut builder = RouterBuilder::new();
    builder.push(b"h", b"/a", false, 0u32);
    builder.push(b"h", b"/a/", true, 1u32);
    let err = builder.build().unwrap_err();
    assert!(matches!(err, BuildError::DuplicateRoute { host } if host == bytes("h")));
}

#[test]
fn same_mount_on_two_hosts_is_fine() {
    let router = build(&[("h1", "/a", false, 0), ("h2", "/a", false, 1)]);
    assert_eq!(router.lookup(b"h2", b"/a/x"), Some((1, None)));
}

#[test]
fn router_len_counts_entries() {
    let router = build(&[("h", "", false, 0), ("h", "/a", false, 1)]);
    assert_eq!(router.len(), 2);
}

#[test]
fn has_host_sees_every_registered_host() {
    let router = build(&[("h1", "/a", false, 0)]);
    assert!(router.has_host(b"h1"));
    assert!(!router.has_host(b"h2"));
}
