//! The bodies of requests, byte by byte.

use pseudofs::fuse::bodies::{
    bmap_request, copy_request, create_request, fallocate_request, fsync_request, getxattr_request,
    link_request, listxattr_request, lseek_request, mkdir_request, mknod_request, open_request,
    poll_request, readdir_request, release_request, rename_request,
};

fn words(values: &[u64]) -> Vec<u8> {
    let mut bytes = vec![];
    for value in values {
        bytes.extend_from_slice(&value.to_le_bytes());
    }
    bytes
}

fn halves(values: &[u32], tail: &[u8]) -> Vec<u8> {
    let mut bytes = vec![];
    for value in values {
        bytes.extend_from_slice(&value.to_le_bytes());
    }
    bytes.extend_from_slice(tail);
    bytes
}

#[test]
fn handles_are_opened_and_given_back() {
    assert_eq!(open_request(0x8001), halves(&[0x8001, 0], b""));
    assert_eq!(release_request(0x1122_3344_5566_7788), words(&[0x1122_3344_5566_7788, 0, 0]));
    let mut listing = words(&[7, 40]);
    listing.extend(halves(&[65536, 0, 0, 0, 0, 0], b""));
    assert_eq!(readdir_request(7, 40), listing);
    let mut poll = words(&[7, 9]);
    poll.extend(halves(&[1, u32::MAX], b""));
    assert_eq!(poll_request(7, 9, 1), poll);
}

#[test]
fn names_are_made_and_moved() {
    assert_eq!(mkdir_request(0o755, b"d"), halves(&[0o755, 0], b"d\0"));
    assert_eq!(create_request(0o100644, b"new"), halves(&[0xc0, 0o100644, 0, 0], b"new\0"));
    assert_eq!(mknod_request(0o020600, 0x501, b"tty"), halves(&[0o020600, 0x501, 0, 0], b"tty\0"));
    let mut link = words(&[12]);
    link.extend_from_slice(b"other\0");
    assert_eq!(link_request(12, b"other"), link);
    let mut moved = words(&[2]);
    moved.extend_from_slice(b"a\0bc\0");
    assert_eq!(rename_request(2, b"a", b"bc"), moved);
}

#[test]
fn stretches_are_worked_on() {
    let mut sync = words(&[3]);
    sync.extend(halves(&[1, 0], b""));
    assert_eq!(fsync_request(3, 1), sync);
    let mut space = words(&[3, 4096, 8192]);
    space.extend(halves(&[2, 0], b""));
    assert_eq!(fallocate_request(3, 4096, 8192, 2), space);
    let mut seek = words(&[3, 100]);
    seek.extend(halves(&[4, 0], b""));
    assert_eq!(lseek_request(3, 100, 4), seek);
    assert_eq!(copy_request(1, 2, 3, 4, 5, 6, 7), words(&[1, 2, 3, 4, 5, 6, 7]));
    let mut map = words(&[99]);
    map.extend(halves(&[512, 0], b""));
    assert_eq!(bmap_request(99, 512), map);
}

#[test]
fn attributes_are_asked_for() {
    assert_eq!(getxattr_request(64, b"user.k"), halves(&[64, 0], b"user.k\0"));
    assert_eq!(listxattr_request(128), halves(&[128, 0], b""));
}
