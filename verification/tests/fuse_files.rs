//! Files of a daemon's file system: what is kept of them, and what is asked.

use pseudofs::error::Error;
use pseudofs::fuse::bodies::{
    check_read, check_xattr, file_attr_request, inherited_attr, ioctl_request, lock_request,
    name_request, read_count, read_file_attr, read_link, read_lock, read_request, read_statfs,
    read_value, read_written, read_xattr_size, rename2_request, setxattr_request, symlink_request,
    write_request, FileAttr, FileLock, FileRangeOperation, XattrSetMode,
};
use pseudofs::fuse::cache::{Cache, MAX_FUSE_INODE_CACHE_BYTES};
use pseudofs::fuse::closing::{
    close_result, flush_request, plan_close, plan_release, CloseFile,
};
use pseudofs::fuse::connection::Connection;
use pseudofs::fuse::creation::{
    check_create, creation_request, rename_plan, supports_named_create, supports_rename_flags,
    unlink_opcode, CreateCheck, CreateStep,
};
use pseudofs::fuse::directory::{
    check_fsyncdir, read_records, readdir_opcode, readdir_plus, supports_fsyncdir,
};
use pseudofs::fuse::file::{
    drops_cache, end_of, first_failure, keeps_cache, plan_write, OpenFile, ReadPlan, WritePlan,
};
use pseudofs::fuse::ioctl::{
    finish_attribute, finish_plain, ioctl_plan, read_ioctl, Exchange, ExchangeStep, IoctlPlan, Iov,
};
use pseudofs::fuse::metadata::{
    parse_attr_out, parse_entry_out, parse_root, set_len_request, setattr_request, ttl_deadline,
    AttributeChange, NodeType, Time,
};
use pseudofs::fuse::opening::{release_opcode, OpenStep};
use pseudofs::fuse::prepared::{
    prepared_request, PreparedAttributes, PreparedRequest, PreparedStage,
};
use pseudofs::fuse::request::FuseReply;
use pseudofs::fuse::superblock::{ApplyStep, Superblock};
use pseudofs::fuse::syncing::{first_cached_error, sync_request, sync_result};
use pseudofs::fuse::wire::{
    cache_active, Caller, FUSE_AUTO_INVAL_DATA, FUSE_CREATE, FUSE_FLUSH, FUSE_IOCTL_RETRY, FUSE_MKDIR,
    FUSE_MKNOD, FUSE_NOTIFY_INVAL_INODE, FUSE_READDIR, FUSE_READDIRPLUS, FUSE_RELEASE,
    FUSE_RELEASEDIR, FUSE_RENAME, FUSE_RENAME2, FUSE_RMDIR, FUSE_ROOT_ID, FUSE_SYNCFS, FUSE_UNLINK,
    FUSE_WRITEBACK_CACHE,
};
use pseudofs::fuse::writeback::FlushStep;

const CACHING: u64 = FUSE_WRITEBACK_CACHE;

fn caller() -> Caller {
    Caller { uid: 1, gid: 2, pid: 3 }
}

fn connected(flags: u64) -> Connection {
    let mut reply = vec![0u8; 64];
    reply[0] = 7;
    reply[4] = 45;
    reply[12..16].copy_from_slice(&(flags as u32).to_le_bytes());
    reply[20..24].copy_from_slice(&0x10000u32.to_le_bytes());
    let mut connection = Connection::new();
    connection.finish_negotiation(&reply).unwrap();
    connection
}

/// The attributes of an inode, as a daemon writes them.
fn attr(inode: u64, size: u64, mode: u32) -> Vec<u8> {
    let mut bytes = vec![0u8; 88];
    bytes[..8].copy_from_slice(&inode.to_le_bytes());
    bytes[8..16].copy_from_slice(&size.to_le_bytes());
    bytes[24..32].copy_from_slice(&7u64.to_le_bytes());
    bytes[48..52].copy_from_slice(&9u32.to_le_bytes());
    bytes[60..64].copy_from_slice(&mode.to_le_bytes());
    bytes[64..68].copy_from_slice(&1u32.to_le_bytes());
    bytes
}

/// What a daemon answers to a lookup.
fn entry(nodeid: u64, mode: u32) -> Vec<u8> {
    let mut bytes = vec![0u8; 40];
    bytes[..8].copy_from_slice(&nodeid.to_le_bytes());
    bytes[16..24].copy_from_slice(&2u64.to_le_bytes());
    bytes[24..32].copy_from_slice(&1u64.to_le_bytes());
    bytes.extend_from_slice(&attr(nodeid, 100, mode));
    bytes
}

/// A superblock with a root, and the root's index.
fn mounted(connection: &mut Connection) -> (Superblock, usize) {
    let mut superblock = Superblock::new();
    let mut out = vec![0u8; 16];
    out.extend_from_slice(&attr(1, 0, 0o040755));
    let metadata = parse_root(&out).unwrap();
    connection.register_node(1);
    superblock.insert_node(1, metadata);
    (superblock, 0)
}

fn opened(superblock: &mut Superblock, nodeid: u64, fh: u64) -> OpenFile {
    let lease = superblock.open_lease(nodeid, fh);
    OpenFile {
        nodeid,
        fh,
        read: true,
        write: true,
        cache: true,
        lease,
        poll_key: 1,
        size: 0,
    }
}

#[test]
fn what_is_stored_is_read_back() {
    let mut cache = Cache::new();
    assert!(cache.cached_read(true, 5, 0, 4).is_none());
    cache.cache_store(true, 5, 10, b"hello", None).unwrap();
    cache.cache_store(true, 5, 15, b" world", None).unwrap();
    assert_eq!(cache.cached_read(true, 5, 10, 11), Some(Ok(b"hello world".to_vec())));
    assert_eq!(cache.cached_read(true, 5, 12, 3), Some(Ok(b"llo".to_vec())));
    assert!(cache.cached_read(true, 5, 9, 3).is_none());
    assert!(cache.cached_read(false, 5, 12, 3).is_none());
    assert!(cache.cached_read(true, 6, 12, 3).is_none());
    cache.cache_store(true, 5, 12, b"LL", None).unwrap();
    assert_eq!(cache.cached_read(true, 5, 10, 5), Some(Ok(b"heLLo".to_vec())));
    cache.invalidate_cached_inode(5, 12, 1);
    assert!(cache.cached_read(true, 5, 12, 2).is_none());
    cache.evict(5);
    assert!(!cache.holds(5));
    let long = vec![0; MAX_FUSE_INODE_CACHE_BYTES + 1];
    let _ = cache.cache_store(true, 5, 0, &long, None);
    assert!(cache.cached_read(true, 5, 0, 1).is_none());
}

#[test]
fn dirty_bytes_outlive_a_fill() {
    let mut superblock = Superblock::new();
    let lease = superblock.open_lease(5, 50);
    superblock.cache.cache_store(true, 5, 2, b"DD", Some(lease)).unwrap();
    // A fill that would cover them is not kept at all.
    superblock.cache.cache_store(true, 5, 0, b"aaaaaa", None).unwrap();
    assert!(superblock.cache.cached_read(true, 5, 0, 6).is_none());
    assert_eq!(
        superblock.cache.cached_read(true, 5, 2, 2),
        Some(Ok(b"DD".to_vec()))
    );
    let mut out = *b"xxxxxx";
    superblock.cache.overlay_dirty_cached(5, 0, &mut out);
    assert_eq!(&out, b"xxDDxx");
    assert!(superblock.cache.has_dirty(5));
    assert!(superblock.cache.has_dirty_owned_by_other(5, 51));
    assert!(!superblock.cache.has_dirty_owned_by_other(5, 50));
    assert!(!superblock.cache.has_dead_dirty_owner(5, &superblock.handles));
    superblock.cache.invalidate_cached_clean_inode(5, 0, 0);
    assert!(superblock.cache.has_dirty(5));
    superblock.retire_handle(lease);
    assert!(superblock.cache.has_dead_dirty_owner(5, &superblock.handles));
}

#[test]
fn names_are_kept_until_their_deadline() {
    let mut cache = Cache::new();
    cache.keep_dentry(1, b"a", 7, 100, 0);
    assert_eq!(cache.cached_dentry(1, b"a", 0, 99), Some(7));
    assert_eq!(cache.cached_dentry(1, b"a", 0, 100), None);
    assert_eq!(cache.cached_dentry(1, b"a", 1, 99), None);
    assert_eq!(cache.cached_dentry(2, b"a", 0, 99), None);
    cache.invalidate_cached_dentry(1, b"a");
    assert_eq!(cache.cached_dentry(1, b"a", 0, 99), None);
}

#[test]
fn attributes_are_read_from_their_image() {
    let mut out = vec![0u8; 16];
    out.extend_from_slice(&attr(42, 1000, 0o100644));
    let metadata = parse_attr_out(&out).unwrap();
    assert_eq!((metadata.inode, metadata.size, metadata.mode), (42, 1000, 0o644));
    assert_eq!(metadata.node_type, NodeType::RegularFile);
    assert_eq!(metadata.atime, Time { seconds: 7, nanos: 9 });
    assert!(parse_attr_out(&out[..100]).is_ok());
    assert_eq!(parse_attr_out(&out[..99]).err(), Some(Error::Io));
    assert!(parse_root(&out).is_err());
    assert_eq!(NodeType::from_number(NodeType::Socket.number() as u8), NodeType::Socket);
    let found = parse_entry_out(&entry(9, 0o040755), 5_000_000_000).unwrap();
    assert_eq!(found.nodeid, 9);
    assert_eq!(found.metadata.node_type, NodeType::Directory);
    assert_eq!(found.entry_deadline, 7_000_000_000);
    assert_eq!(found.attr_deadline, 6_000_000_000);
    let forever = [[0xff; 8].as_slice(), &[0; 4]].concat();
    assert_eq!(ttl_deadline(&forever, 0, 8, 1), Ok(u64::MAX));
}

#[test]
fn attribute_changes_name_what_they_change() {
    let none = AttributeChange { fh: None, mode: None, owner: None, atime: None, mtime: None };
    let body = setattr_request(none);
    assert_eq!(body.len(), 88);
    assert_eq!(&body[..4], &[0; 4]);
    let body = setattr_request(AttributeChange { owner: Some((5, 6)), ..none });
    assert_eq!(body[0], 6);
    let body = set_len_request(3, 77);
    assert_eq!(&body[8..16], &3u64.to_le_bytes());
    assert_eq!(&body[16..24], &77u64.to_le_bytes());
}

#[test]
fn a_write_that_is_kept_is_read_back_and_flushed() {
    let mut connection = connected(CACHING);
    assert!(cache_active(connection.init()));
    let (mut superblock, _) = mounted(&mut connection);
    let mut file = opened(&mut superblock, 5, 50);
    assert!(matches!(plan_write(&connection, &file), WritePlan::Keep));
    assert_eq!(superblock.keep_write(&connection, &mut file, 3, b"abc"), Ok(3));
    assert_eq!(file.size, 6);
    match superblock.plan_read(&connection, &file, 3, 3) {
        ReadPlan::Kept(data) => assert_eq!(data, b"abc"),
        _ => panic!("the bytes are kept"),
    }
    let mut flush = superblock.begin_flush(5, None);
    assert!(superblock.cache.has_inflight_dirty(5));
    match superblock.flush_step(&flush) {
        FlushStep::Write { fh, offset, data } => {
            assert_eq!((fh, offset, data.as_slice()), (50, 3, b"abc".as_slice()));
        }
        _ => panic!("a write"),
    }
    assert_eq!(superblock.flush_sent(true, &mut flush, Ok(3)), Ok(()));
    assert!(matches!(superblock.flush_step(&flush), FlushStep::Done));
    assert!(!superblock.cache.has_dirty(5));
    assert!(superblock.cache.cached_read(true, 5, 3, 3).is_none());
}

#[test]
fn a_flush_that_fails_keeps_what_was_not_sent() {
    let mut connection = connected(CACHING);
    let (mut superblock, _) = mounted(&mut connection);
    let mut file = opened(&mut superblock, 5, 50);
    superblock.keep_write(&connection, &mut file, 0, b"abc").unwrap();
    let mut flush = superblock.begin_flush(5, Some(50));
    superblock.flush_step(&flush);
    assert_eq!(
        superblock.flush_sent(true, &mut flush, Err(Error::Io)),
        Err(Error::Io)
    );
    assert!(superblock.cache.has_dirty(5));
    assert!(!superblock.cache.has_inflight_dirty(5));
    // A short write is an error.
    let mut flush = superblock.begin_flush(5, Some(50));
    superblock.flush_step(&flush);
    assert!(superblock.flush_sent(true, &mut flush, Ok(2)).is_err());
}

#[test]
fn a_file_that_is_not_kept_is_passed_through() {
    let mut connection = connected(0);
    let (mut superblock, _) = mounted(&mut connection);
    let mut file = opened(&mut superblock, 5, 50);
    file.cache = false;
    assert!(matches!(plan_write(&connection, &file), WritePlan::Direct));
    assert!(matches!(
        superblock.plan_read(&connection, &file, 0, 4),
        ReadPlan::Direct
    ));
    file.write = false;
    assert!(matches!(plan_write(&connection, &file), WritePlan::Failed(_)));
    assert!(!keeps_cache(false, 2));
    assert!(keeps_cache(true, 0));
    assert!(!keeps_cache(true, 1));
    assert!(drops_cache(true, 0));
    assert!(!drops_cache(true, 2));
    assert_eq!(end_of(u64::MAX, 4), u64::MAX);
    assert_eq!(first_failure(Ok(()), Err(Error::Io)), Err(Error::Io));
    assert_eq!(first_failure(Err(Error::NoMemory), Err(Error::Io)), Err(Error::NoMemory));
}

#[test]
fn a_notice_about_dirty_bytes_waits_for_the_flush() {
    let mut connection = connected(CACHING | FUSE_AUTO_INVAL_DATA);
    let (mut superblock, root) = mounted(&mut connection);
    superblock
        .finish_lookup(&mut connection, true, root, b"f", 0, &entry(5, 0o100644), 0)
        .unwrap();
    let mut file = opened(&mut superblock, 5, 50);
    superblock.keep_write(&connection, &mut file, 0, b"abc").unwrap();
    let mut payload = Vec::new();
    payload.extend_from_slice(&5u64.to_le_bytes());
    payload.extend_from_slice(&[0; 16]);
    connection
        .parse_notification(FUSE_NOTIFY_INVAL_INODE, &payload, None, caller())
        .unwrap();
    assert!(matches!(
        superblock.begin_notification(&mut connection),
        ApplyStep::Flush(5)
    ));
    let mut flush = superblock.begin_flush(5, None);
    superblock.flush_step(&flush);
    superblock.flush_sent(true, &mut flush, Ok(3)).unwrap();
    assert!(matches!(
        superblock.finish_notification(&mut connection, true),
        ApplyStep::Applied
    ));
    assert!(superblock.cache.cached_read(true, 5, 0, 3).is_none());
    assert!(matches!(
        superblock.begin_notification(&mut connection),
        ApplyStep::Drained
    ));
}

#[test]
fn an_open_reserves_its_release() {
    let mut connection = connected(0);
    let (teardown, number) = connection.begin_open(5, 2, false, caller(), 1).unwrap();
    assert_eq!(connection.terminal_reservations, 1);
    assert_ne!(number, teardown.unique);
    let mut reply = vec![0u8; 16];
    reply[0] = 44;
    reply[8] = 2;
    match connection.finish_open(false, teardown, Ok(FuseReply::Data(reply)), true) {
        OpenStep::Opened(mut handle) => {
            assert_eq!((handle.fh, handle.open_flags), (44, 2));
            connection.commit_handle(&mut handle);
            assert_eq!(connection.terminal_reservations, 0);
        }
        _ => panic!("a handle"),
    }
    // An error of the daemon gives the place back.
    let (teardown, _) = connection.begin_open(5, 2, false, caller(), 2).unwrap();
    assert!(matches!(
        connection.finish_open(false, teardown, Ok(FuseReply::Error(13)), true),
        OpenStep::Failed(Error::PermissionDenied)
    ));
    assert_eq!(connection.terminal_reservations, 0);
    // A reply that is too short names no handle.
    let (teardown, _) = connection.begin_open(5, 2, true, caller(), 3).unwrap();
    let step = connection.finish_open(true, teardown, Ok(FuseReply::Data(vec![1])), true);
    assert!(matches!(step, OpenStep::Failed(_)));
    assert_eq!((release_opcode(false), release_opcode(true)), (FUSE_RELEASE, FUSE_RELEASEDIR));
}

#[test]
fn a_creation_is_planned_by_its_type() {
    assert!(matches!(check_create(Ok(())), CreateCheck::Existing));
    assert!(matches!(check_create(Err(Error::NotFound)), CreateCheck::Create));
    assert!(matches!(check_create(Err(Error::Io)), CreateCheck::Failed(Error::Io)));
    let (opcode, body) = creation_request(NodeType::Directory, 0o755, 0, b"d");
    assert_eq!(opcode, FUSE_MKDIR);
    assert_eq!(&body[body.len() - 2..], b"d\0");
    assert_eq!(creation_request(NodeType::RegularFile, 0o644, 0, b"f").0, FUSE_CREATE);
    assert_eq!(creation_request(NodeType::Fifo, 0o644, 0, b"p").0, FUSE_MKNOD);
    assert!(supports_named_create(NodeType::Socket));
    assert!(!supports_named_create(NodeType::Unknown));
    assert_eq!((unlink_opcode(false), unlink_opcode(true)), (FUSE_UNLINK, FUSE_RMDIR));
}

#[test]
fn a_created_directory_changes_the_names_of_its_parent() {
    let mut connection = connected(0);
    let (mut superblock, root) = mounted(&mut connection);
    let before = superblock.nodes[root].namespace_epoch;
    let teardown = connection.reserve_teardown(caller()).unwrap();
    match superblock.finish_create(
        &mut connection,
        root,
        b"d",
        false,
        false,
        teardown,
        Ok(FuseReply::Data(entry(9, 0o040755))),
        0,
    ) {
        CreateStep::Install { entry, fh, teardown } => {
            assert_eq!((entry.nodeid, fh), (9, None));
            let step = superblock.finish_install(
                &mut connection,
                root,
                b"d",
                None,
                teardown,
                Ok(()),
            );
            assert!(matches!(step, CreateStep::Created));
        }
        _ => panic!("an entry to install"),
    }
    assert_ne!(superblock.nodes[root].namespace_epoch, before);
}

#[test]
fn a_lookup_is_kept_while_the_names_stand() {
    let mut connection = connected(FUSE_AUTO_INVAL_DATA);
    let (mut superblock, root) = mounted(&mut connection);
    let epoch = superblock.nodes[root].namespace_epoch;
    let (token, found) = superblock
        .finish_lookup(&mut connection, true, root, b"d", epoch, &entry(9, 0o040755), 0)
        .unwrap();
    assert_eq!(found.nodeid, 9);
    assert_eq!(superblock.retain_node(9).unwrap().token, token);
    assert_eq!(superblock.lookup_cached(true, root, b"d", 1), Some(token));
    assert_eq!(superblock.lookup_cached(true, root, b"e", 1), None);
    // A name does not lead to a reference that is gone, and nothing is found below a
    // directory without an entry.
    let count = superblock.nodes.len();
    let (gone, _) = superblock
        .finish_lookup(&mut connection, true, root, b"g", epoch, &entry(10, 0o100644), 0)
        .unwrap();
    assert_eq!(superblock.lookup_cached(true, root, b"g", 1), Some(gone));
    superblock.drop_node(&mut connection, count, caller());
    assert_eq!(superblock.lookup_cached(true, root, b"g", 1), None);
    assert_eq!(
        superblock.finish_lookup(&mut connection, false, root, b"h", epoch, &entry(11, 0o100644), 0),
        Err(Error::NotFound)
    );
    assert_eq!(superblock.nodes.len(), count);
    superblock.finish_unlink(root, b"d");
    assert_eq!(superblock.lookup_cached(true, root, b"d", 1), None);
    let node = superblock.nodes.iter().position(|node| node.nodeid == 9).unwrap();
    let metadata = superblock.known_metadata(node, 1);
    assert!(metadata.is_some());
    assert!(superblock.known_metadata(node, 2_000_000_000).is_none());
    superblock.remove_node(node);
    assert!(superblock.retain_node(9).is_none());
}

#[test]
fn renames_choose_their_request() {
    let init = connected(0).init();
    let (opcode, body) = rename_plan(init, true, 8, 1, b"a", b"b").unwrap();
    assert_eq!(opcode, FUSE_RENAME2);
    assert_eq!(&body[16..], b"a\0b\0");
    // A daemon of an older version has no flags.
    let mut old = init.unwrap();
    old.minor = 22;
    let (opcode, body) = rename_plan(Some(old), true, 8, 0, b"a", b"b").unwrap();
    assert_eq!(opcode, FUSE_RENAME);
    assert_eq!(&body[8..], b"a\0b\0");
    assert!(rename_plan(Some(old), true, 8, 1, b"a", b"b").is_err());
    assert_eq!(rename_plan(init, false, 8, 0, b"a", b"b").err(), Some(Error::CrossesDevices));
    assert!(supports_rename_flags(init));
    assert_eq!(rename2_request(8, 1, b"a", b"b").len(), 20);
}

#[test]
fn directories_are_read_record_by_record() {
    let mut reply = Vec::new();
    for (ino, name) in [(7u64, b"a".as_slice()), (8, b"longer.txt".as_slice())] {
        reply.extend_from_slice(&ino.to_le_bytes());
        reply.extend_from_slice(&(ino * 10).to_le_bytes());
        reply.extend_from_slice(&(name.len() as u32).to_le_bytes());
        reply.extend_from_slice(&8u32.to_le_bytes());
        reply.extend_from_slice(name);
        while reply.len() % 8 != 0 {
            reply.push(0);
        }
    }
    let listing = read_records(&reply, false, true, 100);
    assert_eq!(listing.taken, Ok(2));
    let records = listing.handed;
    assert_eq!(records.len(), 2);
    assert_eq!((records[0].ino, records[0].next), (7, 70));
    assert_eq!(records[1].name, b"longer.txt");
    assert_eq!(records[1].node_type, NodeType::RegularFile);
    assert_eq!(records[1].end, reply.len());
    // The name that has no more room is handed over, and not counted.
    let listing = read_records(&reply, false, true, 1);
    assert_eq!((listing.taken, listing.handed.len()), (Ok(1), 2));
    assert_eq!(listing.handed[1].name, b"longer.txt");
    // What stands in front of a broken record was handed over before it was met.
    let broken = &reply[..reply.len() - 8];
    let listing = read_records(broken, false, true, 100);
    assert_eq!((listing.taken, listing.handed.len()), (Err(Error::Io), 1));
    let listing = read_records(broken, false, true, 1);
    assert_eq!((listing.taken, listing.handed.len()), (Err(Error::Io), 1));
    let listing = read_records(broken, false, true, 0);
    assert_eq!((listing.taken, listing.handed.len()), (Ok(0), 1));
    let listing = read_records(&[], true, true, 0);
    assert_eq!((listing.taken, listing.handed.len()), (Ok(0), 0));
    // What a name stands for is not taken below a directory without an entry.
    let mut plus = entry(9, 0o100644);
    plus.extend_from_slice(&reply[..32]);
    let listing = read_records(&plus, true, true, 4);
    assert_eq!((listing.taken, listing.handed[0].entry.unwrap().0), (Ok(1), 9));
    let listing = read_records(&plus, true, false, 4);
    assert_eq!((listing.taken, listing.handed.len()), (Err(Error::NotFound), 0));
    assert_eq!(read_records(&reply, false, false, 4).taken, Ok(2));
    assert_eq!(
        (readdir_opcode(false), readdir_opcode(true)),
        (FUSE_READDIR, FUSE_READDIRPLUS)
    );
    assert!(!readdir_plus(connected(0).init()));
    assert!(readdir_plus(connected(0x2000).init()));
    assert!(supports_fsyncdir(connected(0).init()));
    assert_eq!(check_fsyncdir(&[]), Ok(()));
    assert!(check_fsyncdir(&[1]).is_err());
}

#[test]
fn request_bodies_have_their_layout() {
    assert_eq!(name_request(b"abc"), b"abc\0");
    assert_eq!(symlink_request(b"to", b"n"), b"to\0n\0");
    let body = read_request(5, 6, 7);
    assert_eq!(body.len(), 40);
    assert_eq!(&body[..8], &5u64.to_le_bytes());
    assert_eq!(&body[8..16], &6u64.to_le_bytes());
    assert_eq!(&body[16..20], &7u32.to_le_bytes());
    let body = write_request(5, 6, b"data");
    assert_eq!(&body[40..], b"data");
    let body = setxattr_request(XattrSetMode::Create.flags(), b"user.a", b"v");
    assert!(body.ends_with(b"user.a\0v"));
    assert_eq!(XattrSetMode::Replace.flags(), 2);
    assert_eq!(FileRangeOperation::PunchHole.mode(), 3);
    assert_eq!(FileRangeOperation::ZeroRange { keep_size: true }.mode(), 0x11);
    let lock = FileLock { start: 1, end: 2, kind: 0, pid: 4 };
    assert_eq!(lock_request(5, 6, lock).len(), 48);
    let mut image = Vec::new();
    image.extend_from_slice(&1u64.to_le_bytes());
    image.extend_from_slice(&2u64.to_le_bytes());
    image.extend_from_slice(&0u32.to_le_bytes());
    image.extend_from_slice(&4u32.to_le_bytes());
    let read = read_lock(&image).unwrap();
    assert_eq!((read.start, read.end, read.kind, read.pid), (1, 2, 0, 4));
    let body = ioctl_request(5, 1, 0x1234, 9, b"in", 3);
    assert_eq!(&body[32..], b"in");
}

#[test]
fn replies_are_held_to_what_was_asked() {
    assert_eq!(read_count(&8u32.to_le_bytes()), Ok(8));
    assert!(read_count(&[1, 2]).is_err());
    assert_eq!(read_value(&9u64.to_le_bytes()), Ok(9));
    assert_eq!(read_written(&[3, 0, 0, 0, 0, 0, 0, 0], 3), Ok(3));
    assert!(read_written(&[4, 0, 0, 0, 0, 0, 0, 0], 3).is_err());
    assert_eq!(check_read(vec![1, 2], 2), Ok(vec![1, 2]));
    assert!(check_read(vec![1, 2], 1).is_err());
    assert_eq!(read_xattr_size(&[5, 0, 0, 0, 0, 0, 0, 0]), Ok(5));
    assert_eq!(check_xattr(vec![1], 1), Ok(vec![1]));
    assert!(check_xattr(vec![1, 2], 1).is_err());
    let mut statfs = vec![0u8; 80];
    statfs[0] = 100;
    statfs[40] = 255;
    let read = read_statfs(&statfs).unwrap();
    assert_eq!((read.blocks, read.fs_type), (100, 0x6573_5546));
    assert_eq!(read_link(b"target", 2, 3), b"rge");
    assert_eq!(read_link(b"target", 9, 3), b"");
}

#[test]
fn file_attributes_survive_their_image() {
    let attr = FileAttr { xflags: 0x201, extsize: 3, nextents: 4, project_id: 5, cowextsize: 6 };
    let image = file_attr_request(attr);
    let read = read_file_attr(&image).unwrap();
    assert_eq!((read.xflags, read.extsize, read.project_id), (0x201, 3, 5));
    assert!(read_file_attr(&image[1..]).is_err());
    let changed = inherited_attr(attr, Some(9), true);
    assert_eq!(changed.project_id, 9);
}

#[test]
fn a_plain_call_moves_the_bytes_that_its_number_says() {
    // _IOWR('x', 1, [u8; 4])
    assert!(matches!(
        ioctl_plan(0xc004_7801),
        IoctlPlan::Plain { input: 4, output: 4 }
    ));
    assert!(matches!(
        ioctl_plan(0x8004_7801),
        IoctlPlan::Plain { input: 0, output: 4 }
    ));
    let mut reply = vec![0u8; 16];
    reply[0] = 3;
    reply.extend_from_slice(b"out!");
    let read = read_ioctl(&reply).unwrap();
    assert_eq!(read.result, 3);
    assert_eq!(finish_plain(read, 4), Ok((3, b"out!".to_vec())));
    assert!(finish_plain(read_ioctl(&reply).unwrap(), 3).is_err());
    assert!(read_ioctl(&reply[..15]).is_err());
    reply[0] = 0;
    assert_eq!(finish_attribute(read_ioctl(&reply).unwrap(), 4), Ok(b"out!".to_vec()));
}

#[test]
fn an_unrestricted_call_reads_what_the_daemon_asks_for() {
    let mut exchange = Exchange::new();
    assert!(exchange.next_flags().is_ok());
    let mut reply = vec![0u8; 16];
    reply[4..8].copy_from_slice(&FUSE_IOCTL_RETRY.to_le_bytes());
    reply[8] = 1;
    reply.extend_from_slice(&0x1000u64.to_le_bytes());
    reply.extend_from_slice(&3u64.to_le_bytes());
    match exchange.answered(&read_ioctl(&reply).unwrap()) {
        ExchangeStep::Read { reads, refused } => {
            assert_eq!(refused, None);
            assert_eq!(reads.len(), 1);
            let Iov { base, len } = reads[0];
            assert_eq!((base, len), (0x1000, 3));
        }
        _ => panic!("stretches to read"),
    }
    exchange.supply(Ok(b"abc".to_vec()), None).unwrap();
    assert_eq!(exchange.input, b"abc");
    match exchange.answered(&read_ioctl(&[5, 0, 0, 0, 0, 0, 0, 0, 0, 0, 0, 0, 0, 0, 0, 0]).unwrap()) {
        ExchangeStep::Done(result, writes) => {
            assert_eq!(result, 5);
            assert!(writes.is_empty());
        }
        _ => panic!("the end of the call"),
    }
}

#[test]
fn a_handle_that_cannot_be_given_back_ends_the_connection() {
    let mut reply = vec![0u8; 16];
    reply[0] = 44;
    for failed in [false, true] {
        let mut connection = connected(0);
        let (teardown, _) = connection.begin_open(5, 2, false, caller(), 1).unwrap();
        let step = connection.finish_open(false, teardown, Ok(FuseReply::Data(reply.clone())), true);
        let mut handle = match step {
            OpenStep::Opened(handle) => handle,
            _ => panic!("a handle"),
        };
        connection.handle_released(&mut handle, failed);
        assert!(!handle.armed);
        assert_eq!(connection.terminal_reservations, 0);
        assert_eq!(connection.teardown.packet.is_some(), failed);
    }
}

#[test]
fn what_lies_behind_a_new_end_is_dropped() {
    let mut superblock = Superblock::new();
    superblock.cache.cache_store(true, 5, 0, b"abcd", None).unwrap();
    superblock.cache.cache_store(true, 5, 10, b"efgh", None).unwrap();
    superblock.finish_set_len(5, 4);
    assert_eq!(
        superblock.cache.cached_read(true, 5, 0, 4),
        Some(Ok(b"abcd".to_vec()))
    );
    assert!(superblock.cache.cached_read(true, 5, 10, 4).is_none());
    // A range that reaches over the end goes whole.
    superblock.finish_set_len(5, 3);
    assert!(superblock.cache.cached_read(true, 5, 0, 3).is_none());
}

#[test]
fn a_moved_name_is_forgotten_at_both_ends() {
    let mut connection = connected(0);
    let (mut superblock, root) = mounted(&mut connection);
    let epoch = superblock.nodes[root].namespace_epoch;
    superblock.cache.keep_dentry(1, b"old", 7, 100, epoch);
    superblock.cache.keep_dentry(1, b"new", 8, 100, epoch);
    superblock.finish_rename(root, b"old", root, b"new");
    let epoch = superblock.nodes[root].namespace_epoch;
    assert_eq!(superblock.cache.cached_dentry(1, b"old", epoch, 1), None);
    assert_eq!(superblock.cache.cached_dentry(1, b"new", epoch, 1), None);
}

#[test]
fn nothing_is_kept_of_a_dead_daemon() {
    let mut connection = connected(CACHING);
    let (mut superblock, _) = mounted(&mut connection);
    superblock.cache.cache_store(true, 5, 0, b"abc", None).unwrap();
    assert!(!superblock.apply_death(&mut connection));
    assert!(superblock.cache.holds(5));
    connection.abort();
    assert!(superblock.apply_death(&mut connection));
    assert!(!superblock.cache.holds(5));
    connection.unregister_node(1);
    assert!(connection.known_nodes.is_empty());
}

#[test]
fn a_daemon_that_names_too_much_is_refused_after_the_reads() {
    let mut exchange = Exchange::new();
    let mut reply = vec![0u8; 16];
    reply[4..8].copy_from_slice(&FUSE_IOCTL_RETRY.to_le_bytes());
    reply[8] = 2;
    reply.extend_from_slice(&0x1000u64.to_le_bytes());
    reply.extend_from_slice(&3u64.to_le_bytes());
    reply.extend_from_slice(&0x2000u64.to_le_bytes());
    reply.extend_from_slice(&u64::MAX.to_le_bytes());
    let refused = match exchange.answered(&read_ioctl(&reply).unwrap()) {
        ExchangeStep::Read { reads, refused } => {
            assert_eq!(reads.len(), 1);
            refused
        }
        _ => panic!("stretches to read"),
    };
    assert_eq!(refused, Some(Error::Io));
    // A stretch that cannot be read is met first.
    assert_eq!(
        exchange.supply(Err(Error::BadAddress), refused),
        Err(Error::BadAddress)
    );
    assert_eq!(
        exchange.supply(Ok(b"abc".to_vec()), refused),
        Err(Error::Io)
    );
    assert!(exchange.input.is_empty());
}

#[test]
fn a_close_flushes_what_was_written() {
    let mut closing = CloseFile::new();
    assert!(closing.claim());
    assert!(!closing.claim());
    assert!(plan_close(&Ok(()), false));
    assert!(!plan_close(&Ok(()), true));
    assert!(!plan_close(&Err(Error::Io), false));
    let (opcode, body) = flush_request(0x0102);
    assert_eq!((opcode, body.len()), (FUSE_FLUSH, 24));
    assert_eq!(&body[..3], &[2, 1, 0]);
    assert!(plan_release(false, true, 5).is_none());
    let (opcode, body) = plan_release(true, false, 5).unwrap();
    assert_eq!((opcode, body[0], body.len()), (FUSE_RELEASEDIR, 5, 24));
    assert_eq!(plan_release(false, false, 5).unwrap().0, FUSE_RELEASE);
    let (io, busy) = (Err(Error::Io), Err(Error::ResourceBusy));
    assert_eq!(close_result(io, busy, Ok(())), io);
    assert_eq!(close_result(Ok(()), busy, io), busy);
    assert_eq!(close_result(Ok(()), Ok(()), io), io);
    assert_eq!(close_result(Ok(()), Ok(()), Ok(())), Ok(()));
}

#[test]
fn a_dropped_node_is_forgotten_unless_it_is_the_root() {
    let mut connection = connected(CACHING);
    let (mut superblock, root) = mounted(&mut connection);
    let (_, found) = superblock
        .finish_lookup(&mut connection, true, root, b"f", 1, &entry(9, 0o100644), 0)
        .unwrap();
    assert_eq!(found.nodeid, 9);
    let lease = superblock.open_lease(9, 90);
    superblock.cache.cache_store(true, 9, 0, b"abc", None).unwrap();
    let node = superblock.nodes.iter().position(|node| node.nodeid == 9).unwrap();
    superblock.drop_node(&mut connection, node, caller());
    assert_eq!(connection.forget_nodes, [9]);
    assert!(!connection.known_nodes.contains_key(&9));
    assert!(superblock.retain_node(9).is_none());
    // A handle that lives keeps the contents.
    assert!(superblock.cache.holds(9));
    superblock.retire_handle(lease);
    superblock.drop_node(&mut connection, root, caller());
    assert_eq!(connection.forget_nodes, [9]);
    assert!(!connection.known_nodes.contains_key(&1));
}

#[test]
fn a_new_file_gets_its_attributes_in_order() {
    let mut connection = connected(0);
    let (mut superblock, root) = mounted(&mut connection);
    let options = PreparedAttributes {
        owner: Some((5, 6)),
        project_id: Some(77),
        project_inherit: true,
        access_acl: Some(b"access".to_vec()),
        default_acl: None,
    };
    let stage = superblock.prepare_further(root, &options, PreparedStage::Begin, Ok(vec![]));
    assert_eq!(stage, PreparedStage::Owner);
    match prepared_request(&options, stage, b"a", b"d") {
        PreparedRequest::SetAttr(body) => {
            assert_eq!(&body[..4], &[6, 0, 0, 0]);
            assert_eq!((body[76], body[80]), (5, 6));
        }
        _ => panic!("the owner"),
    }
    let mut reply = vec![0u8; 16];
    reply.extend_from_slice(&attr(1, 123, 0o040755));
    let stage = superblock.prepare_further(root, &options, stage, Ok(reply));
    assert_eq!(stage, PreparedStage::ReadAttr);
    assert!(superblock.nodes[root].metadata_valid);
    assert_eq!(superblock.nodes[root].metadata.size, 123);
    let stage = superblock.prepare_further(root, &options, stage, Ok(vec![1; 20]));
    match prepared_request(&options, stage, b"a", b"d") {
        PreparedRequest::WriteAttr(image) => {
            assert_eq!(&image[..4], &[1, 3, 1, 1]);
            assert_eq!(&image[12..16], &[77, 0, 0, 0]);
        }
        _ => panic!("flags and limits"),
    }
    let stage = superblock.prepare_further(root, &options, stage, Ok(vec![]));
    assert_eq!(stage, PreparedStage::AccessAcl);
    match prepared_request(&options, stage, b"a", b"d") {
        PreparedRequest::SetXattr(body) => {
            assert_eq!(&body[16..], b"a\0access");
        }
        _ => panic!("an access list"),
    }
    assert_eq!(
        superblock.prepare_further(root, &options, stage, Ok(vec![])),
        PreparedStage::Finished(None)
    );
    // The first failure is the last thing that happens.
    assert_eq!(
        superblock.prepare_further(root, &options, stage, Err(Error::StorageFull)),
        PreparedStage::Finished(Some(Error::StorageFull))
    );
    assert_eq!(
        superblock.prepare_further(root, &options, PreparedStage::ReadAttr, Ok(vec![0; 19])),
        PreparedStage::Finished(Some(Error::Io))
    );
    let nothing = PreparedAttributes {
        owner: None,
        project_id: None,
        project_inherit: false,
        access_acl: None,
        default_acl: None,
    };
    assert_eq!(
        superblock.prepare_further(root, &nothing, PreparedStage::Begin, Ok(vec![])),
        PreparedStage::Finished(None)
    );
}

#[test]
fn a_change_brings_new_attributes() {
    let mut connection = connected(0);
    let (mut superblock, root) = mounted(&mut connection);
    let mut reply = vec![0u8; 16];
    reply.extend_from_slice(&attr(1, 5, 0o040700));
    assert!(superblock.take_attributes(root, &reply[..40], true).is_err());
    superblock.take_attributes(root, &reply, false).unwrap();
    assert_eq!(superblock.nodes[root].metadata.size, 5);
    assert!(!superblock.nodes[root].metadata_valid);
    superblock.take_attributes(root, &reply, true).unwrap();
    assert!(superblock.nodes[root].metadata_valid);
}

#[test]
fn a_file_system_is_flushed_with_all_of_its_parts() {
    let mut block = Superblock::new();
    let mut out = vec![0u8; 16];
    out.extend_from_slice(&attr(1, 0, 0o040755));
    let metadata = parse_root(&out).unwrap();
    for id in [1, 7, 5] {
        block.insert_node(id, metadata);
    }
    assert_eq!(block.nodes_to_flush(), [1, 7, 5]);
    assert_eq!(sync_request(), (FUSE_SYNCFS, FUSE_ROOT_ID, vec![]));

    let failed = Err(Error::Io);
    assert_eq!(first_cached_error(&vec![Ok(()), Ok(())]), None);
    assert_eq!(
        first_cached_error(&vec![Ok(()), Err(Error::StorageFull), failed]),
        Some(Error::StorageFull)
    );
    assert_eq!(sync_result(None, Ok(()), Ok(())), Ok(()));
    assert_eq!(sync_result(None, Ok(()), failed), failed);
    assert_eq!(
        sync_result(Some(Error::StorageFull), Ok(()), failed),
        Err(Error::StorageFull)
    );
    assert_eq!(
        sync_result(Some(Error::StorageFull), Err(Error::NoSuchDevice), Ok(())),
        Err(Error::NoSuchDevice)
    );
}
