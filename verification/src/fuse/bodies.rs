//! The bodies of the requests, and what the replies to them hold.

use vstd::prelude::*;
use crate::bytes::{get_u32, get_u64, le32, le64, push_bytes, push_u32, push_u64, to_vec, u32_at,
    u64_at};
use crate::error::Error;
use crate::fuse::wire::{pad, zeroes, MAX_REQUEST_BYTES};

verus! {

/// A lock on a stretch of a file.
#[derive(Clone, Copy, Debug, PartialEq, Eq, Structural)]
pub struct FileLock {
    pub start: u64,
    pub end: u64,
    pub kind: u32,
    pub pid: u32,
}

/// A name as requests hold it.
pub open spec fn ended(name: Seq<u8>) -> Seq<u8> {
    name.push(0u8)
}

fn push_name(body: &mut Vec<u8>, name: &[u8])
    ensures
        final(body)@ == old(body)@ + ended(name@),
{
    push_bytes(body, name);
    body.push(0);
    assert(body@ =~= old(body)@ + ended(name@));
}

/// A name.
pub open spec fn name_body(name: Seq<u8>) -> Seq<u8> {
    ended(name)
}

/// A name.
pub fn name_request(name: &[u8]) -> (body: Vec<u8>)
    ensures
        body@ == name_body(name@),
{
    let mut body: Vec<u8> = Vec::new();
    push_name(&mut body, name);
    assert(body@ =~= name_body(name@));
    body
}

/// The flags of an open.
pub open spec fn open_body(flags: u32) -> Seq<u8> {
    le32(flags) + le32(0)
}

/// The flags of an open.
pub fn open_request(flags: u32) -> (body: Vec<u8>)
    ensures
        body@ == open_body(flags),
{
    let mut body: Vec<u8> = Vec::new();
    push_u32(&mut body, flags);
    push_u32(&mut body, 0);
    assert(body@ =~= open_body(flags));
    body
}

/// A handle that is given back or flushed.
pub open spec fn release_body(fh: u64) -> Seq<u8> {
    le64(fh) + zeroes(16)
}

/// A handle that is given back or flushed.
pub fn release_request(fh: u64) -> (body: Vec<u8>)
    ensures
        body@ == release_body(fh),
{
    let mut body: Vec<u8> = Vec::new();
    push_u64(&mut body, fh);
    pad(&mut body, 16);
    assert(body@ =~= release_body(fh));
    body
}

/// A stretch that is read.
pub open spec fn read_body(fh: u64, offset: u64, len: usize) -> Seq<u8> {
    le64(fh) + le64(offset) + le32(len as u32) + zeroes(20)
}

/// A stretch that is read.
pub fn read_request(fh: u64, offset: u64, len: usize) -> (body: Vec<u8>)
    ensures
        body@ == read_body(fh, offset, len),
{
    let mut body: Vec<u8> = Vec::new();
    push_u64(&mut body, fh);
    push_u64(&mut body, offset);
    push_u32(
        &mut body,
        #[verifier::truncate]
        (len as u32),
    );
    pad(&mut body, 20);
    assert(body@ =~= read_body(fh, offset, len));
    body
}

/// Bytes that are written.
pub open spec fn write_body(fh: u64, offset: u64, data: Seq<u8>) -> Seq<u8> {
    le64(fh) + le64(offset) + le32(data.len() as u32) + zeroes(20) + data
}

/// Bytes that are written.
pub fn write_request(fh: u64, offset: u64, data: &[u8]) -> (body: Vec<u8>)
    ensures
        body@ == write_body(fh, offset, data@),
{
    let mut body: Vec<u8> = Vec::new();
    push_u64(&mut body, fh);
    push_u64(&mut body, offset);
    push_u32(
        &mut body,
        #[verifier::truncate]
        (data.len() as u32),
    );
    pad(&mut body, 20);
    push_bytes(&mut body, data);
    assert(body@ =~= write_body(fh, offset, data@));
    body
}

/// A directory that is made.
pub open spec fn mkdir_body(mode: u32, name: Seq<u8>) -> Seq<u8> {
    le32(mode) + le32(0) + ended(name)
}

/// A directory that is made.
pub fn mkdir_request(mode: u32, name: &[u8]) -> (body: Vec<u8>)
    ensures
        body@ == mkdir_body(mode, name@),
{
    let mut body: Vec<u8> = Vec::new();
    push_u32(&mut body, mode);
    push_u32(&mut body, 0);
    push_name(&mut body, name);
    assert(body@ =~= mkdir_body(mode, name@));
    body
}

/// A file that is made and opened.  It must not be there: a daemon that opened one that
/// is would leave open whose attributes it has.
pub open spec fn create_body(mode: u32, name: Seq<u8>) -> Seq<u8> {
    le32(0xc0) + le32(mode) + le32(0) + le32(0) + ended(name)
}

/// A file that is made and opened.  It must not be there: a daemon that opened one that
/// is would leave open whose attributes it has.
pub fn create_request(mode: u32, name: &[u8]) -> (body: Vec<u8>)
    ensures
        body@ == create_body(mode, name@),
{
    let mut body: Vec<u8> = Vec::new();
    push_u32(&mut body, 0xc0);
    push_u32(&mut body, mode);
    push_u32(&mut body, 0);
    push_u32(&mut body, 0);
    push_name(&mut body, name);
    assert(body@ =~= create_body(mode, name@));
    body
}

/// A special file that is made.
pub open spec fn mknod_body(mode: u32, rdev: u32, name: Seq<u8>) -> Seq<u8> {
    le32(mode) + le32(rdev) + le32(0) + le32(0) + ended(name)
}

/// A special file that is made.
pub fn mknod_request(mode: u32, rdev: u32, name: &[u8]) -> (body: Vec<u8>)
    ensures
        body@ == mknod_body(mode, rdev, name@),
{
    let mut body: Vec<u8> = Vec::new();
    push_u32(&mut body, mode);
    push_u32(&mut body, rdev);
    push_u32(&mut body, 0);
    push_u32(&mut body, 0);
    push_name(&mut body, name);
    assert(body@ =~= mknod_body(mode, rdev, name@));
    body
}

/// A symbolic link that is made.
pub open spec fn symlink_body(target: Seq<u8>, name: Seq<u8>) -> Seq<u8> {
    ended(target) + ended(name)
}

/// A symbolic link that is made.
pub fn symlink_request(target: &[u8], name: &[u8]) -> (body: Vec<u8>)
    ensures
        body@ == symlink_body(target@, name@),
{
    let mut body: Vec<u8> = Vec::new();
    push_name(&mut body, target);
    push_name(&mut body, name);
    assert(body@ =~= symlink_body(target@, name@));
    body
}

/// A name that is given to a node.
pub open spec fn link_body(nodeid: u64, name: Seq<u8>) -> Seq<u8> {
    le64(nodeid) + ended(name)
}

/// A name that is given to a node.
pub fn link_request(nodeid: u64, name: &[u8]) -> (body: Vec<u8>)
    ensures
        body@ == link_body(nodeid, name@),
{
    let mut body: Vec<u8> = Vec::new();
    push_u64(&mut body, nodeid);
    push_name(&mut body, name);
    assert(body@ =~= link_body(nodeid, name@));
    body
}

/// A name that is moved.
pub open spec fn rename2_body(directory: u64, flags: u32, from: Seq<u8>, to: Seq<u8>) -> Seq<u8> {
    le64(directory) + le32(flags) + le32(0) + ended(from) + ended(to)
}

/// A name that is moved.
pub fn rename2_request(directory: u64, flags: u32, from: &[u8], to: &[u8]) -> (body: Vec<u8>)
    ensures
        body@ == rename2_body(directory, flags, from@, to@),
{
    let mut body: Vec<u8> = Vec::new();
    push_u64(&mut body, directory);
    push_u32(&mut body, flags);
    push_u32(&mut body, 0);
    push_name(&mut body, from);
    push_name(&mut body, to);
    assert(body@ =~= rename2_body(directory, flags, from@, to@));
    body
}

/// A name that is moved, in the older form.
pub open spec fn rename_body(directory: u64, from: Seq<u8>, to: Seq<u8>) -> Seq<u8> {
    le64(directory) + ended(from) + ended(to)
}

/// A name that is moved, in the older form.
pub fn rename_request(directory: u64, from: &[u8], to: &[u8]) -> (body: Vec<u8>)
    ensures
        body@ == rename_body(directory, from@, to@),
{
    let mut body: Vec<u8> = Vec::new();
    push_u64(&mut body, directory);
    push_name(&mut body, from);
    push_name(&mut body, to);
    assert(body@ =~= rename_body(directory, from@, to@));
    body
}

/// An extended attribute that is asked for, with room for `size` bytes.
pub open spec fn getxattr_body(size: u32, name: Seq<u8>) -> Seq<u8> {
    le32(size) + le32(0) + ended(name)
}

/// An extended attribute that is asked for, with room for `size` bytes.
pub fn getxattr_request(size: u32, name: &[u8]) -> (body: Vec<u8>)
    ensures
        body@ == getxattr_body(size, name@),
{
    let mut body: Vec<u8> = Vec::new();
    push_u32(&mut body, size);
    push_u32(&mut body, 0);
    push_name(&mut body, name);
    assert(body@ =~= getxattr_body(size, name@));
    body
}

/// The names of extended attributes, with room for `size` bytes.
pub open spec fn listxattr_body(size: u32) -> Seq<u8> {
    le32(size) + le32(0)
}

/// The names of extended attributes, with room for `size` bytes.
pub fn listxattr_request(size: u32) -> (body: Vec<u8>)
    ensures
        body@ == listxattr_body(size),
{
    let mut body: Vec<u8> = Vec::new();
    push_u32(&mut body, size);
    push_u32(&mut body, 0);
    assert(body@ =~= listxattr_body(size));
    body
}

/// An extended attribute that is set.
pub open spec fn setxattr_body(flags: u32, name: Seq<u8>, value: Seq<u8>) -> Seq<u8> {
    le32(value.len() as u32) + le32(flags) + le64(0) + ended(name) + value
}

/// An extended attribute that is set.
pub fn setxattr_request(flags: u32, name: &[u8], value: &[u8]) -> (body: Vec<u8>)
    ensures
        body@ == setxattr_body(flags, name@, value@),
{
    let mut body: Vec<u8> = Vec::new();
    push_u32(
        &mut body,
        #[verifier::truncate]
        (value.len() as u32),
    );
    push_u32(&mut body, flags);
    push_u64(&mut body, 0);
    push_name(&mut body, name);
    push_bytes(&mut body, value);
    assert(body@ =~= setxattr_body(flags, name@, value@));
    body
}

/// A handle whose contents are to be safe.
pub open spec fn fsync_body(fh: u64, flags: u32) -> Seq<u8> {
    le64(fh) + le32(flags) + le32(0)
}

/// A handle whose contents are to be safe.
pub fn fsync_request(fh: u64, flags: u32) -> (body: Vec<u8>)
    ensures
        body@ == fsync_body(fh, flags),
{
    let mut body: Vec<u8> = Vec::new();
    push_u64(&mut body, fh);
    push_u32(&mut body, flags);
    push_u32(&mut body, 0);
    assert(body@ =~= fsync_body(fh, flags));
    body
}

/// A stretch whose space is changed.
pub open spec fn fallocate_body(fh: u64, offset: u64, length: u64, mode: u32) -> Seq<u8> {
    le64(fh) + le64(offset) + le64(length) + le32(mode) + le32(0)
}

/// A stretch whose space is changed.
pub fn fallocate_request(fh: u64, offset: u64, length: u64, mode: u32) -> (body: Vec<u8>)
    ensures
        body@ == fallocate_body(fh, offset, length, mode),
{
    let mut body: Vec<u8> = Vec::new();
    push_u64(&mut body, fh);
    push_u64(&mut body, offset);
    push_u64(&mut body, length);
    push_u32(&mut body, mode);
    push_u32(&mut body, 0);
    assert(body@ =~= fallocate_body(fh, offset, length, mode));
    body
}

/// A place that is looked for.
pub open spec fn lseek_body(fh: u64, offset: u64, whence: u32) -> Seq<u8> {
    le64(fh) + le64(offset) + le32(whence) + le32(0)
}

/// A place that is looked for.
pub fn lseek_request(fh: u64, offset: u64, whence: u32) -> (body: Vec<u8>)
    ensures
        body@ == lseek_body(fh, offset, whence),
{
    let mut body: Vec<u8> = Vec::new();
    push_u64(&mut body, fh);
    push_u64(&mut body, offset);
    push_u32(&mut body, whence);
    push_u32(&mut body, 0);
    assert(body@ =~= lseek_body(fh, offset, whence));
    body
}

/// A stretch that is copied between files.
pub open spec fn copy_body(fh: u64, offset: u64, to_nodeid: u64, to_fh: u64, to_offset: u64, length: u64, flags: u64) -> Seq<u8> {
    le64(fh) + le64(offset) + le64(to_nodeid) + le64(to_fh) + le64(to_offset) + le64(length) + le64(flags)
}

/// A stretch that is copied between files.
pub fn copy_request(fh: u64, offset: u64, to_nodeid: u64, to_fh: u64, to_offset: u64, length: u64, flags: u64) -> (body: Vec<u8>)
    ensures
        body@ == copy_body(fh, offset, to_nodeid, to_fh, to_offset, length, flags),
{
    let mut body: Vec<u8> = Vec::new();
    push_u64(&mut body, fh);
    push_u64(&mut body, offset);
    push_u64(&mut body, to_nodeid);
    push_u64(&mut body, to_fh);
    push_u64(&mut body, to_offset);
    push_u64(&mut body, length);
    push_u64(&mut body, flags);
    assert(body@ =~= copy_body(fh, offset, to_nodeid, to_fh, to_offset, length, flags));
    body
}

/// A block that is mapped.
pub open spec fn bmap_body(block: u64, size: u32) -> Seq<u8> {
    le64(block) + le32(size) + le32(0)
}

/// A block that is mapped.
pub fn bmap_request(block: u64, size: u32) -> (body: Vec<u8>)
    ensures
        body@ == bmap_body(block, size),
{
    let mut body: Vec<u8> = Vec::new();
    push_u64(&mut body, block);
    push_u32(&mut body, size);
    push_u32(&mut body, 0);
    assert(body@ =~= bmap_body(block, size));
    body
}

/// A file whose readiness is asked for, and whether the daemon is to say when it
/// changes.
pub open spec fn poll_body(fh: u64, key: u64, schedule: u32) -> Seq<u8> {
    le64(fh) + le64(key) + le32(schedule) + le32(0xffff_ffff)
}

/// A file whose readiness is asked for, and whether the daemon is to say when it
/// changes.
pub fn poll_request(fh: u64, key: u64, schedule: u32) -> (body: Vec<u8>)
    ensures
        body@ == poll_body(fh, key, schedule),
{
    let mut body: Vec<u8> = Vec::new();
    push_u64(&mut body, fh);
    push_u64(&mut body, key);
    push_u32(&mut body, schedule);
    push_u32(&mut body, 0xffff_ffff);
    assert(body@ =~= poll_body(fh, key, schedule));
    body
}

/// A control request.
pub open spec fn ioctl_body(fh: u64, flags: u32, command: u32, arg: u64, input: Seq<u8>, output: usize) -> Seq<u8> {
    le64(fh) + le32(flags) + le32(command) + le64(arg) + le32(input.len() as u32) + le32(output as u32) + input
}

/// A control request.
pub fn ioctl_request(fh: u64, flags: u32, command: u32, arg: u64, input: &[u8], output: usize) -> (body: Vec<u8>)
    ensures
        body@ == ioctl_body(fh, flags, command, arg, input@, output),
{
    let mut body: Vec<u8> = Vec::new();
    push_u64(&mut body, fh);
    push_u32(&mut body, flags);
    push_u32(&mut body, command);
    push_u64(&mut body, arg);
    push_u32(
        &mut body,
        #[verifier::truncate]
        (input.len() as u32),
    );
    push_u32(
        &mut body,
        #[verifier::truncate]
        (output as u32),
    );
    push_bytes(&mut body, input);
    assert(body@ =~= ioctl_body(fh, flags, command, arg, input@, output));
    body
}

/// A lock.
pub open spec fn lock_body(fh: u64, owner: u64, lock: FileLock) -> Seq<u8> {
    le64(fh) + le64(owner) + le64(lock.start) + le64(lock.end) + le32(lock.kind) + le32(lock.pid) + le64(0)
}

/// A lock.
pub fn lock_request(fh: u64, owner: u64, lock: FileLock) -> (body: Vec<u8>)
    ensures
        body@ == lock_body(fh, owner, lock),
{
    let mut body: Vec<u8> = Vec::new();
    push_u64(&mut body, fh);
    push_u64(&mut body, owner);
    push_u64(&mut body, lock.start);
    push_u64(&mut body, lock.end);
    push_u32(&mut body, lock.kind);
    push_u32(&mut body, lock.pid);
    push_u64(&mut body, 0);
    assert(body@ =~= lock_body(fh, owner, lock));
    body
}

/// The names of a directory, from a place on.
pub open spec fn readdir_body(fh: u64, offset: u64) -> Seq<u8> {
    le64(fh) + le64(offset) + le32(0x1_0000) + zeroes(20)
}

/// The names of a directory, from a place on.
pub fn readdir_request(fh: u64, offset: u64) -> (body: Vec<u8>)
    ensures
        body@ == readdir_body(fh, offset),
{
    let mut body: Vec<u8> = Vec::new();
    push_u64(&mut body, fh);
    push_u64(&mut body, offset);
    push_u32(&mut body, 0x1_0000);
    pad(&mut body, 20);
    assert(body@ =~= readdir_body(fh, offset));
    body
}

/// The count that a reply starts with.
pub open spec fn count_of(reply: Seq<u8>) -> Result<u32, Error> {
    if reply.len() < 4 {
        Err(Error::Io)
    } else {
        Ok(u32_at(reply, 0))
    }
}

/// Read the count that a reply starts with.
pub fn read_count(reply: &[u8]) -> (result: Result<u32, Error>)
    ensures
        result == count_of(reply@),
{
    if reply.len() < 4 {
        return Err(Error::Io);
    }
    Ok(get_u32(reply, 0))
}

/// The value that a reply starts with.
pub open spec fn value_of(reply: Seq<u8>) -> Result<u64, Error> {
    if reply.len() < 8 {
        Err(Error::Io)
    } else {
        Ok(u64_at(reply, 0))
    }
}

/// Read the value that a reply starts with: a place, a number of bytes, a block.
pub fn read_value(reply: &[u8]) -> (result: Result<u64, Error>)
    ensures
        result == value_of(reply@),
{
    if reply.len() < 8 {
        return Err(Error::Io);
    }
    Ok(get_u64(reply, 0))
}

/// How many of `len` bytes a reply says that were taken.
pub open spec fn taken_of(reply: Seq<u8>, len: usize) -> Result<usize, Error> {
    match count_of(reply) {
        Ok(count) => if count > len {
            Err(Error::Io)
        } else {
            Ok(count as usize)
        },
        Err(error) => Err(error),
    }
}

/// How many bytes a daemon says that it took.  It cannot take more than there were.
pub fn read_written(reply: &[u8], len: usize) -> (result: Result<usize, Error>)
    ensures
        result == taken_of(reply@, len),
{
    let count: u32 = read_count(reply)?;
    if count as u64 > len as u64 {
        return Err(Error::Io);
    }
    Ok(count as usize)
}

/// Check what a daemon sent of a stretch of `len` bytes.  It cannot be more.
pub fn check_read(reply: Vec<u8>, len: usize) -> (result: Result<Vec<u8>, Error>)
    ensures
        match result {
            Ok(data) => data == reply && reply@.len() <= len,
            Err(error) => error == Error::Io && reply@.len() > len,
        },
{
    if reply.len() > len {
        return Err(Error::Io);
    }
    Ok(reply)
}

/// How large a reply says that an extended attribute is.
pub open spec fn xattr_size_of(reply: Seq<u8>) -> Result<u32, Error> {
    match count_of(reply) {
        Ok(size) => if size > MAX_REQUEST_BYTES {
            Err(Error::InvalidInput)
        } else {
            Ok(size)
        },
        Err(error) => Err(error),
    }
}

/// How large an extended attribute is, as the daemon says.
pub fn read_xattr_size(reply: &[u8]) -> (result: Result<u32, Error>)
    ensures
        result == xattr_size_of(reply@),
{
    let size: u32 = read_count(reply)?;
    if size as usize > MAX_REQUEST_BYTES {
        return Err(Error::InvalidInput);
    }
    Ok(size)
}

/// Check an extended attribute against the size that the daemon gave.
pub fn check_xattr(value: Vec<u8>, size: u32) -> (result: Result<Vec<u8>, Error>)
    ensures
        match result {
            Ok(data) => data == value && value@.len() == size,
            Err(error) => error == Error::Io && value@.len() != size,
        },
{
    if value.len() != size as usize {
        return Err(Error::Io);
    }
    Ok(value)
}

/// How an extended attribute is set.
#[derive(Clone, Copy, Debug, PartialEq, Eq, Structural)]
pub enum XattrSetMode {
    Create,
    Replace,
    Upsert,
    CreateAndReplace,
}

impl XattrSetMode {
    pub open spec fn bits(self) -> u32 {
        match self {
            XattrSetMode::Create => 1,
            XattrSetMode::Replace => 2,
            XattrSetMode::Upsert => 0,
            XattrSetMode::CreateAndReplace => 3,
        }
    }

    /// The flags of a way to set an extended attribute.
    pub fn flags(self) -> (flags: u32)
        ensures
            flags == self.bits(),
    {
        match self {
            XattrSetMode::Create => 1,
            XattrSetMode::Replace => 2,
            XattrSetMode::Upsert => 0,
            XattrSetMode::CreateAndReplace => 3,
        }
    }
}

/// The lock that a reply holds.
pub open spec fn lock_of(reply: Seq<u8>) -> Result<FileLock, Error> {
    if reply.len() != 24 {
        Err(Error::Io)
    } else {
        Ok(
            FileLock {
                start: u64_at(reply, 0),
                end: u64_at(reply, 8),
                kind: u32_at(reply, 16),
                pid: u32_at(reply, 20),
            },
        )
    }
}

/// Read a lock.
pub fn read_lock(reply: &[u8]) -> (result: Result<FileLock, Error>)
    ensures
        result == lock_of(reply@),
{
    if reply.len() != 24 {
        return Err(Error::Io);
    }
    Ok(
        FileLock {
            start: get_u64(reply, 0),
            end: get_u64(reply, 8),
            kind: get_u32(reply, 16),
            pid: get_u32(reply, 20),
        },
    )
}

/// What a daemon says of its file system.
#[derive(Clone, Copy, Debug, PartialEq, Eq, Structural)]
pub struct StatFs {
    pub fs_type: u32,
    pub block_size: u32,
    pub blocks: u64,
    pub blocks_free: u64,
    pub blocks_available: u64,
    pub file_count: u64,
    pub free_file_count: u64,
    pub name_length: u32,
}

/// The type number of these file systems.
pub const FUSE_SUPER_MAGIC: u32 = 0x6573_5546;

/// What a reply says of a file system.
pub open spec fn statfs_of(reply: Seq<u8>) -> Result<StatFs, Error> {
    if reply.len() < 48 {
        Err(Error::Io)
    } else {
        Ok(
            StatFs {
                fs_type: FUSE_SUPER_MAGIC,
                block_size: u32_at(reply, 40),
                blocks: u64_at(reply, 0),
                blocks_free: u64_at(reply, 8),
                blocks_available: u64_at(reply, 16),
                file_count: u64_at(reply, 24),
                free_file_count: u64_at(reply, 32),
                name_length: u32_at(reply, 44),
            },
        )
    }
}

/// Read what a daemon says of its file system.
pub fn read_statfs(reply: &[u8]) -> (result: Result<StatFs, Error>)
    ensures
        result == statfs_of(reply@),
{
    if reply.len() < 48 {
        return Err(Error::Io);
    }
    Ok(
        StatFs {
            fs_type: FUSE_SUPER_MAGIC,
            block_size: get_u32(reply, 40),
            blocks: get_u64(reply, 0),
            blocks_free: get_u64(reply, 8),
            blocks_available: get_u64(reply, 16),
            file_count: get_u64(reply, 24),
            free_file_count: get_u64(reply, 32),
            name_length: get_u32(reply, 44),
        },
    )
}

/// How the space of a stretch is changed.
#[derive(Clone, Copy, Debug, PartialEq, Eq, Structural)]
pub enum FileRangeOperation {
    Allocate { keep_size: bool },
    PunchHole,
    ZeroRange { keep_size: bool },
    CollapseRange,
    InsertRange,
    UnshareRange,
}

impl FileRangeOperation {
    pub open spec fn bits(self) -> u32 {
        match self {
            FileRangeOperation::Allocate { keep_size } => if keep_size {
                1
            } else {
                0
            },
            FileRangeOperation::PunchHole => 3,
            FileRangeOperation::ZeroRange { keep_size } => if keep_size {
                0x11
            } else {
                0x10
            },
            FileRangeOperation::CollapseRange => 8,
            FileRangeOperation::InsertRange => 0x20,
            FileRangeOperation::UnshareRange => 0x40,
        }
    }

    /// The mode of a way to change the space of a stretch.
    pub fn mode(self) -> (mode: u32)
        ensures
            mode == self.bits(),
    {
        match self {
            FileRangeOperation::Allocate { keep_size } => if keep_size {
                1
            } else {
                0
            },
            FileRangeOperation::PunchHole => 3,
            FileRangeOperation::ZeroRange { keep_size } => if keep_size {
                0x11
            } else {
                0x10
            },
            FileRangeOperation::CollapseRange => 8,
            FileRangeOperation::InsertRange => 0x20,
            FileRangeOperation::UnshareRange => 0x40,
        }
    }
}

/// The flags and limits of a file that have no place in its other attributes.
#[derive(Clone, Copy, Debug, PartialEq, Eq, Structural)]
pub struct FileAttr {
    pub xflags: u64,
    pub extsize: u32,
    pub nextents: u32,
    pub project_id: u32,
    pub cowextsize: u32,
}

/// The image of a file's flags and limits.
pub open spec fn file_attr_image(attr: FileAttr) -> Seq<u8> {
    le32(attr.xflags as u32) + le32(attr.extsize) + le32(attr.nextents) + le32(attr.project_id)
        + le32(attr.cowextsize)
}

/// The image of a file's flags and limits.
pub fn file_attr_request(attr: FileAttr) -> (image: Vec<u8>)
    ensures
        image@ == file_attr_image(attr),
{
    let mut image: Vec<u8> = Vec::new();
    push_u32(
        &mut image,
        #[verifier::truncate]
        (attr.xflags as u32),
    );
    push_u32(&mut image, attr.extsize);
    push_u32(&mut image, attr.nextents);
    push_u32(&mut image, attr.project_id);
    push_u32(&mut image, attr.cowextsize);
    assert(image@ =~= file_attr_image(attr));
    image
}

/// The flags and limits that an image holds.
pub open spec fn file_attr_of(image: Seq<u8>) -> Result<FileAttr, Error> {
    if image.len() < 20 {
        Err(Error::Io)
    } else {
        Ok(
            FileAttr {
                xflags: u32_at(image, 0) as u64,
                extsize: u32_at(image, 4),
                nextents: u32_at(image, 8),
                project_id: u32_at(image, 12),
                cowextsize: u32_at(image, 16),
            },
        )
    }
}

/// Read a file's flags and limits.
pub fn read_file_attr(image: &[u8]) -> (result: Result<FileAttr, Error>)
    ensures
        result == file_attr_of(image@),
{
    if image.len() < 20 {
        return Err(Error::Io);
    }
    Ok(
        FileAttr {
            xflags: get_u32(image, 0) as u64,
            extsize: get_u32(image, 4),
            nextents: get_u32(image, 8),
            project_id: get_u32(image, 12),
            cowextsize: get_u32(image, 16),
        },
    )
}

/// The flags and limits that a new file gets from its directory: a project, and whether
/// what is made in it gets the project too.
pub open spec fn inherited(attr: FileAttr, project_id: Option<u32>, inherit: bool) -> FileAttr {
    FileAttr {
        project_id: match project_id {
            Some(id) => id,
            None => attr.project_id,
        },
        xflags: if inherit {
            attr.xflags | 0x200
        } else {
            attr.xflags
        },
        ..attr
    }
}

/// The flags and limits that a new file gets from its directory: a project, and whether
/// what is made in it gets the project too.
pub fn inherited_attr(attr: FileAttr, project_id: Option<u32>, inherit: bool) -> (changed: FileAttr)
    ensures
        changed == inherited(attr, project_id, inherit),
{
    FileAttr {
        xflags: if inherit {
            attr.xflags | 0x200
        } else {
            attr.xflags
        },
        extsize: attr.extsize,
        nextents: attr.nextents,
        project_id: match project_id {
            Some(id) => id,
            None => attr.project_id,
        },
        cowextsize: attr.cowextsize,
    }
}

/// The part of a symbolic link's target that a read of `len` bytes at `offset` gives.
pub open spec fn link_part(link: Seq<u8>, offset: int, len: int) -> Seq<u8> {
    let start = if offset < link.len() {
        offset
    } else {
        link.len() as int
    };
    let count = if len <= link.len() - start {
        len
    } else {
        link.len() - start
    };
    link.subrange(start, start + count)
}

/// The part of a symbolic link's target that a read into `len` bytes gives.
pub fn read_link(link: &[u8], offset: u64, len: usize) -> (part: Vec<u8>)
    ensures
        part@ == link_part(link@, offset as int, len as int),
{
    let size: usize = link.len();
    let start: usize = if offset < size as u64 {
        offset as usize
    } else {
        size
    };
    let count: usize = if len <= size - start {
        len
    } else {
        size - start
    };
    to_vec(&link[start..start + count])
}

} // verus!
