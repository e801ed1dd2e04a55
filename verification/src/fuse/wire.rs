//! Packets: the headers, the bodies of the requests and what replies hold.

use vstd::prelude::*;
use crate::bytes::{get_u16, get_u32, get_u64, le16, le32, le64, push_bytes, push_u16, push_u32,
    push_u64, push_zeroes, u16_at, u32_at, u64_at};
use crate::error::Error;
use crate::fuse::errno::EPROTO;

verus! {

pub const FUSE_KERNEL_MAJOR: u32 = 7;

pub const FUSE_KERNEL_MINOR: u32 = 45;

pub const FUSE_ROOT_ID: u64 = 1;

pub const FUSE_LOOKUP: u32 = 1;

pub const FUSE_FORGET: u32 = 2;

pub const FUSE_GETATTR: u32 = 3;

pub const FUSE_SETATTR: u32 = 4;

pub const FUSE_READLINK: u32 = 5;

pub const FUSE_SYMLINK: u32 = 6;

pub const FUSE_MKNOD: u32 = 8;

pub const FUSE_MKDIR: u32 = 9;

pub const FUSE_UNLINK: u32 = 10;

pub const FUSE_RMDIR: u32 = 11;

pub const FUSE_RENAME: u32 = 12;

pub const FUSE_LINK: u32 = 13;

pub const FUSE_OPEN: u32 = 14;

pub const FUSE_READ: u32 = 15;

pub const FUSE_WRITE: u32 = 16;

pub const FUSE_STATFS: u32 = 17;

pub const FUSE_RELEASE: u32 = 18;

pub const FUSE_FSYNC: u32 = 20;

pub const FUSE_SETXATTR: u32 = 21;

pub const FUSE_GETXATTR: u32 = 22;

pub const FUSE_LISTXATTR: u32 = 23;

pub const FUSE_REMOVEXATTR: u32 = 24;

pub const FUSE_FLUSH: u32 = 25;

pub const FUSE_INIT: u32 = 26;

pub const FUSE_OPENDIR: u32 = 27;

pub const FUSE_READDIR: u32 = 28;

pub const FUSE_RELEASEDIR: u32 = 29;

pub const FUSE_FSYNCDIR: u32 = 30;

pub const FUSE_FSYNC_FDATASYNC: u32 = 1;

pub const FUSE_GETLK: u32 = 31;

pub const FUSE_SETLK: u32 = 32;

pub const FUSE_SETLKW: u32 = 33;

pub const FUSE_ACCESS: u32 = 34;

pub const FUSE_CREATE: u32 = 35;

pub const FUSE_INTERRUPT: u32 = 36;

/// Set in the `unique` of an interrupt; the body carries the unmodified `unique` of
/// the request that is interrupted.
pub const FUSE_INT_REQ_BIT: u64 = 0x8000_0000_0000_0000;

pub const FUSE_BMAP: u32 = 37;

pub const FUSE_DESTROY: u32 = 38;

pub const FUSE_IOCTL: u32 = 39;

pub const FUSE_POLL: u32 = 40;

pub const FUSE_NOTIFY_REPLY: u32 = 41;

pub const FUSE_BATCH_FORGET: u32 = 42;

pub const FUSE_FALLOCATE: u32 = 43;

pub const FUSE_READDIRPLUS: u32 = 44;

pub const FUSE_RENAME2: u32 = 45;

pub const FUSE_LSEEK: u32 = 46;

pub const FUSE_COPY_FILE_RANGE: u32 = 47;

pub const FUSE_SYNCFS: u32 = 50;

pub const FUSE_NOTIFY_POLL: u32 = 1;

pub const FUSE_NOTIFY_INVAL_INODE: u32 = 2;

pub const FUSE_NOTIFY_INVAL_ENTRY: u32 = 3;

pub const FUSE_NOTIFY_STORE: u32 = 4;

pub const FUSE_NOTIFY_RETRIEVE: u32 = 5;

pub const FUSE_NOTIFY_DELETE: u32 = 6;

pub const FUSE_ASYNC_READ: u64 = 0x1;

pub const FUSE_BIG_WRITES: u64 = 0x20;

pub const FUSE_AUTO_INVAL_DATA: u64 = 0x1000;

/// Chosen by the daemon, and not to be inferred from the minor version alone.
pub const FUSE_DO_READDIRPLUS: u64 = 0x2000;

pub const FUSE_WRITEBACK_CACHE: u64 = 0x1_0000;

pub const FUSE_POSIX_ACL: u64 = 0x10_0000;

pub const FUSE_ABORT_ERROR: u64 = 0x20_0000;

pub const FUSE_MAX_PAGES: u64 = 0x40_0000;

pub const FUSE_EXPLICIT_INVAL_DATA: u64 = 0x200_0000;

pub const FUSE_ALLOW_IDMAP: u64 = 0x100_0000_0000;

pub const FUSE_IOCTL_UNRESTRICTED: u32 = 0x2;

pub const FUSE_IOCTL_RETRY: u32 = 0x4;

pub const FUSE_IOCTL_DIR: u32 = 0x10;

/// Bytes of the largest packet.
pub const MAX_REQUEST_BYTES: usize = 0x10_0000;

/// Bytes of the header of a request.
pub const IN_HEADER_BYTES: usize = 40;

/// Bytes of the header of a reply.
pub const OUT_HEADER_BYTES: usize = 16;

/// Bytes of the longest initial reply that is looked at.
pub const INIT_OUT_BYTES: usize = 64;

/// Zero bytes.
pub open spec fn zeroes(count: nat) -> Seq<u8> {
    Seq::new(count, |i: int| 0u8)
}

/// Append zero bytes.
pub fn pad(body: &mut Vec<u8>, count: usize)
    ensures
        final(body)@ == old(body)@ + zeroes(count as nat),
{
    push_zeroes(body, count);
    assert(body@ =~= old(body)@ + zeroes(count as nat));
}

/// The credentials with which a task asks.
#[derive(Clone, Copy, Debug, PartialEq, Eq, Structural)]
pub struct Caller {
    pub uid: u32,
    pub gid: u32,
    pub pid: u32,
}

/// The header of a request whose body has `size` bytes.
pub open spec fn in_header(
    size: int,
    opcode: u32,
    unique: u64,
    nodeid: u64,
    caller: Caller,
) -> Seq<u8> {
    le32((40 + size) as u32) + le32(opcode) + le64(unique) + le64(nodeid) + le32(caller.uid) + le32(
        caller.gid,
    ) + le32(caller.pid) + le16(0) + le16(0)
}

/// A request.
pub open spec fn packet(
    unique: u64,
    opcode: u32,
    nodeid: u64,
    body: Seq<u8>,
    caller: Caller,
) -> Seq<u8> {
    in_header(body.len() as int, opcode, unique, nodeid, caller) + body
}

/// Build a request.  One that is too large is refused.
pub fn build_request(unique: u64, opcode: u32, nodeid: u64, body: &[u8], caller: Caller) -> (result:
    Result<Vec<u8>, Error>)
    ensures
        match result {
            Ok(bytes) => body@.len() + 40 <= MAX_REQUEST_BYTES && bytes@ == packet(
                unique,
                opcode,
                nodeid,
                body@,
                caller,
            ),
            Err(error) => body@.len() + 40 > MAX_REQUEST_BYTES && error == Error::InvalidInput,
        },
{
    if body.len() > MAX_REQUEST_BYTES - IN_HEADER_BYTES {
        return Err(Error::InvalidInput);
    }
    let mut bytes: Vec<u8> = Vec::new();
    push_u32(&mut bytes, (IN_HEADER_BYTES + body.len()) as u32);
    push_u32(&mut bytes, opcode);
    push_u64(&mut bytes, unique);
    push_u64(&mut bytes, nodeid);
    push_u32(&mut bytes, caller.uid);
    push_u32(&mut bytes, caller.gid);
    push_u32(&mut bytes, caller.pid);
    push_u16(&mut bytes, 0);
    push_u16(&mut bytes, 0);
    assert(bytes@ =~= in_header(body@.len() as int, opcode, unique, nodeid, caller));
    push_bytes(&mut bytes, body);
    Ok(bytes)
}

/// The header of a reply.
#[derive(Clone, Copy, Debug, PartialEq, Eq, Structural)]
pub struct OutHeader {
    pub len: u32,
    pub error: i32,
    pub unique: u64,
}

/// The header that a reply starts with.
pub open spec fn out_header(bytes: Seq<u8>) -> OutHeader {
    OutHeader { len: u32_at(bytes, 0), error: u32_at(bytes, 4) as i32, unique: u64_at(bytes, 8) }
}

/// Read the header of a reply.
pub fn read_out_header(bytes: &[u8]) -> (header: OutHeader)
    requires
        bytes@.len() >= OUT_HEADER_BYTES,
    ensures
        header == out_header(bytes@),
{
    OutHeader {
        len: get_u32(bytes, 0),
        error: #[verifier::truncate]
        (get_u32(bytes, 4) as i32),
        unique: get_u64(bytes, 8),
    }
}

/// The body of the first request.  The cache bits are only offered: the daemon's reply
/// says which of them hold.
pub open spec fn init_body() -> Seq<u8> {
    le32(FUSE_KERNEL_MAJOR) + le32(FUSE_KERNEL_MINOR) + le32(0x10_0000) + le32(0x251_1021) + le32(
        0x100,
    ) + zeroes(44)
}

/// The body of the first request.
pub fn init_request() -> (body: Vec<u8>)
    ensures
        body@ == init_body(),
        body@.len() == 64,
{
    let mut body: Vec<u8> = Vec::new();
    push_u32(&mut body, FUSE_KERNEL_MAJOR);
    push_u32(&mut body, FUSE_KERNEL_MINOR);
    push_u32(&mut body, 0x10_0000);
    push_u32(&mut body, 0x251_1021);
    push_u32(&mut body, 0x100);
    pad(&mut body, 44);
    assert(body@ =~= init_body());
    body
}

/// The flags that are offered, low and high, are those of the capabilities that the
/// kernel has.
pub proof fn law_offered_flags_are_the_kernels()
    ensures
        0x251_1021u64 == FUSE_ASYNC_READ | FUSE_BIG_WRITES | FUSE_AUTO_INVAL_DATA
            | FUSE_WRITEBACK_CACHE | FUSE_MAX_PAGES | FUSE_POSIX_ACL | FUSE_EXPLICIT_INVAL_DATA,
        0x100u64 == FUSE_ALLOW_IDMAP >> 32,
{
    assert(0x251_1021u64 == 0x1u64 | 0x20 | 0x1000 | 0x1_0000 | 0x40_0000 | 0x10_0000 | 0x200_0000
        && 0x100u64 == 0x100_0000_0000u64 >> 32) by (bit_vector);
}

/// What a daemon agreed to.
#[derive(Clone, Copy, Debug, PartialEq, Eq, Structural)]
pub struct FuseInit {
    pub major: u32,
    pub minor: u32,
    pub max_readahead: u32,
    pub max_write: u32,
    pub max_background: u16,
    pub congestion_threshold: u16,
    pub time_gran: u32,
    pub max_pages: u16,
    pub flags: u64,
}

/// An initial reply of any length, as the longest one: what is missing is zero, and
/// what is more is not looked at.
pub open spec fn whole_init(reply: Seq<u8>) -> Seq<u8> {
    Seq::new(
        64,
        |i: int|
            if i < reply.len() {
                reply[i]
            } else {
                0u8
            },
    )
}

pub open spec fn clamped(value: u32, low: u32, high: u32) -> u32 {
    if value <= low {
        low
    } else if value >= high {
        high
    } else {
        value
    }
}

/// What an initial reply agrees to.  A reply that is too short for the versions, one
/// of another major version and one without a minor version are refused.
pub open spec fn agreed(reply: Seq<u8>) -> Result<FuseInit, Error> {
    let image = whole_init(reply);
    if reply.len() < 8 || u32_at(image, 0) != FUSE_KERNEL_MAJOR || u32_at(image, 4) == 0 {
        Err(Error::Errno(EPROTO))
    } else {
        Ok(
            FuseInit {
                major: u32_at(image, 0),
                minor: if u32_at(image, 4) <= FUSE_KERNEL_MINOR {
                    u32_at(image, 4)
                } else {
                    FUSE_KERNEL_MINOR
                },
                max_readahead: u32_at(image, 8),
                max_write: clamped(u32_at(image, 20), 4096, 0x10_0000),
                max_background: u16_at(image, 16),
                congestion_threshold: u16_at(image, 18),
                time_gran: u32_at(image, 24),
                max_pages: u16_at(image, 28),
                flags: (u32_at(image, 12) as u64) | ((u32_at(image, 32) as u64) << 32),
            },
        )
    }
}

/// Read an initial reply.
pub fn read_init(reply: &[u8]) -> (result: Result<FuseInit, Error>)
    ensures
        result == agreed(reply@),
{
    if reply.len() < 8 {
        return Err(Error::Errno(EPROTO));
    }
    let mut whole: Vec<u8> = Vec::new();
    let mut i: usize = 0;
    while i < INIT_OUT_BYTES
        invariant
            i <= INIT_OUT_BYTES,
            whole@ == whole_init(reply@).take(i as int),
        decreases INIT_OUT_BYTES - i,
    {
        whole.push(
            if i < reply.len() {
                reply[i]
            } else {
                0
            },
        );
        i = i + 1;
        assert(whole@ =~= whole_init(reply@).take(i as int));
    }
    assert(whole@ =~= whole_init(reply@));
    let image = whole.as_slice();
    let major: u32 = get_u32(image, 0);
    let minor: u32 = get_u32(image, 4);
    if major != FUSE_KERNEL_MAJOR || minor == 0 {
        return Err(Error::Errno(EPROTO));
    }
    let max_write: u32 = get_u32(image, 20);
    Ok(
        FuseInit {
            major,
            minor: if minor <= FUSE_KERNEL_MINOR {
                minor
            } else {
                FUSE_KERNEL_MINOR
            },
            max_readahead: get_u32(image, 8),
            max_write: if max_write <= 4096 {
                4096
            } else if max_write >= 0x10_0000 {
                0x10_0000
            } else {
                max_write
            },
            max_background: get_u16(image, 16),
            congestion_threshold: get_u16(image, 18),
            time_gran: get_u32(image, 24),
            max_pages: get_u16(image, 28),
            flags: (get_u32(image, 12) as u64) | ((get_u32(image, 32) as u64) << 32),
        },
    )
}

impl FuseInit {
    /// Whether the daemon chose a capability.
    pub open spec fn chose(self, flag: u64) -> bool {
        self.flags & flag != 0
    }

    /// Whether the kernel may keep file contents.
    pub open spec fn keeps_contents(self) -> bool {
        self.chose(0x201_1000)
    }
}

/// The capabilities under which the kernel may keep file contents.
pub const CACHE_FLAGS: u64 = 0x201_1000;

/// The capabilities under which contents may be kept are writing back, and knowing of
/// changes by either way.
pub proof fn law_contents_are_kept_under_three_capabilities()
    ensures
        CACHE_FLAGS == FUSE_WRITEBACK_CACHE | FUSE_AUTO_INVAL_DATA | FUSE_EXPLICIT_INVAL_DATA,
{
    assert(0x201_1000u64 == 0x1_0000u64 | 0x1000 | 0x200_0000) by (bit_vector);
}

/// Whether the kernel may keep file contents under what was agreed, if anything.
pub open spec fn caches(init: Option<FuseInit>) -> bool {
    init is Some && init->0.keeps_contents()
}

/// Whether the kernel may keep file contents.
pub fn cache_active(init: Option<FuseInit>) -> (active: bool)
    ensures
        active == caches(init),
{
    match init {
        Some(init) => init.flags & CACHE_FLAGS != 0,
        None => false,
    }
}

} // verus!
