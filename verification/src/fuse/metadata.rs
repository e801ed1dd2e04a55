//! What a daemon says of its files.

use vstd::prelude::*;
use crate::bytes::{get_u32, get_u64, le32, le64, push_u32, push_u64, u32_at, u64_at};
use crate::error::Error;
use crate::fuse::wire::{pad, zeroes};

verus! {

/// What a file is.
#[derive(Clone, Copy, Debug, PartialEq, Eq, Structural)]
pub enum NodeType {
    Unknown,
    Fifo,
    CharacterDevice,
    Directory,
    BlockDevice,
    RegularFile,
    Symlink,
    Socket,
}

impl NodeType {
    /// The number of a type, in the top bits of a mode.
    pub open spec fn code(self) -> u32 {
        match self {
            NodeType::Unknown => 0,
            NodeType::Fifo => 1,
            NodeType::CharacterDevice => 2,
            NodeType::Directory => 4,
            NodeType::BlockDevice => 6,
            NodeType::RegularFile => 8,
            NodeType::Symlink => 10,
            NodeType::Socket => 12,
        }
    }

    /// The number of a type.
    pub fn number(self) -> (number: u32)
        ensures
            number == self.code(),
    {
        match self {
            NodeType::Unknown => 0,
            NodeType::Fifo => 1,
            NodeType::CharacterDevice => 2,
            NodeType::Directory => 4,
            NodeType::BlockDevice => 6,
            NodeType::RegularFile => 8,
            NodeType::Symlink => 10,
            NodeType::Socket => 12,
        }
    }

    /// The type of a number.
    pub fn from_number(number: u8) -> (kind: NodeType)
        ensures
            kind == type_of(number),
    {
        match number {
            1 => NodeType::Fifo,
            2 => NodeType::CharacterDevice,
            4 => NodeType::Directory,
            6 => NodeType::BlockDevice,
            8 => NodeType::RegularFile,
            10 => NodeType::Symlink,
            12 => NodeType::Socket,
            _ => NodeType::Unknown,
        }
    }
}

/// The type of a number.  A number that no type has stands for an unknown one.
pub open spec fn type_of(number: u8) -> NodeType {
    if number == 1 {
        NodeType::Fifo
    } else if number == 2 {
        NodeType::CharacterDevice
    } else if number == 4 {
        NodeType::Directory
    } else if number == 6 {
        NodeType::BlockDevice
    } else if number == 8 {
        NodeType::RegularFile
    } else if number == 10 {
        NodeType::Symlink
    } else if number == 12 {
        NodeType::Socket
    } else {
        NodeType::Unknown
    }
}

/// A type is read back from its number.
pub proof fn law_types_read_back(kind: NodeType)
    ensures
        kind.code() < 16,
        type_of(kind.code() as u8) == kind,
{
}

/// A point in time.
#[derive(Clone, Copy, Debug, PartialEq, Eq, Structural)]
pub struct Time {
    pub seconds: i64,
    pub nanos: u32,
}

/// Nanoseconds of a second.
pub const NANOS: u32 = 1_000_000_000;

/// What a daemon says of a file.
#[derive(Clone, Copy, Debug, PartialEq, Eq, Structural)]
pub struct Metadata {
    pub inode: u64,
    pub nlink: u64,
    pub mode: u16,
    pub node_type: NodeType,
    pub uid: u32,
    pub gid: u32,
    pub size: u64,
    pub block_size: u64,
    pub blocks: u64,
    pub atime: Time,
    pub mtime: Time,
    pub ctime: Time,
}

pub open spec fn time_at(bytes: Seq<u8>, seconds: int, nanos: int) -> Time {
    Time { seconds: u64_at(bytes, seconds) as i64, nanos: u32_at(bytes, nanos) }
}

pub open spec fn mode_type(mode: u32) -> NodeType {
    type_of(((mode >> 12) & 0xf) as u8)
}

/// What the attributes at `at` say.
pub open spec fn attributes(bytes: Seq<u8>, at: int) -> Metadata {
    Metadata {
        inode: u64_at(bytes, at),
        nlink: u32_at(bytes, at + 64) as u64,
        mode: (u32_at(bytes, at + 60) & 0o7777) as u16,
        node_type: mode_type(u32_at(bytes, at + 60)),
        uid: u32_at(bytes, at + 68),
        gid: u32_at(bytes, at + 72),
        size: u64_at(bytes, at + 8),
        block_size: u32_at(bytes, at + 80) as u64,
        blocks: u64_at(bytes, at + 16),
        atime: time_at(bytes, at + 24, at + 48),
        mtime: time_at(bytes, at + 32, at + 52),
        ctime: time_at(bytes, at + 40, at + 56),
    }
}

/// Whether there are attributes at `at`, with such times as there are.
pub open spec fn has_attributes(bytes: Seq<u8>, at: int) -> bool {
    &&& bytes.len() >= at + 84
    &&& u32_at(bytes, at + 48) < NANOS
    &&& u32_at(bytes, at + 52) < NANOS
    &&& u32_at(bytes, at + 56) < NANOS
}

/// What a reply says of a file, by the attributes at `at`.
pub open spec fn parsed(bytes: Seq<u8>, at: int) -> Result<Metadata, Error> {
    if has_attributes(bytes, at) {
        Ok(attributes(bytes, at))
    } else {
        Err(Error::Io)
    }
}

fn get_time(bytes: &[u8], seconds: usize, nanos: usize) -> (time: Time)
    requires
        seconds + 8 <= bytes@.len(),
        nanos + 4 <= bytes@.len(),
    ensures
        time == time_at(bytes@, seconds as int, nanos as int),
{
    Time {
        seconds: #[verifier::truncate]
        (get_u64(bytes, seconds) as i64),
        nanos: get_u32(bytes, nanos),
    }
}

/// Read attributes.
pub fn parse_attr(bytes: &[u8], offset: usize) -> (result: Result<Metadata, Error>)
    ensures
        result == parsed(bytes@, offset as int),
{
    if bytes.len() < 84 || bytes.len() - 84 < offset {
        return Err(Error::Io);
    }
    let mode: u32 = get_u32(bytes, offset + 60);
    assert((mode >> 12) & 0xf < 16 && mode & 0o7777 < 0x1000) by (bit_vector);
    let atime = get_time(bytes, offset + 24, offset + 48);
    let mtime = get_time(bytes, offset + 32, offset + 52);
    let ctime = get_time(bytes, offset + 40, offset + 56);
    if atime.nanos >= NANOS || mtime.nanos >= NANOS || ctime.nanos >= NANOS {
        return Err(Error::Io);
    }
    Ok(
        Metadata {
            inode: get_u64(bytes, offset),
            nlink: get_u32(bytes, offset + 64) as u64,
            mode: (mode & 0o7777) as u16,
            node_type: NodeType::from_number(((mode >> 12) & 0xf) as u8),
            uid: get_u32(bytes, offset + 68),
            gid: get_u32(bytes, offset + 72),
            size: get_u64(bytes, offset + 8),
            block_size: get_u32(bytes, offset + 80) as u64,
            blocks: get_u64(bytes, offset + 16),
            atime,
            mtime,
            ctime,
        },
    )
}

/// Read a reply that says of a file what it is.
pub fn parse_attr_out(bytes: &[u8]) -> (result: Result<Metadata, Error>)
    ensures
        result == parsed(bytes@, 16),
{
    parse_attr(bytes, 16)
}

/// The root of a file system, as its reply says it is.  It has to be a directory.
pub fn parse_root(bytes: &[u8]) -> (result: Result<Metadata, Error>)
    ensures
        result == (match parsed(bytes@, 16) {
            Ok(metadata) => if metadata.node_type == NodeType::Directory {
                Ok(metadata)
            } else {
                Err(Error::NotADirectory)
            },
            Err(error) => Err(error),
        }),
{
    let metadata = parse_attr(bytes, 16)?;
    if metadata.node_type != NodeType::Directory {
        return Err(Error::NotADirectory);
    }
    Ok(metadata)
}

/// The time until which a daemon's word holds, that gives `seconds` and `nanos` from
/// `now` on.  A time that cannot be told is the last one.
pub open spec fn deadline_of(now: u64, seconds: u64, nanos: u32) -> u64 {
    let whole = now + seconds * 1_000_000_000 + nanos;
    if whole <= u64::MAX {
        whole as u64
    } else {
        u64::MAX
    }
}

pub open spec fn deadline_at(bytes: Seq<u8>, seconds: int, nanos: int, now: u64) -> Result<
    u64,
    Error,
> {
    if bytes.len() < seconds + 8 || bytes.len() < nanos + 4 || u32_at(bytes, nanos) >= NANOS {
        Err(Error::Io)
    } else {
        Ok(deadline_of(now, u64_at(bytes, seconds), u32_at(bytes, nanos)))
    }
}

/// Read the time until which a daemon's word holds.
pub fn ttl_deadline(bytes: &[u8], seconds_offset: usize, nanos_offset: usize, now: u64) -> (result:
    Result<u64, Error>)
    ensures
        result == deadline_at(bytes@, seconds_offset as int, nanos_offset as int, now),
{
    if bytes.len() < 8 || bytes.len() - 8 < seconds_offset || bytes.len() - 4 < nanos_offset {
        return Err(Error::Io);
    }
    let seconds: u64 = get_u64(bytes, seconds_offset);
    let nanos: u32 = get_u32(bytes, nanos_offset);
    if nanos >= NANOS {
        return Err(Error::Io);
    }
    let whole: u128 = now as u128 + seconds as u128 * 1_000_000_000 + nanos as u128;
    Ok(
        if whole <= u64::MAX as u128 {
            whole as u64
        } else {
            u64::MAX
        },
    )
}

/// What a daemon says of a name: the node, what it is, and how long each holds.
#[derive(Clone, Copy, Debug, PartialEq, Eq, Structural)]
pub struct EntryOut {
    pub nodeid: u64,
    pub metadata: Metadata,
    pub entry_deadline: u64,
    pub attr_deadline: u64,
}

/// What a reply says of a name.
pub open spec fn entry_of(bytes: Seq<u8>, now: u64) -> Result<EntryOut, Error> {
    match (parsed(bytes, 40), deadline_at(bytes, 16, 32, now), deadline_at(bytes, 24, 36, now)) {
        (Ok(metadata), Ok(entry_deadline), Ok(attr_deadline)) => Ok(
            EntryOut { nodeid: u64_at(bytes, 0), metadata, entry_deadline, attr_deadline },
        ),
        _ => Err(Error::Io),
    }
}

/// Read a reply that says of a name what it stands for.
pub fn parse_entry_out(bytes: &[u8], now: u64) -> (result: Result<EntryOut, Error>)
    ensures
        result == entry_of(bytes@, now),
{
    let metadata = parse_attr(bytes, 40)?;
    let entry_deadline: u64 = ttl_deadline(bytes, 16, 32, now)?;
    let attr_deadline: u64 = ttl_deadline(bytes, 24, 36, now)?;
    Ok(EntryOut { nodeid: get_u64(bytes, 0), metadata, entry_deadline, attr_deadline })
}

/// What is to change of a file.
#[derive(Clone, Copy, Debug)]
pub struct AttributeChange {
    pub fh: Option<u64>,
    pub mode: Option<u16>,
    pub owner: Option<(u32, u32)>,
    pub atime: Option<Time>,
    pub mtime: Option<Time>,
}

/// Which fields of a change hold.
pub open spec fn valid_bits(change: AttributeChange) -> u32 {
    (if change.fh is Some {
        64u32
    } else {
        0
    }) | (if change.mode is Some {
        1u32
    } else {
        0
    }) | (if change.owner is Some {
        6u32
    } else {
        0
    }) | (if change.atime is Some {
        16u32
    } else {
        0
    }) | (if change.mtime is Some {
        32u32
    } else {
        0
    })
}

pub open spec fn time_seconds(time: Option<Time>) -> u64 {
    match time {
        Some(time) => time.seconds as u64,
        None => 0,
    }
}

pub open spec fn time_nanos(time: Option<Time>) -> u32 {
    match time {
        Some(time) => time.nanos,
        None => 0,
    }
}

/// The body of a request that changes a file.  What is not to change is zero: nothing
/// that the kernel happens to know goes back to the daemon.
pub open spec fn setattr_body(change: AttributeChange) -> Seq<u8> {
    le32(valid_bits(change)) + le32(0) + le64(
        match change.fh {
            Some(fh) => fh,
            None => 0,
        },
    ) + zeroes(16) + le64(time_seconds(change.atime)) + le64(time_seconds(change.mtime)) + zeroes(8)
        + le32(time_nanos(change.atime)) + le32(time_nanos(change.mtime)) + le32(0) + le32(
        match change.mode {
            Some(mode) => mode as u32,
            None => 0,
        },
    ) + le32(0) + le32(
        match change.owner {
            Some(owner) => owner.0,
            None => 0,
        },
    ) + le32(
        match change.owner {
            Some(owner) => owner.1,
            None => 0,
        },
    ) + le32(0)
}

/// The body of a request that changes a file.
pub fn setattr_request(change: AttributeChange) -> (body: Vec<u8>)
    ensures
        body@ == setattr_body(change),
        body@.len() == 88,
{
    let valid: u32 = (if change.fh.is_some() {
        64u32
    } else {
        0
    }) | (if change.mode.is_some() {
        1u32
    } else {
        0
    }) | (if change.owner.is_some() {
        6u32
    } else {
        0
    }) | (if change.atime.is_some() {
        16u32
    } else {
        0
    }) | (if change.mtime.is_some() {
        32u32
    } else {
        0
    });
    let (atime, atime_nanos): (u64, u32) = match change.atime {
        Some(time) => (
            #[verifier::truncate]
            (time.seconds as u64),
            time.nanos,
        ),
        None => (0, 0),
    };
    let (mtime, mtime_nanos): (u64, u32) = match change.mtime {
        Some(time) => (
            #[verifier::truncate]
            (time.seconds as u64),
            time.nanos,
        ),
        None => (0, 0),
    };
    let (uid, gid): (u32, u32) = match change.owner {
        Some(owner) => owner,
        None => (0, 0),
    };
    let mut body: Vec<u8> = Vec::new();
    push_u32(&mut body, valid);
    push_u32(&mut body, 0);
    push_u64(
        &mut body,
        match change.fh {
            Some(fh) => fh,
            None => 0,
        },
    );
    pad(&mut body, 16);
    push_u64(&mut body, atime);
    push_u64(&mut body, mtime);
    pad(&mut body, 8);
    let ghost front = body@;
    push_u32(&mut body, atime_nanos);
    push_u32(&mut body, mtime_nanos);
    push_u32(&mut body, 0);
    push_u32(
        &mut body,
        match change.mode {
            Some(mode) => mode as u32,
            None => 0,
        },
    );
    push_u32(&mut body, 0);
    push_u32(&mut body, uid);
    push_u32(&mut body, gid);
    push_u32(&mut body, 0);
    assert(front.len() == 56);
    assert(body@ =~= setattr_body(change));
    body
}

/// The body of a request that sets the length of a file through a handle.
pub open spec fn set_len_body(fh: u64, len: u64) -> Seq<u8> {
    le32(8) + le32(0) + le64(fh) + le64(len) + zeroes(64)
}

/// The body of a request that sets the length of a file through a handle.
pub fn set_len_request(fh: u64, len: u64) -> (body: Vec<u8>)
    ensures
        body@ == set_len_body(fh, len),
        body@.len() == 88,
{
    let mut body: Vec<u8> = Vec::new();
    push_u32(&mut body, 8);
    push_u32(&mut body, 0);
    push_u64(&mut body, fh);
    push_u64(&mut body, len);
    pad(&mut body, 64);
    assert(body@ =~= set_len_body(fh, len));
    body
}

} // verus!
