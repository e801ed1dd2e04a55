//! Open files: what is read and written through the cache, and what goes to the daemon.

use vstd::prelude::*;
use crate::error::Error;
use crate::fuse::cache::{dirty_of_other, fits, invalidated, law_a_write_reads_back, overlaid,
    store_result, stored, CacheView};
use crate::fuse::connection::{Connection, ConnectionView};
use crate::fuse::ranges::{byte_at, byte_at_is, contents, resident, Lease};
use crate::fuse::superblock::{Superblock, SuperblockView};
use crate::fuse::wire::{cache_active, caches, FUSE_WRITEBACK_CACHE};

verus! {

/// The daemon's word that nothing of a file is to be kept.
pub const FOPEN_DIRECT_IO: u32 = 1;

/// The daemon's word that what is kept of a file may stay.
pub const FOPEN_KEEP_CACHE: u32 = 2;

/// An open file.
#[derive(Clone, Copy, Debug, PartialEq, Eq, Structural)]
pub struct OpenFile {
    pub nodeid: u64,
    pub fh: u64,
    pub read: bool,
    pub write: bool,
    /// Whether what is read and written is kept.
    pub cache: bool,
    pub lease: Lease,
    pub poll_key: u64,
    pub size: u64,
}

/// Whether an open drops what an earlier one left.
pub open spec fn open_drops(active: bool, open_flags: u32) -> bool {
    active && open_flags & FOPEN_KEEP_CACHE == 0
}

/// Whether an open file's contents are kept.
pub open spec fn open_keeps(active: bool, open_flags: u32) -> bool {
    active && open_flags & FOPEN_DIRECT_IO == 0
}

/// Whether an open drops what an earlier one left.  What is dirty is sent before.
pub fn drops_cache(active: bool, open_flags: u32) -> (drops: bool)
    ensures
        drops == open_drops(active, open_flags),
{
    active && open_flags & FOPEN_KEEP_CACHE == 0
}

/// Whether an open file's contents are kept.
pub fn keeps_cache(active: bool, open_flags: u32) -> (keeps: bool)
    ensures
        keeps == open_keeps(active, open_flags),
{
    active && open_flags & FOPEN_DIRECT_IO == 0
}

/// How a write goes.
#[derive(Clone, Copy, Debug, PartialEq, Eq, Structural)]
pub enum WritePlan {
    Failed(Error),
    /// It stays with the kernel, and is sent later.
    Keep,
    /// What is dirty of this handle is sent, then the write is.
    Direct,
    /// It is sent, and kept.
    Through,
}

/// How a write goes.
pub open spec fn write_plan(v: ConnectionView, file: OpenFile) -> WritePlan {
    if !file.write {
        WritePlan::Failed(Error::BadFileDescriptor)
    } else if v.dead {
        WritePlan::Failed(Error::NoSuchDevice)
    } else if !file.cache {
        WritePlan::Direct
    } else if v.init is Some && v.init->0.chose(FUSE_WRITEBACK_CACHE) {
        WritePlan::Keep
    } else {
        WritePlan::Through
    }
}

/// How a read goes.
pub enum ReadPlan {
    Failed(Error),
    /// All of it is kept.
    Kept(Vec<u8>),
    /// It is to be read from the daemon, after what is dirty of this handle is sent.
    Direct,
    /// It is to be read from the daemon, and kept.
    Fill,
}

/// Why a read is refused before it is looked at what is kept.
pub open spec fn read_refusal(file: OpenFile, active: bool, offset: u64, len: usize) -> Option<
    Error,
> {
    if !file.read {
        Some(Error::BadFileDescriptor)
    } else if file.cache && active && offset + len > u64::MAX {
        Some(Error::InvalidInput)
    } else {
        None
    }
}

/// The end of a write, where a file can end.
pub open spec fn write_end(offset: u64, len: nat) -> u64 {
    if offset + len <= u64::MAX {
        (offset + len) as u64
    } else {
        u64::MAX
    }
}

/// An open file after a write was kept.
pub open spec fn lengthened(file: OpenFile, offset: u64, len: nat) -> OpenFile {
    OpenFile {
        size: if file.size >= write_end(offset, len) {
            file.size
        } else {
            write_end(offset, len)
        },
        ..file
    }
}

/// What is kept after the daemon took `written` bytes of a write that went past the cache.
pub open spec fn passed_by(c: CacheView, nodeid: u64, offset: u64, written: usize) -> CacheView {
    invalidated(c, nodeid, offset as i64, written as i64)
}

/// What is kept after the daemon changed the contents as a whole.
pub open spec fn contents_forgotten(c: CacheView, nodeid: u64) -> CacheView {
    invalidated(c, nodeid, 0, (-1) as i64)
}

/// What is kept after a file got a new end.
pub open spec fn cut_off(c: CacheView, nodeid: u64, len: u64) -> CacheView {
    invalidated(c, nodeid, len as i64, (-1) as i64)
}

/// What a reader sees of what the daemon sent: what is dirty goes before it.
pub open spec fn filled_in(c: CacheView, nodeid: u64, offset: u64, data: Seq<u8>) -> Seq<u8> {
    Seq::new(data.len(), |k: int| overlaid(c.ranges(nodeid), offset + k, data[k]))
}

pub fn end_of(offset: u64, len: usize) -> (end: u64)
    ensures
        end == write_end(offset, len as nat),
{
    if len as u64 <= u64::MAX - offset {
        offset + len as u64
    } else {
        u64::MAX
    }
}

impl Superblock {
    /// Choose how a read goes.
    pub fn plan_read(&self, connection: &Connection, file: &OpenFile, offset: u64, len: usize) -> (plan:
        ReadPlan)
        requires
            self.wf(),
        ensures
            ({
                let active = caches(connection@.init);
                let ranges = self@.cache.ranges(file.nodeid);
                &&& (plan is Failed) == (read_refusal(*file, active, offset, len) is Some)
                &&& match plan {
                    ReadPlan::Failed(error) => read_refusal(*file, active, offset, len) == Some(
                        error,
                    ),
                    ReadPlan::Kept(data) => file.read && file.cache && active && offset + len
                        <= u64::MAX && self@.cache.inodes.contains_key(file.nodeid) && resident(
                        ranges,
                        offset as int,
                        len as int,
                    ) && data@ == contents(ranges, offset as int, len as nat),
                    ReadPlan::Direct => file.read && !file.cache,
                    ReadPlan::Fill => file.read && file.cache && (!active || (offset + len
                        <= u64::MAX && (!self@.cache.inodes.contains_key(file.nodeid) || !resident(
                        ranges,
                        offset as int,
                        len as int,
                    )))),
                }
            }),
    {
        if !file.read {
            return ReadPlan::Failed(Error::BadFileDescriptor);
        }
        if !file.cache {
            return ReadPlan::Direct;
        }
        let active = cache_active(connection.init);
        match self.cache.cached_read(active, file.nodeid, offset, len) {
            Some(Ok(data)) => ReadPlan::Kept(data),
            Some(Err(error)) => ReadPlan::Failed(error),
            None => ReadPlan::Fill,
        }
    }

    /// Make way for what goes past the cache, now that what is dirty of this handle is sent.
    /// What is dirty of another cannot be passed.
    pub fn pass_cache(&mut self, file: &OpenFile, reading: bool) -> (result: Result<(), Error>)
        requires
            old(self).wf(),
        ensures
            final(self).wf(),
            result == (if dirty_of_other(old(self)@.cache.ranges(file.nodeid), file.fh) {
                Err(Error::ResourceBusy)
            } else {
                Ok(())
            }),
            final(self)@ == (if result is Ok && reading {
                SuperblockView {
                    cache: contents_forgotten(old(self)@.cache, file.nodeid),
                    ..old(self)@
                }
            } else {
                old(self)@
            }),
    {
        if self.cache.has_dirty_owned_by_other(file.nodeid, file.fh) {
            return Err(Error::ResourceBusy);
        }
        if reading {
            self.cache.invalidate_cached_inode(file.nodeid, 0, -1);
        }
        Ok(())
    }

    /// Take what the daemon sent of a stretch.  What is dirty in it goes before what the
    /// daemon says.
    pub fn finish_fill(
        &mut self,
        connection: &Connection,
        file: &OpenFile,
        offset: u64,
        data: Vec<u8>,
    ) -> (result: Result<Vec<u8>, Error>)
        requires
            old(self).wf(),
        ensures
            final(self).wf(),
            ({
                let c = old(self)@.cache;
                let active = caches(connection@.init);
                let seen = filled_in(c, file.nodeid, offset, data@);
                &&& final(self)@ == (SuperblockView {
                    cache: stored(c, active, file.nodeid, offset, seen, None),
                    ..old(self)@
                })
                &&& match (store_result(c, active, file.nodeid, offset, seen, None), result) {
                    (Ok(()), Ok(got)) => got@ == seen,
                    (Err(want), Err(got)) => got == want,
                    _ => false,
                }
            }),
    {
        let mut seen: Vec<u8> = data;
        let active = cache_active(connection.init);
        self.cache.overlay_dirty_cached(file.nodeid, offset, seen.as_mut_slice());
        self.cache.cache_store(active, file.nodeid, offset, seen.as_slice(), None)?;
        Ok(seen)
    }

    /// Keep a write, which is to be sent later.
    pub fn keep_write(
        &mut self,
        connection: &Connection,
        file: &mut OpenFile,
        offset: u64,
        data: &[u8],
    ) -> (result: Result<usize, Error>)
        requires
            old(self).wf(),
        ensures
            final(self).wf(),
            ({
                let c = old(self)@.cache;
                let active = caches(connection@.init);
                let f = *old(file);
                &&& final(self)@ == (SuperblockView {
                    cache: stored(c, active, f.nodeid, offset, data@, Some(f.lease)),
                    ..old(self)@
                })
                &&& match store_result(c, active, f.nodeid, offset, data@, Some(f.lease)) {
                    Ok(()) => result == Ok::<usize, Error>(data@.len() as usize) && *final(file)
                        == lengthened(f, offset, data@.len()),
                    Err(error) => result == Err::<usize, Error>(error) && *final(file) == f,
                }
            }),
    {
        let active = cache_active(connection.init);
        self.cache.cache_store(active, file.nodeid, offset, data, Some(file.lease))?;
        let end: u64 = end_of(offset, data.len());
        if file.size < end {
            file.size = end;
        }
        Ok(data.len())
    }

    /// Note what the daemon took of a write that went past the cache.
    pub fn finish_direct_write(&mut self, file: &OpenFile, offset: u64, written: usize)
        requires
            old(self).wf(),
        ensures
            final(self).wf(),
            final(self)@ == (SuperblockView {
                cache: passed_by(old(self)@.cache, file.nodeid, offset, written),
                ..old(self)@
            }),
    {
        self.cache.invalidate_cached_inode(
            file.nodeid,
            #[verifier::truncate]
            (offset as i64),
            #[verifier::truncate]
            (written as i64),
        );
    }

    /// Keep what the daemon took of a write.
    pub fn finish_write_through(
        &mut self,
        connection: &Connection,
        file: &OpenFile,
        offset: u64,
        data: &[u8],
        written: usize,
    ) -> (result: Result<usize, Error>)
        requires
            old(self).wf(),
            written <= data@.len(),
        ensures
            final(self).wf(),
            ({
                let c = old(self)@.cache;
                let active = caches(connection@.init);
                let taken = data@.take(written as int);
                &&& final(self)@ == (SuperblockView {
                    cache: stored(c, active, file.nodeid, offset, taken, None),
                    ..old(self)@
                })
                &&& result == (match store_result(c, active, file.nodeid, offset, taken, None) {
                    Ok(()) => Ok::<usize, Error>(written),
                    Err(error) => Err(error),
                })
            }),
    {
        let active = cache_active(connection.init);
        let taken = &data[0..written];
        assert(taken@ =~= data@.take(written as int));
        self.cache.cache_store(active, file.nodeid, offset, taken, None)?;
        Ok(written)
    }

    /// Drop what is kept of a file whose contents the daemon has changed as a whole.
    pub fn forget_contents(&mut self, nodeid: u64)
        requires
            old(self).wf(),
        ensures
            final(self).wf(),
            final(self)@ == (SuperblockView {
                cache: contents_forgotten(old(self)@.cache, nodeid),
                ..old(self)@
            }),
    {
        self.cache.invalidate_cached_inode(nodeid, 0, -1);
    }

    /// Drop what is kept of a file behind its new end.
    pub fn finish_set_len(&mut self, nodeid: u64, len: u64)
        requires
            old(self).wf(),
        ensures
            final(self).wf(),
            final(self)@ == (SuperblockView {
                cache: cut_off(old(self)@.cache, nodeid, len),
                ..old(self)@
            }),
    {
        self.cache.invalidate_cached_inode(
            nodeid,
            #[verifier::truncate]
            (len as i64),
            -1,
        );
    }
}

/// Choose how a write goes.
pub fn plan_write(connection: &Connection, file: &OpenFile) -> (plan: WritePlan)
    ensures
        plan == write_plan(connection@, *file),
{
    if !file.write {
        WritePlan::Failed(Error::BadFileDescriptor)
    } else if connection.dead {
        WritePlan::Failed(Error::NoSuchDevice)
    } else if !file.cache {
        WritePlan::Direct
    } else {
        match connection.init {
            Some(init) => if init.flags & FUSE_WRITEBACK_CACHE != 0 {
                WritePlan::Keep
            } else {
                WritePlan::Through
            },
            None => WritePlan::Through,
        }
    }
}

/// The first failure of two steps, of which the second is done in any case.
pub fn first_failure(first: Result<(), Error>, second: Result<(), Error>) -> (result: Result<
    (),
    Error,
>)
    ensures
        result == (if first is Err {
            first
        } else {
            second
        }),
{
    match first {
        Err(error) => Err(error),
        Ok(()) => second,
    }
}

/// What was written and kept is read back through any handle of the file, before the
/// daemon has it.
pub proof fn law_kept_writes_are_read_back(
    s: SuperblockView,
    file: OpenFile,
    offset: u64,
    data: Seq<u8>,
)
    requires
        s.cache.wf(),
        data.len() > 0,
        store_result(s.cache, true, file.nodeid, offset, data, Some(file.lease)) is Ok,
    ensures
        ({
            let c = stored(s.cache, true, file.nodeid, offset, data, Some(file.lease));
            &&& c.inodes.contains_key(file.nodeid)
            &&& resident(c.ranges(file.nodeid), offset as int, data.len() as int)
            &&& contents(c.ranges(file.nodeid), offset as int, data.len()) == data
        }),
{
    let c = stored(s.cache, true, file.nodeid, offset, data, Some(file.lease));
    assert forall|i: int| 0 <= i < data.len() implies #[trigger] byte_at(
        c.ranges(file.nodeid),
        offset + i,
    ) == Some(data[i]) by {
        law_a_write_reads_back(
            s.cache,
            file.nodeid,
            offset,
            data,
            file.lease,
            offset + i,
        );
    }
    assert(contents(c.ranges(file.nodeid), offset as int, data.len()) =~= data);
}

/// What a daemon sends of a stretch never hides what was written to it and not yet sent.
pub proof fn law_dirty_bytes_are_seen(s: SuperblockView, nodeid: u64, i: int, pos: int, sent: u8)
    requires
        s.cache.wf(),
        0 <= i < s.cache.ranges(nodeid).len(),
        s.cache.ranges(nodeid)[i].is_dirty(),
        s.cache.ranges(nodeid)[i].covers(pos),
    ensures
        overlaid(s.cache.ranges(nodeid), pos, sent) == s.cache.ranges(nodeid)[i].data[pos
            - s.cache.ranges(nodeid)[i].offset],
{
    assert(fits(s.cache.inodes[nodeid]));
    byte_at_is(s.cache.ranges(nodeid), i, pos);
}

} // verus!
