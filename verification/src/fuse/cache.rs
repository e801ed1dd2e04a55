//! What the kernel keeps of a file system: file contents and names.
//!
//! The cache is one for the file system, so that reads through different handles agree,
//! while each dirty byte stays with the handle that it was written through.

use vstd::prelude::*;
use std::collections::BTreeMap;
use crate::bootfb::copy_into;
use crate::bytes::{same_bytes, to_vec};
use crate::error::Error;
use crate::fuse::ranges::{byte_at, byte_at_is, contents, copy_range, cost_within, kept,
    kept_is_sound, law_a_stored_range_reads_back, range_views, ranges_cost, read_ranges,
    replace_range, replaced, resident, retain_ranges, sound, CachedRange, Keep, Lease, RangeView};

verus! {

/// Bytes that the cache is charged with at most.
pub const MAX_FUSE_CACHE_BYTES: usize = 0x400_0000;

/// Bytes that a file is charged with at most.
pub const MAX_FUSE_INODE_CACHE_BYTES: usize = 0x80_0000;

/// Ranges of a file.
pub const MAX_FUSE_INODE_CACHE_RANGES: usize = 4096;

/// Names.
pub const MAX_FUSE_DENTRY_CACHE_ENTRIES: usize = 8192;

/// What a file, a range and a name are charged with besides their bytes.
pub const FUSE_CACHE_OVERHEAD: usize = 128;

/// What is kept of a file.
pub struct InodeCache {
    pub ranges: Vec<CachedRange>,
    pub writeback_epoch: u64,
}

/// What is said of what is kept of a file.
#[verifier::ext_equal]
pub struct InodeView {
    pub ranges: Seq<RangeView>,
    pub writeback_epoch: u64,
}

impl View for InodeCache {
    type V = InodeView;

    open spec fn view(&self) -> InodeView {
        InodeView { ranges: range_views(self.ranges@), writeback_epoch: self.writeback_epoch }
    }
}

/// A name of a directory that was looked up.
pub struct CachedDentry {
    pub parent: u64,
    pub name: Vec<u8>,
    /// What the name stood for.
    pub entry: u64,
    pub deadline: u64,
    pub epoch: u64,
}

/// What is said of a name.
#[verifier::ext_equal]
pub struct DentryView {
    pub parent: u64,
    pub name: Seq<u8>,
    pub entry: u64,
    pub deadline: u64,
    pub epoch: u64,
}

impl View for CachedDentry {
    type V = DentryView;

    open spec fn view(&self) -> DentryView {
        DentryView {
            parent: self.parent,
            name: self.name@,
            entry: self.entry,
            deadline: self.deadline,
            epoch: self.epoch,
        }
    }
}

/// What the kernel keeps of a file system.
pub struct Cache {
    pub inodes: BTreeMap<u64, InodeCache>,
    pub dentries: Vec<CachedDentry>,
    pub bytes: usize,
}

/// What is said of a cache.
#[verifier::ext_equal]
pub struct CacheView {
    pub inodes: Map<u64, InodeView>,
    pub dentries: Seq<DentryView>,
    pub bytes: usize,
}

pub open spec fn dentry_views(dentries: Seq<CachedDentry>) -> Seq<DentryView> {
    Seq::new(dentries.len(), |i: int| dentries[i]@)
}

/// What a file is charged with.
pub open spec fn inode_cost(ranges: Seq<RangeView>) -> nat {
    128 + ranges_cost(ranges)
}

/// What is kept of a file is sound and within its limits.
pub open spec fn fits(inode: InodeView) -> bool {
    &&& sound(inode.ranges)
    &&& inode.ranges.len() <= MAX_FUSE_INODE_CACHE_RANGES
    &&& inode_cost(inode.ranges) <= MAX_FUSE_INODE_CACHE_BYTES
}

/// The charge that is left when one is taken off.
pub open spec fn less(bytes: usize, by: nat) -> nat {
    if bytes >= by {
        (bytes - by) as nat
    } else {
        0
    }
}

/// The charge after a file's changed.
pub open spec fn recharged(bytes: usize, before: nat, after: nat) -> usize {
    if less(bytes, before) + after >= usize::MAX {
        usize::MAX
    } else {
        (less(bytes, before) + after) as usize
    }
}

impl CacheView {
    /// The ranges of a file.
    pub open spec fn ranges(self, nodeid: u64) -> Seq<RangeView> {
        if self.inodes.contains_key(nodeid) {
            self.inodes[nodeid].ranges
        } else {
            Seq::empty()
        }
    }

    pub open spec fn wf(self) -> bool {
        forall|id: u64| #[trigger] self.inodes.contains_key(id) ==> fits(self.inodes[id])
    }

    pub open spec fn with_ranges(self, nodeid: u64, ranges: Seq<RangeView>) -> CacheView {
        CacheView {
            inodes: self.inodes.insert(nodeid, InodeView { ranges, ..self.inodes[nodeid] }),
            ..self
        }
    }

    /// The cache after ranges of a file were dropped.
    pub open spec fn retained(self, nodeid: u64, keep: Keep) -> CacheView {
        if !self.inodes.contains_key(nodeid) {
            self
        } else {
            let ranges = kept(self.inodes[nodeid].ranges, keep);
            CacheView {
                bytes: recharged(
                    self.bytes,
                    inode_cost(self.inodes[nodeid].ranges),
                    inode_cost(ranges),
                ),
                ..self.with_ranges(nodeid, ranges)
            }
        }
    }

    /// The cache after a file was dropped.
    pub open spec fn without(self, nodeid: u64) -> CacheView {
        CacheView {
            inodes: self.inodes.remove(nodeid),
            bytes: less(self.bytes, inode_cost(self.inodes[nodeid].ranges)) as usize,
            ..self
        }
    }
}

/// Whether a dirty range has a byte of a stretch.
pub open spec fn dirty_within(ranges: Seq<RangeView>, from: int, to: int) -> bool {
    exists|i: int|
        0 <= i < ranges.len() && (#[trigger] ranges[i]).is_dirty() && ranges[i].meets(from, to)
}

/// Where a stretch ends, at the latest where a file can.
pub open spec fn stretch_end(offset: u64, len: nat) -> int {
    if offset + len <= u64::MAX {
        offset + len
    } else {
        u64::MAX as int
    }
}

/// The epoch of the next range of a file.
pub open spec fn next_epoch(c: CacheView, nodeid: u64) -> u64 {
    if !c.inodes.contains_key(nodeid) || c.inodes[nodeid].writeback_epoch == u64::MAX {
        1
    } else {
        (c.inodes[nodeid].writeback_epoch + 1) as u64
    }
}

/// The range that a store adds.
pub open spec fn store_range(
    c: CacheView,
    nodeid: u64,
    offset: u64,
    data: Seq<u8>,
    owner: Option<Lease>,
) -> RangeView {
    RangeView { offset, data, epoch: next_epoch(c, nodeid), inflight: false, owner }
}

/// Whether the ranges of a file and its charge are within the limits.
pub open spec fn within_limits(c: CacheView, nodeid: u64, ranges: Seq<RangeView>) -> bool {
    let before = if c.inodes.contains_key(nodeid) {
        inode_cost(c.inodes[nodeid].ranges)
    } else {
        0
    };
    &&& ranges.len() <= MAX_FUSE_INODE_CACHE_RANGES
    &&& inode_cost(ranges) <= MAX_FUSE_INODE_CACHE_BYTES
    &&& inode_cost(ranges) + less(c.bytes, before) <= MAX_FUSE_CACHE_BYTES
}

/// Whether a store changes nothing and succeeds: there is nothing to keep, or what the
/// daemon said would replace bytes that it was not yet sent.
pub open spec fn store_is_idle(
    c: CacheView,
    active: bool,
    nodeid: u64,
    offset: u64,
    data: Seq<u8>,
    owner: Option<Lease>,
) -> bool {
    !active || data.len() == 0 || (owner is None && dirty_within(
        c.ranges(nodeid),
        offset as int,
        stretch_end(offset, data.len()),
    ))
}

/// The result of a store.
pub open spec fn store_result(
    c: CacheView,
    active: bool,
    nodeid: u64,
    offset: u64,
    data: Seq<u8>,
    owner: Option<Lease>,
) -> Result<(), Error> {
    if store_is_idle(c, active, nodeid, offset, data, owner) {
        Ok(())
    } else if offset + data.len() > u64::MAX {
        Err(Error::InvalidInput)
    } else if owner is None || within_limits(
        c,
        nodeid,
        replaced(c.ranges(nodeid), store_range(c, nodeid, offset, data, owner)),
    ) {
        Ok(())
    } else {
        Err(Error::ResourceBusy)
    }
}

/// The cache after a store.
pub open spec fn stored(
    c: CacheView,
    active: bool,
    nodeid: u64,
    offset: u64,
    data: Seq<u8>,
    owner: Option<Lease>,
) -> CacheView {
    let range = store_range(c, nodeid, offset, data, owner);
    let ranges = replaced(c.ranges(nodeid), range);
    if store_is_idle(c, active, nodeid, offset, data, owner) || offset + data.len() > u64::MAX
        || !within_limits(c, nodeid, ranges) {
        c
    } else {
        CacheView {
            inodes: c.inodes.insert(
                nodeid,
                InodeView { ranges, writeback_epoch: range.epoch },
            ),
            bytes: recharged(
                c.bytes,
                if c.inodes.contains_key(nodeid) {
                    inode_cost(c.inodes[nodeid].ranges)
                } else {
                    0
                },
                inode_cost(ranges),
            ),
            ..c
        }
    }
}

/// A dirty store that is taken is what is then read of the file, and nothing else of
/// the file changes.
pub proof fn law_a_write_reads_back(
    c: CacheView,
    nodeid: u64,
    offset: u64,
    data: Seq<u8>,
    owner: Lease,
    pos: int,
)
    requires
        c.wf(),
        store_result(c, true, nodeid, offset, data, Some(owner)) is Ok,
        data.len() > 0,
    ensures
        ({
            let after = stored(c, true, nodeid, offset, data, Some(owner));
            &&& after.wf()
            &&& byte_at(after.ranges(nodeid), pos) == (if offset <= pos < offset + data.len() {
                Some(data[pos - offset])
            } else {
                byte_at(c.ranges(nodeid), pos)
            })
            &&& forall|other: u64| other != nodeid ==> after.ranges(other) == c.ranges(other)
        }),
{
    let range = store_range(c, nodeid, offset, data, Some(owner));
    let ranges = c.ranges(nodeid);
    assert(sound(ranges)) by {
        if c.inodes.contains_key(nodeid) {
            assert(c.inodes.contains_key(nodeid));
            assert(fits(c.inodes[nodeid]));
        }
    }
    law_a_stored_range_reads_back(ranges, range, pos);
    let after = stored(c, true, nodeid, offset, data, Some(owner));
    assert(after.ranges(nodeid) == replaced(ranges, range));
}

/// What the daemon says of bytes that it was not yet sent does not replace them.
pub proof fn law_a_fill_spares_dirty_bytes(
    c: CacheView,
    active: bool,
    nodeid: u64,
    offset: u64,
    data: Seq<u8>,
    i: int,
    pos: int,
)
    requires
        c.wf(),
        0 <= i < c.ranges(nodeid).len(),
        c.ranges(nodeid)[i].is_dirty(),
        c.ranges(nodeid)[i].covers(pos),
    ensures
        byte_at(stored(c, active, nodeid, offset, data, None).ranges(nodeid), pos) == byte_at(
            c.ranges(nodeid),
            pos,
        ),
{
    let range = store_range(c, nodeid, offset, data, None);
    let ranges = c.ranges(nodeid);
    assert(c.inodes.contains_key(nodeid));
    assert(fits(c.inodes[nodeid]));
    let after = stored(c, active, nodeid, offset, data, None);
    if after != c {
        assert(!dirty_within(ranges, offset as int, stretch_end(offset, data.len())));
        assert(!ranges[i].meets(offset as int, stretch_end(offset, data.len())));
        law_a_stored_range_reads_back(ranges, range, pos);
    }
}

/// The dirty byte of a position.
pub open spec fn overlaid(ranges: Seq<RangeView>, pos: int, below: u8) -> u8 {
    if exists|i: int|
        0 <= i < ranges.len() && (#[trigger] ranges[i]).is_dirty() && ranges[i].covers(pos) {
        byte_at(ranges, pos)->0
    } else {
        below
    }
}

/// Whether a range is to be sent when the ranges of `fh`, or all, are.
pub open spec fn is_sendable(range: RangeView, fh: Option<u64>) -> bool {
    &&& !range.inflight
    &&& range.owner is Some
    &&& fh is Some ==> fh->0 == range.owner->0.fh
}

pub open spec fn marked(range: RangeView, fh: Option<u64>) -> RangeView {
    if is_sendable(range, fh) {
        RangeView { inflight: true, ..range }
    } else {
        range
    }
}

/// The ranges after those that are to be sent are marked.
pub open spec fn all_marked(ranges: Seq<RangeView>, fh: Option<u64>) -> Seq<RangeView> {
    Seq::new(ranges.len(), |i: int| marked(ranges[i], fh))
}

/// The ranges that are to be sent, marked.
pub open spec fn to_send(ranges: Seq<RangeView>, fh: Option<u64>) -> Seq<RangeView>
    decreases ranges.len(),
{
    if ranges.len() == 0 {
        Seq::empty()
    } else if is_sendable(ranges.last(), fh) {
        to_send(ranges.drop_last(), fh).push(marked(ranges.last(), fh))
    } else {
        to_send(ranges.drop_last(), fh)
    }
}

/// Where the first range of an epoch and an offset stands.
pub open spec fn place(ranges: Seq<RangeView>, epoch: u64, offset: u64) -> int
    decreases ranges.len(),
{
    if ranges.len() == 0 {
        0
    } else if ranges[0].epoch == epoch && ranges[0].offset == offset {
        0
    } else {
        1 + place(ranges.drop_first(), epoch, offset)
    }
}

proof fn place_is(ranges: Seq<RangeView>, epoch: u64, offset: u64, i: int)
    requires
        0 <= i <= ranges.len(),
        forall|j: int|
            0 <= j < i ==> !((#[trigger] ranges[j]).epoch == epoch && ranges[j].offset == offset),
        i < ranges.len() ==> ranges[i].epoch == epoch && ranges[i].offset == offset,
    ensures
        place(ranges, epoch, offset) == i,
    decreases ranges.len(),
{
    if i > 0 {
        let rest = ranges.drop_first();
        assert(!(ranges[0].epoch == epoch && ranges[0].offset == offset));
        assert forall|j: int| 0 <= j < i - 1 implies !((#[trigger] rest[j]).epoch == epoch
            && rest[j].offset == offset) by {
            assert(rest[j] == ranges[j + 1]);
        }
        if i < ranges.len() {
            assert(rest[i - 1] == ranges[i]);
        }
        place_is(rest, epoch, offset, i - 1);
    }
}

/// The ranges after one is no longer being sent.
pub open spec fn unmarked(ranges: Seq<RangeView>, epoch: u64, offset: u64) -> Seq<RangeView> {
    let i = place(ranges, epoch, offset);
    if 0 <= i < ranges.len() {
        ranges.update(i, RangeView { inflight: false, ..ranges[i] })
    } else {
        ranges
    }
}

/// The ranges after those of `sent` from `from` on are no longer being sent.
pub open spec fn all_unmarked(ranges: Seq<RangeView>, sent: Seq<RangeView>, from: int) -> Seq<
    RangeView,
>
    decreases sent.len() - from,
{
    if from < 0 || from >= sent.len() {
        ranges
    } else {
        all_unmarked(unmarked(ranges, sent[from].epoch, sent[from].offset), sent, from + 1)
    }
}

/// Marks change neither soundness nor charges.
pub proof fn same_shape(a: Seq<RangeView>, b: Seq<RangeView>)
    requires
        a.len() == b.len(),
        forall|i: int|
            0 <= i < a.len() ==> (#[trigger] a[i]).offset == b[i].offset && a[i].data == b[i].data,
        sound(a),
    ensures
        sound(b),
        ranges_cost(a) == ranges_cost(b),
    decreases a.len(),
{
    assert forall|i: int| 0 <= i < b.len() implies (#[trigger] b[i]).data.len() > 0 && b[i].end()
        <= u64::MAX by {
        assert(a[i].data.len() > 0);
    }
    assert forall|i: int, j: int| 0 <= i < j < b.len() implies !(#[trigger] b[i]).meets(
        b[j].offset as int,
        (#[trigger] b[j]).end(),
    ) by {
        assert(!a[i].meets(a[j].offset as int, a[j].end()));
    }
    if a.len() > 0 {
        let x = a.drop_last();
        let y = b.drop_last();
        assert forall|i: int| 0 <= i < x.len() implies (#[trigger] x[i]).offset == y[i].offset
            && x[i].data == y[i].data by {
            assert(x[i] == a[i]);
        }
        assert(sound(x)) by {
            assert forall|i: int| 0 <= i < x.len() implies (#[trigger] x[i]).data.len() > 0
                && x[i].end() <= u64::MAX by {
                assert(x[i] == a[i]);
            }
            assert forall|i: int, j: int| 0 <= i < j < x.len() implies !(#[trigger] x[i]).meets(
                x[j].offset as int,
                (#[trigger] x[j]).end(),
            ) by {
                assert(x[i] == a[i] && x[j] == a[j]);
            }
        }
        same_shape(x, y);
        assert(a[a.len() - 1].data == b[b.len() - 1].data);
    }
}

/// Whether a dirty range of a file belongs to a handle other than `fh`.
pub open spec fn dirty_of_other(ranges: Seq<RangeView>, fh: u64) -> bool {
    exists|i: int|
        0 <= i < ranges.len() && (#[trigger] ranges[i]).owner is Some && ranges[i].owner->0.fh != fh
}

/// Whether a dirty range of a file is being sent.
pub open spec fn dirty_inflight(ranges: Seq<RangeView>) -> bool {
    exists|i: int| 0 <= i < ranges.len() && (#[trigger] ranges[i]).inflight && ranges[i].is_dirty()
}

/// Whether a dirty range of a file belongs to a handle that no longer lives.
pub open spec fn dirty_of_dead(ranges: Seq<RangeView>, handles: Seq<Lease>) -> bool {
    exists|i: int|
        0 <= i < ranges.len() && (#[trigger] ranges[i]).owner is Some && !handles.contains(
            ranges[i].owner->0,
        )
}

/// Whether a range of a file is dirty.
pub open spec fn any_dirty(ranges: Seq<RangeView>) -> bool {
    exists|i: int| 0 <= i < ranges.len() && (#[trigger] ranges[i]).is_dirty()
}

/// What stays when a daemon invalidates a stretch of a file.  A length that is not
/// positive goes to the end of the file.
pub open spec fn invalidation(offset: i64, length: i64) -> Keep {
    if length <= 0 {
        Keep::Before(offset as u64)
    } else {
        Keep::Outside(offset as u64, (offset + length) as u64)
    }
}

/// The cache after a stretch of a file was invalidated.  A negative offset stands for
/// the whole file.
pub open spec fn invalidated(c: CacheView, nodeid: u64, offset: i64, length: i64) -> CacheView {
    if !c.inodes.contains_key(nodeid) {
        c
    } else if offset < 0 {
        CacheView {
            bytes: less(c.bytes, inode_cost(c.inodes[nodeid].ranges)) as usize,
            ..c.with_ranges(nodeid, Seq::empty())
        }
    } else {
        c.retained(nodeid, invalidation(offset, length))
    }
}

/// The cache after the clean ranges of a stretch were dropped.
pub open spec fn clean_invalidated(c: CacheView, nodeid: u64, offset: i64, length: i64) -> CacheView {
    c.retained(
        nodeid,
        if offset < 0 || length < 0 {
            Keep::Dirty
        } else {
            Keep::DirtyOrOutside(offset as u64, (offset + length) as u64)
        },
    )
}

/// Where the first name of a directory stands.
pub open spec fn dentry_at(dentries: Seq<DentryView>, parent: u64, name: Seq<u8>) -> int
    decreases dentries.len(),
{
    if dentries.len() == 0 {
        0
    } else if dentries[0].parent == parent && dentries[0].name == name {
        0
    } else {
        1 + dentry_at(dentries.drop_first(), parent, name)
    }
}

proof fn dentry_at_is(dentries: Seq<DentryView>, parent: u64, name: Seq<u8>, i: int)
    requires
        0 <= i <= dentries.len(),
        forall|j: int|
            0 <= j < i ==> !((#[trigger] dentries[j]).parent == parent && dentries[j].name == name),
        i < dentries.len() ==> dentries[i].parent == parent && dentries[i].name == name,
    ensures
        dentry_at(dentries, parent, name) == i,
    decreases dentries.len(),
{
    if i > 0 {
        let rest = dentries.drop_first();
        assert(!(dentries[0].parent == parent && dentries[0].name == name));
        assert forall|j: int| 0 <= j < i - 1 implies !((#[trigger] rest[j]).parent == parent
            && rest[j].name == name) by {
            assert(rest[j] == dentries[j + 1]);
        }
        if i < dentries.len() {
            assert(rest[i - 1] == dentries[i]);
        }
        dentry_at_is(rest, parent, name, i - 1);
    }
}

/// A name that is added where it was not is found at the end.
pub proof fn dentry_at_the_end(dentries: Seq<DentryView>, new: DentryView)
    requires
        dentry_at(dentries, new.parent, new.name) >= dentries.len(),
    ensures
        dentry_at(dentries.push(new), new.parent, new.name) == dentries.len(),
    decreases dentries.len(),
{
    let all = dentries.push(new);
    if dentries.len() > 0 {
        dentry_at_the_end(dentries.drop_first(), new);
        assert(all.drop_first() =~= dentries.drop_first().push(new));
        assert(all[0] == dentries[0]);
    }
}

/// What a name is charged with.
pub open spec fn dentry_cost(name: Seq<u8>) -> nat {
    128 + name.len()
}

/// The cache after a name was dropped.
pub open spec fn dentry_dropped(c: CacheView, parent: u64, name: Seq<u8>) -> CacheView {
    let i = dentry_at(c.dentries, parent, name);
    if i < c.dentries.len() {
        CacheView {
            dentries: c.dentries.remove(i),
            bytes: less(c.bytes, dentry_cost(name)) as usize,
            ..c
        }
    } else {
        c
    }
}

/// The cache after a name was looked up.  The name is kept if there is room, and
/// replaces what it stood for before.
pub open spec fn dentry_kept(c: CacheView, new: DentryView) -> CacheView {
    let i = dentry_at(c.dentries, new.parent, new.name);
    if c.dentries.len() >= MAX_FUSE_DENTRY_CACHE_ENTRIES || c.bytes + dentry_cost(new.name)
        > MAX_FUSE_CACHE_BYTES {
        c
    } else if i < c.dentries.len() {
        CacheView { dentries: c.dentries.update(i, new), ..c }
    } else {
        CacheView {
            dentries: c.dentries.push(new),
            bytes: (c.bytes + dentry_cost(new.name)) as usize,
            ..c
        }
    }
}

/// What a name stands for, as long as nothing has changed the directory and the daemon's
/// word holds.
pub open spec fn dentry_found(
    c: CacheView,
    parent: u64,
    name: Seq<u8>,
    epoch: u64,
    now: u64,
) -> Option<u64> {
    let i = dentry_at(c.dentries, parent, name);
    if i < c.dentries.len() && c.dentries[i].epoch == epoch && now < c.dentries[i].deadline {
        Some(c.dentries[i].entry)
    } else {
        None
    }
}

fn take_off(bytes: usize, by: usize) -> (left: usize)
    ensures
        left == less(bytes, by as nat),
{
    if bytes >= by {
        bytes - by
    } else {
        0
    }
}

fn recharge(bytes: usize, before: usize, after: usize) -> (total: usize)
    ensures
        total == recharged(bytes, before as nat, after as nat),
{
    let left: usize = take_off(bytes, before);
    if after >= usize::MAX - left {
        usize::MAX
    } else {
        left + after
    }
}

/// The charge of ranges that are within the limits.
fn known_cost(ranges: &Vec<CachedRange>) -> (cost: usize)
    requires
        inode_cost(range_views(ranges@)) <= MAX_FUSE_INODE_CACHE_BYTES,
    ensures
        cost == inode_cost(range_views(ranges@)),
{
    match cost_within(ranges, MAX_FUSE_INODE_CACHE_BYTES) {
        Some(cost) => FUSE_CACHE_OVERHEAD + cost,
        None => 0,
    }
}

impl Cache {
    pub open spec fn view(&self) -> CacheView {
        CacheView {
            inodes: self.inodes@.map_values(|inode: InodeCache| inode@),
            dentries: dentry_views(self.dentries@),
            bytes: self.bytes,
        }
    }

    pub fn new() -> (cache: Cache)
        ensures
            cache@ == (CacheView { inodes: Map::empty(), dentries: Seq::empty(), bytes: 0 }),
            cache@.wf(),
    {
        let cache = Cache { inodes: BTreeMap::new(), dentries: Vec::new(), bytes: 0 };
        assert(cache@.inodes =~= Map::empty());
        assert(cache@.dentries =~= Seq::empty());
        cache
    }

    /// Drop everything.
    pub fn clear(&mut self)
        ensures
            final(self)@ == (CacheView { inodes: Map::empty(), dentries: Seq::empty(), bytes: 0 }),
            final(self)@.wf(),
    {
        *self = Cache::new();
    }

    /// Whether anything is kept of a file.
    pub fn holds(&self, nodeid: u64) -> (held: bool)
        ensures
            held == self@.inodes.contains_key(nodeid),
    {
        self.inodes.get(&nodeid).is_some()
    }

    /// Read a stretch of a file, if all of it is kept.
    pub fn cached_read(&self, active: bool, nodeid: u64, offset: u64, len: usize) -> (data: Option<
        Result<Vec<u8>, Error>,
    >)
        requires
            self@.wf(),
        ensures
            match data {
                Some(Ok(data)) => active && offset + len <= u64::MAX && self@.inodes.contains_key(
                    nodeid,
                ) && resident(self@.ranges(nodeid), offset as int, len as int) && data@ == contents(
                    self@.ranges(nodeid),
                    offset as int,
                    len as nat,
                ),
                Some(Err(error)) => active && offset + len > u64::MAX && error
                    == Error::InvalidInput,
                None => !active || (offset + len <= u64::MAX && (!self@.inodes.contains_key(nodeid)
                    || !resident(self@.ranges(nodeid), offset as int, len as int))),
            },
    {
        if !active {
            return None;
        }
        if len as u64 > u64::MAX - offset {
            return Some(Err(Error::InvalidInput));
        }
        match self.inodes.get(&nodeid) {
            Some(inode) => {
                assert(self@.inodes[nodeid] == inode@);
                assert(self.inodes@.contains_key(nodeid));
                assert(self@.inodes.contains_key(nodeid));
                assert(fits(self@.inodes[nodeid]));
                match read_ranges(&inode.ranges, offset, len) {
                    Some(data) => Some(Ok(data)),
                    None => None,
                }
            },
            None => None,
        }
    }

    /// Lay the dirty bytes of a stretch over what the daemon sent of it.
    pub fn overlay_dirty_cached(&self, nodeid: u64, offset: u64, out: &mut [u8])
        requires
            self@.wf(),
        ensures
            final(out)@ == Seq::new(
                old(out)@.len(),
                |k: int| overlaid(self@.ranges(nodeid), offset + k, old(out)@[k]),
            ),
    {
        let len: usize = out.len();
        match self.inodes.get(&nodeid) {
            Some(inode) => {
                assert(self@.inodes[nodeid] == inode@);
                assert(self.inodes@.contains_key(nodeid));
                assert(self@.inodes.contains_key(nodeid));
                assert(fits(self@.inodes[nodeid]));
                overlay(&inode.ranges, offset, out);
            },
            None => {
                assert(out@ =~= Seq::new(
                    old(out)@.len(),
                    |k: int| overlaid(self@.ranges(nodeid), offset + k, old(out)@[k]),
                ));
            },
        }
    }

    /// Keep a stretch of a file: what the daemon sent of it, or what a handle wrote.
    ///
    /// What the daemon sends is kept where there is room, and dropped without a word
    /// where there is not.  A write that is not kept is refused, so that none that was
    /// acknowledged is lost.
    pub fn cache_store(
        &mut self,
        active: bool,
        nodeid: u64,
        offset: u64,
        data: &[u8],
        owner: Option<Lease>,
    ) -> (result: Result<(), Error>)
        requires
            old(self)@.wf(),
        ensures
            final(self)@.wf(),
            result == store_result(old(self)@, active, nodeid, offset, data@, owner),
            final(self)@ == stored(old(self)@, active, nodeid, offset, data@, owner),
    {
        let ghost c = self@;
        if !active || data.len() == 0 {
            return Ok(());
        }
        let end: u64 = if data.len() as u64 <= u64::MAX - offset {
            offset + data.len() as u64
        } else {
            u64::MAX
        };
        let mut epoch: u64 = 1;
        let mut before: usize = 0;
        let empty: Vec<CachedRange> = Vec::new();
        assert(range_views(empty@) =~= Seq::<RangeView>::empty());
        let ranges: &Vec<CachedRange> = match self.inodes.get(&nodeid) {
            Some(inode) => {
                assert(c.inodes[nodeid] == inode@);
                assert(old(self).inodes@.contains_key(nodeid));
                assert(c.inodes.contains_key(nodeid));
                assert(fits(c.inodes[nodeid]));
                if inode.writeback_epoch != u64::MAX {
                    epoch = inode.writeback_epoch + 1;
                }
                before = known_cost(&inode.ranges);
                &inode.ranges
            },
            None => &empty,
        };
        assert(range_views(ranges@) == c.ranges(nodeid));
        if owner.is_none() && has_dirty_within(ranges, offset, end) {
            return Ok(());
        }
        if data.len() as u64 > u64::MAX - offset {
            return Err(Error::InvalidInput);
        }
        let range = CachedRange { offset, data: to_vec(data), epoch, inflight: false, owner };
        assert(range@ =~= store_range(c, nodeid, offset, data@, owner));
        proof {
            law_a_stored_range_reads_back(c.ranges(nodeid), range@, 0);
        }
        let staged: Vec<CachedRange> = replace_range(ranges, range);
        let after: Option<usize> = cost_within(&staged, MAX_FUSE_INODE_CACHE_BYTES - 128);
        let other: usize = take_off(self.bytes, before);
        let fitting: Option<usize> = match after {
            Some(cost) => if staged.len() <= MAX_FUSE_INODE_CACHE_RANGES && other
                <= MAX_FUSE_CACHE_BYTES && FUSE_CACHE_OVERHEAD + cost <= MAX_FUSE_CACHE_BYTES - other {
                Some(FUSE_CACHE_OVERHEAD + cost)
            } else {
                None
            },
            None => None,
        };
        assert((fitting is Some) == within_limits(c, nodeid, range_views(staged@)));
        match fitting {
            None => {
                if owner.is_none() {
                    Ok(())
                } else {
                    Err(Error::ResourceBusy)
                }
            },
            Some(cost) => {
                let total: usize = recharge(self.bytes, before, cost);
                self.inodes.insert(nodeid, InodeCache { ranges: staged, writeback_epoch: epoch });
                self.bytes = total;
                assert(self@.inodes =~= stored(c, active, nodeid, offset, data@, owner).inodes);
                Ok(())
            },
        }
    }

    /// Mark the dirty ranges of a file as being sent, those of one handle or all.  The
    /// result is what is to be sent.
    pub fn take_dirty(&mut self, nodeid: u64, fh: Option<u64>) -> (dirty: Vec<CachedRange>)
        requires
            old(self)@.wf(),
        ensures
            final(self)@.wf(),
            range_views(dirty@) == to_send(old(self)@.ranges(nodeid), fh),
            final(self)@ == (if old(self)@.inodes.contains_key(nodeid) {
                old(self)@.with_ranges(nodeid, all_marked(old(self)@.ranges(nodeid), fh))
            } else {
                old(self)@
            }),
    {
        let ghost c = self@;
        let mut dirty: Vec<CachedRange> = Vec::new();
        assert(range_views(dirty@) =~= to_send(Seq::<RangeView>::empty(), fh));
        if let Some(mut inode) = self.inodes.remove(&nodeid) {
            let ghost first = c.inodes[nodeid].ranges;
            assert(c.inodes[nodeid] == inode@);
            assert(old(self).inodes@.contains_key(nodeid));
            assert(c.inodes.contains_key(nodeid));
            assert(fits(c.inodes[nodeid]));
            let ghost rest = self.inodes@;
            let mut i: usize = 0;
            assert(first.take(0) =~= Seq::<RangeView>::empty());
            while i < inode.ranges.len()
                invariant
                    i <= inode.ranges@.len(),
                    inode.ranges@.len() == first.len(),
                    inode.writeback_epoch == c.inodes[nodeid].writeback_epoch,
                    forall|j: int| 0 <= j < i ==> #[trigger] inode.ranges@[j]@ == marked(first[j], fh),
                    forall|j: int|
                        i <= j < first.len() ==> #[trigger] inode.ranges@[j]@ == first[j],
                    range_views(dirty@) == to_send(first.take(i as int), fh),
                decreases inode.ranges@.len() - i,
            {
                assert(first.take(i as int + 1).drop_last() =~= first.take(i as int));
                assert(first.take(i as int + 1).last() == first[i as int]);
                assert(inode.ranges@[i as int]@ == first[i as int]);
                let sendable = !inode.ranges[i].inflight && match inode.ranges[i].owner {
                    Some(owner) => match fh {
                        Some(wanted) => wanted == owner.fh,
                        None => true,
                    },
                    None => false,
                };
                if sendable {
                    inode.ranges[i].inflight = true;
                    assert(inode.ranges@[i as int]@ =~= marked(first[i as int], fh));
                    let ghost sofar = dirty@;
                    dirty.push(copy_range(&inode.ranges[i]));
                    assert(range_views(dirty@) =~= range_views(sofar).push(
                        marked(first[i as int], fh),
                    ));
                }
                i = i + 1;
            }
            assert(first.take(i as int) =~= first);
            assert(range_views(inode.ranges@) =~= all_marked(first, fh));
            proof {
                same_shape(first, all_marked(first, fh));
            }
            self.inodes.insert(nodeid, inode);
            assert(self@.inodes =~= c.with_ranges(nodeid, all_marked(first, fh)).inodes);
        } else {
            assert(self@.inodes =~= c.inodes);
        }
        dirty
    }

    /// Note that ranges, from `from` on, are no longer being sent.
    pub fn restore_dirty(&mut self, nodeid: u64, sent: &Vec<CachedRange>, from: usize)
        requires
            old(self)@.wf(),
            from <= sent@.len(),
        ensures
            final(self)@.wf(),
            final(self)@ == (if old(self)@.inodes.contains_key(nodeid) {
                old(self)@.with_ranges(
                    nodeid,
                    all_unmarked(
                        old(self)@.ranges(nodeid),
                        range_views(sent@),
                        from as int,
                    ),
                )
            } else {
                old(self)@
            }),
    {
        let ghost c = self@;
        let ghost views = range_views(sent@);
        if let Some(mut inode) = self.inodes.remove(&nodeid) {
            let ghost first = c.inodes[nodeid].ranges;
            assert(c.inodes[nodeid] == inode@);
            assert(old(self).inodes@.contains_key(nodeid));
            assert(c.inodes.contains_key(nodeid));
            assert(fits(c.inodes[nodeid]));
            let ghost goal = all_unmarked(first, views, from as int);
            let mut i: usize = from;
            while i < sent.len()
                invariant
                    i <= sent@.len(),
                    views == range_views(sent@),
                    inode.writeback_epoch == c.inodes[nodeid].writeback_epoch,
                    fits(inode@),
                    all_unmarked(inode@.ranges, views, i as int) == goal,
                decreases sent@.len() - i,
            {
                let ghost now = inode@.ranges;
                assert(views[i as int] == sent@[i as int]@);
                let at: usize = find_place(&inode.ranges, sent[i].epoch, sent[i].offset);
                if at < inode.ranges.len() {
                    assert(now[at as int] == inode.ranges@[at as int]@);
                    inode.ranges[at].inflight = false;
                }
                let ghost then = unmarked(now, views[i as int].epoch, views[i as int].offset);
                assert(inode@.ranges =~= then);
                proof {
                    same_shape(now, then);
                }
                i = i + 1;
            }
            self.inodes.insert(nodeid, inode);
            assert(self@.inodes =~= c.with_ranges(nodeid, goal).inodes);
        } else {
            assert(self@.inodes =~= c.inodes);
        }
    }

    /// Drop ranges of a file.
    fn retain(&mut self, nodeid: u64, keep: Keep)
        requires
            old(self)@.wf(),
        ensures
            final(self)@.wf(),
            final(self)@ == old(self)@.retained(nodeid, keep),
    {
        let ghost c = self@;
        if let Some(mut inode) = self.inodes.remove(&nodeid) {
            let ghost first = c.inodes[nodeid].ranges;
            assert(c.inodes[nodeid] == inode@);
            assert(old(self).inodes@.contains_key(nodeid));
            assert(c.inodes.contains_key(nodeid));
            assert(fits(c.inodes[nodeid]));
            proof {
                kept_is_sound(first, keep);
            }
            let before: usize = known_cost(&inode.ranges);
            retain_ranges(&mut inode.ranges, keep);
            let after: usize = known_cost(&inode.ranges);
            self.bytes = recharge(self.bytes, before, after);
            self.inodes.insert(nodeid, inode);
            assert(self@.inodes =~= c.retained(nodeid, keep).inodes);
        } else {
            assert(self@.inodes =~= c.inodes);
        }
    }

    /// Drop a range that the daemon has taken.
    pub fn complete_dirty(&mut self, nodeid: u64, epoch: u64, offset: u64)
        requires
            old(self)@.wf(),
        ensures
            final(self)@.wf(),
            final(self)@ == old(self)@.retained(nodeid, Keep::Unsent(epoch, offset)),
    {
        self.retain(nodeid, Keep::Unsent(epoch, offset));
    }

    /// Drop what is kept of a stretch of a file, dirty or not.
    pub fn invalidate_cached_inode(&mut self, nodeid: u64, offset: i64, length: i64)
        requires
            old(self)@.wf(),
        ensures
            final(self)@.wf(),
            final(self)@ == invalidated(old(self)@, nodeid, offset, length),
    {
        let ghost c = self@;
        if offset < 0 {
            if let Some(inode) = self.inodes.remove(&nodeid) {
                assert(c.inodes[nodeid] == inode@);
                assert(old(self).inodes@.contains_key(nodeid));
                assert(c.inodes.contains_key(nodeid));
                assert(fits(c.inodes[nodeid]));
                let before: usize = known_cost(&inode.ranges);
                self.bytes = take_off(self.bytes, before);
                let cleared = InodeCache {
                    ranges: Vec::new(),
                    writeback_epoch: inode.writeback_epoch,
                };
                assert(cleared@.ranges =~= Seq::<RangeView>::empty());
                self.inodes.insert(nodeid, cleared);
                assert(self@.inodes =~= invalidated(c, nodeid, offset, length).inodes);
            } else {
                assert(self@.inodes =~= c.inodes);
            }
        } else if length <= 0 {
            self.retain(nodeid, Keep::Before(offset as u64));
        } else {
            self.retain(nodeid, Keep::Outside(offset as u64, offset as u64 + length as u64));
        }
    }

    /// Drop the clean ranges of a stretch of a file.
    pub fn invalidate_cached_clean_inode(&mut self, nodeid: u64, offset: i64, length: i64)
        requires
            old(self)@.wf(),
        ensures
            final(self)@.wf(),
            final(self)@ == clean_invalidated(old(self)@, nodeid, offset, length),
    {
        if offset < 0 || length < 0 {
            self.retain(nodeid, Keep::Dirty);
        } else {
            self.retain(nodeid, Keep::DirtyOrOutside(offset as u64, offset as u64 + length as u64));
        }
    }

    pub fn has_dirty_owned_by_other(&self, nodeid: u64, fh: u64) -> (found: bool)
        ensures
            found == dirty_of_other(self@.ranges(nodeid), fh),
    {
        match self.inodes.get(&nodeid) {
            Some(inode) => {
                assert(self@.inodes[nodeid] == inode@);
                let ghost views = inode@.ranges;
                let mut i: usize = 0;
                while i < inode.ranges.len()
                    invariant
                        i <= inode.ranges@.len(),
                        views == range_views(inode.ranges@),
                        views == self@.ranges(nodeid),
                        forall|j: int|
                            0 <= j < i ==> !((#[trigger] views[j]).owner is Some
                                && views[j].owner->0.fh != fh),
                    decreases inode.ranges@.len() - i,
                {
                    assert(views[i as int] == inode.ranges@[i as int]@);
                    if let Some(owner) = inode.ranges[i].owner {
                        if owner.fh != fh {
                            return true;
                        }
                    }
                    i = i + 1;
                }
                false
            },
            None => false,
        }
    }

    pub fn has_inflight_dirty(&self, nodeid: u64) -> (found: bool)
        ensures
            found == dirty_inflight(self@.ranges(nodeid)),
    {
        match self.inodes.get(&nodeid) {
            Some(inode) => {
                assert(self@.inodes[nodeid] == inode@);
                let ghost views = inode@.ranges;
                let mut i: usize = 0;
                while i < inode.ranges.len()
                    invariant
                        i <= inode.ranges@.len(),
                        views == range_views(inode.ranges@),
                        views == self@.ranges(nodeid),
                        forall|j: int|
                            0 <= j < i ==> !((#[trigger] views[j]).inflight && views[j].is_dirty()),
                    decreases inode.ranges@.len() - i,
                {
                    assert(views[i as int] == inode.ranges@[i as int]@);
                    if inode.ranges[i].inflight && inode.ranges[i].owner.is_some() {
                        return true;
                    }
                    i = i + 1;
                }
                false
            },
            None => false,
        }
    }

    pub fn has_dirty(&self, nodeid: u64) -> (found: bool)
        ensures
            found == any_dirty(self@.ranges(nodeid)),
    {
        match self.inodes.get(&nodeid) {
            Some(inode) => {
                assert(self@.inodes[nodeid] == inode@);
                let ghost views = inode@.ranges;
                let mut i: usize = 0;
                while i < inode.ranges.len()
                    invariant
                        i <= inode.ranges@.len(),
                        views == range_views(inode.ranges@),
                        views == self@.ranges(nodeid),
                        forall|j: int| 0 <= j < i ==> !(#[trigger] views[j]).is_dirty(),
                    decreases inode.ranges@.len() - i,
                {
                    assert(views[i as int] == inode.ranges@[i as int]@);
                    if inode.ranges[i].owner.is_some() {
                        return true;
                    }
                    i = i + 1;
                }
                false
            },
            None => false,
        }
    }

    pub fn has_dead_dirty_owner(&self, nodeid: u64, handles: &Vec<Lease>) -> (found: bool)
        ensures
            found == dirty_of_dead(self@.ranges(nodeid), handles@),
    {
        match self.inodes.get(&nodeid) {
            Some(inode) => {
                assert(self@.inodes[nodeid] == inode@);
                let ghost views = inode@.ranges;
                let mut i: usize = 0;
                while i < inode.ranges.len()
                    invariant
                        i <= inode.ranges@.len(),
                        views == range_views(inode.ranges@),
                        views == self@.ranges(nodeid),
                        forall|j: int|
                            0 <= j < i ==> !((#[trigger] views[j]).owner is Some
                                && !handles@.contains(views[j].owner->0)),
                    decreases inode.ranges@.len() - i,
                {
                    assert(views[i as int] == inode.ranges@[i as int]@);
                    if let Some(owner) = inode.ranges[i].owner {
                        if !lives(handles, owner) {
                            return true;
                        }
                    }
                    i = i + 1;
                }
                false
            },
            None => false,
        }
    }

    /// Drop what is kept of a file that nothing uses, unless there is something dirty in
    /// it: that stays, as a failure that is not to be forgotten.
    pub fn evict(&mut self, nodeid: u64)
        requires
            old(self)@.wf(),
        ensures
            final(self)@.wf(),
            final(self)@ == evicted(old(self)@, nodeid),
    {
        let ghost c = self@;
        if self.has_dirty(nodeid) {
            return;
        }
        if let Some(inode) = self.inodes.remove(&nodeid) {
            assert(c.inodes[nodeid] == inode@);
            assert(old(self).inodes@.contains_key(nodeid));
            assert(c.inodes.contains_key(nodeid));
            assert(fits(c.inodes[nodeid]));
            let cost: usize = known_cost(&inode.ranges);
            self.bytes = take_off(self.bytes, cost);
            assert(self@.inodes =~= c.inodes.remove(nodeid));
        } else {
            assert(self@.inodes =~= c.inodes);
        }
    }

    fn find_dentry(&self, parent: u64, name: &[u8]) -> (at: usize)
        ensures
            at == dentry_at(self@.dentries, parent, name@),
            at <= self.dentries@.len(),
    {
        let ghost views = self@.dentries;
        let mut i: usize = 0;
        while i < self.dentries.len()
            invariant
                i <= self.dentries@.len(),
                views == dentry_views(self.dentries@),
                forall|j: int|
                    0 <= j < i ==> !((#[trigger] views[j]).parent == parent && views[j].name
                        == name@),
            decreases self.dentries@.len() - i,
        {
            assert(views[i as int] == self.dentries@[i as int]@);
            if self.dentries[i].parent == parent && same_bytes(
                self.dentries[i].name.as_slice(),
                name,
            ) {
                proof {
                    dentry_at_is(views, parent, name@, i as int);
                }
                return i;
            }
            i = i + 1;
        }
        proof {
            dentry_at_is(views, parent, name@, i as int);
        }
        i
    }

    /// Drop a name of a directory.
    pub fn invalidate_cached_dentry(&mut self, parent: u64, name: &[u8])
        requires
            old(self)@.wf(),
        ensures
            final(self)@.wf(),
            final(self)@ == dentry_dropped(old(self)@, parent, name@),
    {
        let ghost c = self@;
        let at: usize = self.find_dentry(parent, name);
        if at < self.dentries.len() {
            let ghost before = self.dentries@;
            self.dentries.remove(at);
            let cost: usize = if name.len() <= usize::MAX - FUSE_CACHE_OVERHEAD {
                FUSE_CACHE_OVERHEAD + name.len()
            } else {
                usize::MAX
            };
            self.bytes = take_off(self.bytes, cost);
            assert(self@.dentries =~= c.dentries.remove(at as int)) by {
                assert forall|i: int| 0 <= i < self.dentries@.len() implies #[trigger] self@.dentries[i]
                    == c.dentries.remove(at as int)[i] by {
                    if i < at {
                        assert(self.dentries@[i] == before[i]);
                    } else {
                        assert(self.dentries@[i] == before[i + 1]);
                    }
                }
            }
        }
    }

    /// Keep a name of a directory.
    pub fn keep_dentry(&mut self, parent: u64, name: &[u8], entry: u64, deadline: u64, epoch: u64)
        requires
            old(self)@.wf(),
        ensures
            final(self)@.wf(),
            final(self)@ == dentry_kept(
                old(self)@,
                (DentryView { parent, name: name@, entry, deadline, epoch }),
            ),
    {
        let ghost c = self@;
        let len: usize = name.len();
        if self.dentries.len() >= MAX_FUSE_DENTRY_CACHE_ENTRIES || self.bytes > MAX_FUSE_CACHE_BYTES
            || MAX_FUSE_CACHE_BYTES - self.bytes < FUSE_CACHE_OVERHEAD || len > MAX_FUSE_CACHE_BYTES
            - self.bytes - FUSE_CACHE_OVERHEAD {
            return;
        }
        let at: usize = self.find_dentry(parent, name);
        let new = CachedDentry { parent, name: to_vec(name), entry, deadline, epoch };
        let ghost before = self.dentries@;
        if at < self.dentries.len() {
            self.dentries.set(at, new);
            assert(self@.dentries =~= c.dentries.update(at as int, new@));
        } else {
            self.dentries.push(new);
            self.bytes = self.bytes + FUSE_CACHE_OVERHEAD + len;
            assert(self@.dentries =~= c.dentries.push(new@));
        }
        assert(self@.inodes =~= c.inodes);
    }

    /// Look a name of a directory up.
    pub fn cached_dentry(&self, parent: u64, name: &[u8], epoch: u64, now: u64) -> (entry: Option<
        u64,
    >)
        ensures
            entry == dentry_found(self@, parent, name@, epoch, now),
    {
        let at: usize = self.find_dentry(parent, name);
        if at < self.dentries.len() {
            assert(self@.dentries[at as int] == self.dentries@[at as int]@);
            if self.dentries[at].epoch == epoch && now < self.dentries[at].deadline {
                return Some(self.dentries[at].entry);
            }
        }
        None
    }
}

/// The cache after a file that nothing uses was dropped.
pub open spec fn evicted(c: CacheView, nodeid: u64) -> CacheView {
    if !c.inodes.contains_key(nodeid) || any_dirty(c.inodes[nodeid].ranges) {
        c
    } else {
        c.without(nodeid)
    }
}

/// Whether a handle lives.
pub fn lives(handles: &Vec<Lease>, lease: Lease) -> (found: bool)
    ensures
        found == handles@.contains(lease),
{
    let mut i: usize = 0;
    while i < handles.len()
        invariant
            i <= handles@.len(),
            forall|j: int| 0 <= j < i ==> handles@[j] != lease,
        decreases handles@.len() - i,
    {
        if handles[i] == lease {
            return true;
        }
        i = i + 1;
    }
    false
}

fn has_dirty_within(ranges: &Vec<CachedRange>, from: u64, to: u64) -> (found: bool)
    requires
        sound(range_views(ranges@)),
    ensures
        found == dirty_within(range_views(ranges@), from as int, to as int),
{
    let ghost views = range_views(ranges@);
    let mut i: usize = 0;
    while i < ranges.len()
        invariant
            i <= ranges@.len(),
            views == range_views(ranges@),
            sound(views),
            forall|j: int|
                0 <= j < i ==> !((#[trigger] views[j]).is_dirty() && views[j].meets(
                    from as int,
                    to as int,
                )),
        decreases ranges@.len() - i,
    {
        assert(views[i as int] == ranges@[i as int]@);
        if ranges[i].owner.is_some() && ranges[i].offset < to && from < ranges[i].offset
            + ranges[i].data.len() as u64 {
            assert(views[i as int].is_dirty() && views[i as int].meets(from as int, to as int));
            return true;
        }
        i = i + 1;
    }
    false
}

fn find_place(ranges: &Vec<CachedRange>, epoch: u64, offset: u64) -> (at: usize)
    ensures
        at == place(range_views(ranges@), epoch, offset),
        at <= ranges@.len(),
{
    let ghost views = range_views(ranges@);
    let mut i: usize = 0;
    while i < ranges.len()
        invariant
            i <= ranges@.len(),
            views == range_views(ranges@),
            forall|j: int|
                0 <= j < i ==> !((#[trigger] views[j]).epoch == epoch && views[j].offset == offset),
        decreases ranges@.len() - i,
    {
        assert(views[i as int] == ranges@[i as int]@);
        if ranges[i].epoch == epoch && ranges[i].offset == offset {
            proof {
                place_is(views, epoch, offset, i as int);
            }
            return i;
        }
        i = i + 1;
    }
    proof {
        place_is(views, epoch, offset, i as int);
    }
    i
}

/// The dirty byte of a position among the first `n` ranges.
spec fn overlaid_by(ranges: Seq<RangeView>, n: int, pos: int, below: u8) -> u8 {
    if exists|i: int|
        0 <= i < n && (#[trigger] ranges[i]).is_dirty() && ranges[i].covers(pos) {
        byte_at(ranges, pos)->0
    } else {
        below
    }
}

fn overlay(ranges: &Vec<CachedRange>, offset: u64, out: &mut [u8])
    requires
        sound(range_views(ranges@)),
    ensures
        final(out)@ == Seq::new(
            old(out)@.len(),
            |k: int| overlaid(range_views(ranges@), offset + k, old(out)@[k]),
        ),
{
    let ghost views = range_views(ranges@);
    let ghost first = out@;
    let len: usize = out.len();
    let end: u64 = if len as u64 <= u64::MAX - offset {
        offset + len as u64
    } else {
        u64::MAX
    };
    let mut i: usize = 0;
    while i < ranges.len()
        invariant
            i <= ranges@.len(),
            views == range_views(ranges@),
            sound(views),
            out@.len() == len,
            first.len() == len,
            end == stretch_end(offset, len as nat),
            forall|k: int|
                0 <= k < len ==> #[trigger] out@[k] == overlaid_by(
                    views,
                    i as int,
                    offset + k,
                    first[k],
                ),
        decreases ranges@.len() - i,
    {
        let range = &ranges[i];
        assert(views[i as int] == range@);
        let ghost before = out@;
        let range_end: u64 = range.offset + range.data.len() as u64;
        let start: u64 = if range.offset >= offset {
            range.offset
        } else {
            offset
        };
        let stop: u64 = if range_end <= end {
            range_end
        } else {
            end
        };
        if range.owner.is_some() && start < stop {
            let from: usize = (start - range.offset) as usize;
            let to: usize = (start - offset) as usize;
            let count: usize = (stop - start) as usize;
            copy_into(out, to, &range.data.as_slice()[from..from + count]);
        }
        assert forall|k: int| 0 <= k < len implies #[trigger] out@[k] == overlaid_by(
            views,
            i as int + 1,
            offset + k,
            first[k],
        ) by {
            let pos = offset + k;
            assert(before[k] == overlaid_by(views, i as int, pos, first[k]));
            if range@.is_dirty() && range@.covers(pos) {
                byte_at_is(views, i as int, pos);
                assert(views[i as int].is_dirty() && views[i as int].covers(pos));
            } else {
                assert(out@[k] == before[k]);
                if exists|j: int|
                    0 <= j < i as int + 1 && (#[trigger] views[j]).is_dirty() && views[j].covers(pos) {
                    let j = choose|j: int|
                        0 <= j < i as int + 1 && (#[trigger] views[j]).is_dirty() && views[j].covers(
                            pos,
                        );
                    assert(j != i);
                }
            }
        }
        i = i + 1;
    }
    assert forall|k: int| 0 <= k < len implies #[trigger] out@[k] == overlaid(
        views,
        offset + k,
        first[k],
    ) by {
        assert(out@[k] == overlaid_by(views, views.len() as int, offset + k, first[k]));
    }
    assert(out@ =~= Seq::new(first.len(), |k: int| overlaid(views, offset + k, first[k])));
}

} // verus!
