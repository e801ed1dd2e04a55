//! What the kernel keeps, told by the bytes and the names that are found.

use vstd::prelude::*;
use crate::error::Error;
use crate::fuse::cache::{all_marked, all_unmarked, any_dirty, clean_invalidated, dentry_at,
    dentry_dropped, dentry_found, dentry_kept, evicted, fits, inode_cost, invalidated, invalidation,
    is_sendable, law_a_write_reads_back, next_epoch, place, store_range, store_result, stored,
    stretch_end, to_send, unmarked, within_limits, CacheView, DentryView};
use crate::fuse::file::{contents_forgotten, cut_off, filled_in, lengthened, passed_by,
    read_refusal, OpenFile};
use crate::fuse::ranges::{byte_at, byte_at_is, byte_at_some, contents, cut, cut_all, kept,
    kept_is_sound, law_a_stored_range_reads_back, replaced, resident, sound, stays, Keep, Lease,
    RangeView};
use crate::fuse::superblock::SuperblockView;
use crate::fuse::writeback::{next_write, sent, staged, FlushView, StepView};

verus! {

/// Whether a range has a byte from `from` on and before `to`.
pub open spec fn touches(range: RangeView, from: int, to: int) -> bool {
    exists|pos: int| #[trigger] range.covers(pos) && from <= pos < to
}

proof fn touching(range: RangeView, from: int, to: int)
    requires
        range.data.len() > 0,
        from < to,
    ensures
        touches(range, from, to) == !(range.end() <= from || range.offset >= to),
{
    if !(range.end() <= from || range.offset >= to) {
        let pos = if range.offset >= from {
            range.offset as int
        } else {
            from
        };
        assert(range.covers(pos));
    }
}

proof fn kept_holds(ranges: Seq<RangeView>, keep: Keep, range: RangeView)
    ensures
        kept(ranges, keep).contains(range) == (ranges.contains(range)
            && stays(keep, range)),
    decreases ranges.len(),
{
    if ranges.len() > 0 {
        let rest = ranges.drop_last();
        let last = ranges.last();
        kept_holds(rest, keep, range);
        let left = kept(rest, keep);
        let all = kept(ranges, keep);
        assert(ranges =~= rest.push(last));
        assert(ranges.contains(range) == (rest.contains(range) || last == range)) by {
            if rest.contains(range) {
                let i = rest.index_of(range);
                assert(ranges[i] == range);
            }
            if last == range {
                assert(ranges[ranges.len() - 1] == range);
            }
            if ranges.contains(range) && last != range {
                let i = ranges.index_of(range);
                assert(rest[i] == range);
            }
        }
        if stays(keep, last) {
            assert(all.contains(range) == (left.contains(range) || last == range)) by {
                if left.contains(range) {
                    let i = left.index_of(range);
                    assert(all[i] == range);
                }
                if last == range {
                    assert(all[all.len() - 1] == range);
                }
                if all.contains(range) && last != range {
                    let i = all.index_of(range);
                    assert(left[i] == range);
                }
            }
        }
    }
}

/// A choice of ranges drops exactly those that it names.  What ends before a position has
/// all of its bytes before it, what lies outside a stretch has none in it, dirty is what
/// a handle owns, and what was sent is found by its epoch and its offset and was on its
/// way.
pub proof fn law_a_choice_drops_what_it_names(
    ranges: Seq<RangeView>,
    range: RangeView,
    from: u64,
    to: u64,
    epoch: u64,
)
    requires
        sound(ranges),
        ranges.contains(range),
        from < to,
    ensures
        !kept(ranges, Keep::Nothing).contains(range),
        kept(ranges, Keep::Before(from)).contains(range) == (forall|pos: int| #[trigger]
            range.covers(pos) ==> pos < from),
        kept(ranges, Keep::Outside(from, to)).contains(range) == !touches(
            range,
            from as int,
            to as int,
        ),
        kept(ranges, Keep::Dirty).contains(range) == (range.owner is Some),
        kept(ranges, Keep::DirtyOrOutside(from, to)).contains(range) == (range.owner is Some
            || !touches(range, from as int, to as int)),
        kept(ranges, Keep::Unsent(epoch, from)).contains(range) == (range.epoch != epoch
            || range.offset != from || !range.inflight),
{
    let i = ranges.index_of(range);
    assert(ranges[i].data.len() > 0);
    touching(range, from as int, to as int);
    kept_holds(ranges, Keep::Nothing, range);
    kept_holds(ranges, Keep::Before(from), range);
    kept_holds(ranges, Keep::Outside(from, to), range);
    kept_holds(ranges, Keep::Dirty, range);
    kept_holds(ranges, Keep::DirtyOrOutside(from, to), range);
    kept_holds(ranges, Keep::Unsent(epoch, from), range);
    assert(range.covers(range.end() - 1));
}

/// A choice of ranges brings in none that was not there, and keeps them in order: it may
/// be made of a beginning and of the rest by itself.
pub proof fn law_a_choice_keeps_the_order(a: Seq<RangeView>, b: Seq<RangeView>, keep: Keep)
    ensures
        kept(a + b, keep) == kept(a, keep) + kept(b, keep),
        forall|range: RangeView| #[trigger]
            kept(a, keep).contains(range) ==> a.contains(range),
    decreases b.len(),
{
    assert forall|range: RangeView| #[trigger] kept(a, keep).contains(range) implies a.contains(
        range,
    ) by {
        kept_holds(a, keep, range);
    }
    if b.len() == 0 {
        assert(a + b =~= a);
        assert(kept(a, keep) + kept(b, keep) =~= kept(a, keep));
    } else {
        law_a_choice_keeps_the_order(a, b.drop_last(), keep);
        assert((a + b).drop_last() =~= a + b.drop_last());
        assert(kept(a + b, keep) =~= kept(a, keep) + kept(b, keep));
    }
}

/// No byte of a file is kept that does not come from a range that stays.
proof fn bytes_come_from_what_stays(ranges: Seq<RangeView>, keep: Keep, pos: int)
    requires
        sound(ranges),
    ensures
        byte_at(kept(ranges, keep), pos) is Some ==> exists|i: int|
            0 <= i < ranges.len() && (#[trigger] ranges[i]).covers(pos)
                && stays(keep, ranges[i]),
        forall|i: int|
            0 <= i < ranges.len() && (#[trigger] ranges[i]).covers(pos)
                && stays(keep, ranges[i]) ==> byte_at(
                kept(ranges, keep),
                pos,
            ) == Some(ranges[i].data[pos - ranges[i].offset]),
{
    kept_is_sound(ranges, keep);
    let left = kept(ranges, keep);
    if byte_at(left, pos) is Some {
        let k = byte_at_some(left, pos);
        let i = choose|i: int| 0 <= i < ranges.len() && ranges[i] == left[k];
        assert(ranges[i].covers(pos));
    }
    assert forall|i: int|
        0 <= i < ranges.len() && (#[trigger] ranges[i]).covers(pos) && stays(
            keep,
            ranges[i],
        ) implies byte_at(left, pos) == Some(ranges[i].data[pos - ranges[i].offset]) by {
        kept_holds(ranges, keep, ranges[i]);
        assert(ranges.contains(ranges[i]));
        let k = left.index_of(ranges[i]);
        byte_at_is(left, k, pos);
    }
}

/// Nothing of a stretch that was invalidated is kept: from the offset for the length, to
/// the end where the length is not positive, and everything where the offset is negative.
/// Other files are as they were.
pub proof fn law_an_invalidated_stretch_is_gone(
    c: CacheView,
    nodeid: u64,
    offset: i64,
    length: i64,
    pos: int,
)
    requires
        c.wf(),
        offset + length <= i64::MAX,
    ensures
        0 <= pos && (offset < 0 || (offset <= pos && (length <= 0 || pos < offset + length)))
            ==> byte_at(invalidated(c, nodeid, offset, length).ranges(nodeid), pos) is None,
        forall|other: u64|
            other != nodeid ==> #[trigger] invalidated(c, nodeid, offset, length).ranges(other)
                == c.ranges(other),
        invalidated(c, nodeid, offset, length).dentries == c.dentries,
{
    let after = invalidated(c, nodeid, offset, length);
    if c.inodes.contains_key(nodeid) {
        assert(fits(c.inodes[nodeid]));
        let ranges = c.inodes[nodeid].ranges;
        if offset >= 0 {
            let keep = invalidation(offset, length);
            bytes_come_from_what_stays(ranges, keep, pos);
        }
    }
}

/// What lies outside of an invalidated stretch stays: a range that has no byte in it is
/// read as before.
pub proof fn law_what_lies_outside_stays(
    c: CacheView,
    nodeid: u64,
    offset: i64,
    length: i64,
    i: int,
    pos: int,
)
    requires
        c.wf(),
        0 <= offset,
        0 < length,
        offset + length <= i64::MAX,
        0 <= i < c.ranges(nodeid).len(),
        c.ranges(nodeid)[i].covers(pos),
        !touches(c.ranges(nodeid)[i], offset as int, offset + length),
    ensures
        byte_at(invalidated(c, nodeid, offset, length).ranges(nodeid), pos) == byte_at(
            c.ranges(nodeid),
            pos,
        ),
{
    assert(c.inodes.contains_key(nodeid));
    assert(fits(c.inodes[nodeid]));
    let ranges = c.ranges(nodeid);
    touching(ranges[i], offset as int, offset + length);
    bytes_come_from_what_stays(ranges, invalidation(offset, length), pos);
    byte_at_is(ranges, i, pos);
}

/// To drop what is clean loses no dirty byte, and leaves no other in the stretch.
pub proof fn law_dirty_bytes_outlive_the_clean(
    c: CacheView,
    nodeid: u64,
    offset: i64,
    length: i64,
    i: int,
    pos: int,
)
    requires
        c.wf(),
        offset + length <= i64::MAX,
        0 <= i < c.ranges(nodeid).len(),
        c.ranges(nodeid)[i].covers(pos),
    ensures
        c.ranges(nodeid)[i].owner is Some ==> byte_at(
            clean_invalidated(c, nodeid, offset, length).ranges(nodeid),
            pos,
        ) == byte_at(c.ranges(nodeid), pos),
        c.ranges(nodeid)[i].owner is None && (offset < 0 || length < 0 || offset <= pos < offset
            + length) ==> byte_at(
            clean_invalidated(c, nodeid, offset, length).ranges(nodeid),
            pos,
        ) is None,
{
    assert(c.inodes.contains_key(nodeid));
    assert(fits(c.inodes[nodeid]));
    let ranges = c.ranges(nodeid);
    let keep = if offset < 0 || length < 0 {
        Keep::Dirty
    } else {
        Keep::DirtyOrOutside(offset as u64, (offset + length) as u64)
    };
    bytes_come_from_what_stays(ranges, keep, pos);
    byte_at_is(ranges, i, pos);
    let left = kept(ranges, keep);
    assert(clean_invalidated(c, nodeid, offset, length).ranges(nodeid) == left);
    if ranges[i].owner is None && (offset < 0 || length < 0 || offset <= pos < offset + length)
        && byte_at(left, pos) is Some {
        let k = choose|k: int|
            0 <= k < ranges.len() && (#[trigger] ranges[k]).covers(pos)
                && stays(keep, ranges[k]);
        if k < i {
            assert(!ranges[k].meets(ranges[i].offset as int, ranges[i].end()));
        } else if i < k {
            assert(!ranges[i].meets(ranges[k].offset as int, ranges[k].end()));
        }
    }
}

/// A file is charged with its bytes, and so much for itself and for each range.
pub proof fn law_a_file_is_charged_by_the_byte(ranges: Seq<RangeView>, range: RangeView)
    ensures
        inode_cost(Seq::empty()) == 128,
        inode_cost(ranges.push(range)) == inode_cost(ranges) + 128 + range.data.len(),
{
    assert(ranges.push(range).drop_last() =~= ranges);
}

/// The limits: so many ranges and bytes of a file, and so many bytes of all.
pub proof fn law_the_cache_has_its_limits(c: CacheView, nodeid: u64, ranges: Seq<RangeView>)
    requires
        !c.inodes.contains_key(nodeid),
    ensures
        within_limits(c, nodeid, ranges) == (ranges.len() <= 4096 && inode_cost(ranges)
            <= 8 * 1024 * 1024 && c.bytes + inode_cost(ranges) <= 64 * 1024 * 1024),
{
}

/// A store is charged with what the file then costs more, and no other file changes.
pub proof fn law_a_store_is_charged(
    c: CacheView,
    active: bool,
    nodeid: u64,
    offset: u64,
    data: Seq<u8>,
    owner: Option<Lease>,
)
    requires
        c.bytes <= 64 * 1024 * 1024,
        c.inodes.contains_key(nodeid) ==> inode_cost(c.inodes[nodeid].ranges) <= c.bytes,
    ensures
        ({
            let after = stored(c, active, nodeid, offset, data, owner);
            &&& c.inodes.contains_key(nodeid) && after.inodes.contains_key(nodeid) ==> after.bytes
                - inode_cost(after.inodes[nodeid].ranges) == c.bytes - inode_cost(
                c.inodes[nodeid].ranges,
            )
            &&& !c.inodes.contains_key(nodeid) && after.inodes.contains_key(nodeid) ==> after.bytes
                == c.bytes + inode_cost(after.inodes[nodeid].ranges)
            &&& after.bytes <= 64 * 1024 * 1024
            &&& after.dentries == c.dentries
            &&& forall|other: u64|
                other != nodeid ==> #[trigger] after.ranges(other) == c.ranges(other)
        }),
{
}

/// When a store is refused: the bytes go past the last position that a file has, or they
/// are dirty and there is no room.  Nothing to keep is never refused.
pub proof fn law_when_a_store_is_refused(
    c: CacheView,
    nodeid: u64,
    offset: u64,
    data: Seq<u8>,
    owner: Option<Lease>,
)
    ensures
        store_result(c, false, nodeid, offset, data, owner) is Ok,
        store_result(c, true, nodeid, offset, Seq::empty(), owner) is Ok,
        owner is Some && data.len() > 0 ==> (offset + data.len() > u64::MAX) == (store_result(
            c,
            true,
            nodeid,
            offset,
            data,
            owner,
        ) == Err::<(), Error>(Error::InvalidInput)),
        owner is None && offset + data.len() <= u64::MAX ==> store_result(
            c,
            true,
            nodeid,
            offset,
            data,
            owner,
        ) is Ok,
        store_result(c, true, nodeid, offset, data, owner) is Err && offset + data.len()
            <= u64::MAX ==> store_result(c, true, nodeid, offset, data, owner) == Err::<(), Error>(
            Error::ResourceBusy,
        ) && owner is Some,
{
}

/// The epochs of a file's ranges go up, and none is zero.
pub proof fn law_epochs_go_up(c: CacheView, nodeid: u64)
    ensures
        next_epoch(c, nodeid) > 0,
        c.inodes.contains_key(nodeid) && c.inodes[nodeid].writeback_epoch < u64::MAX
            ==> next_epoch(c, nodeid) == c.inodes[nodeid].writeback_epoch + 1,
        !c.inodes.contains_key(nodeid) ==> next_epoch(c, nodeid) == 1,
{
}

/// A stretch ends where its bytes do, or where the last file does.
pub proof fn law_a_stretch_ends_with_its_bytes(offset: u64, len: nat)
    ensures
        offset <= stretch_end(offset, len) <= u64::MAX,
        stretch_end(offset, len) <= offset + len,
        stretch_end(offset, len) == offset + len || stretch_end(offset, len) == u64::MAX,
{
}

/// What is read of a stretch is what is kept of each position, and a stretch with a
/// position of which nothing is kept is not read.
pub proof fn law_a_read_gives_each_position(
    ranges: Seq<RangeView>,
    offset: int,
    len: nat,
    pos: int,
)
    requires
        offset <= pos < offset + len,
    ensures
        contents(ranges, offset, len).len() == len,
        resident(ranges, offset, len as int) ==> byte_at(ranges, pos) == Some(
            contents(ranges, offset, len)[pos - offset],
        ),
        byte_at(ranges, pos) is None ==> !resident(ranges, offset, len as int),
{
    if resident(ranges, offset, len as int) {
        assert(byte_at(ranges, offset + (pos - offset)) is Some);
    }
}

/// A file that is dropped is gone with its charge, unless it is dirty: then it stays
/// whole.  Other files and the names stay.
pub proof fn law_only_a_clean_file_is_dropped(c: CacheView, nodeid: u64)
    requires
        c.inodes.contains_key(nodeid),
        inode_cost(c.inodes[nodeid].ranges) <= c.bytes,
    ensures
        (exists|i: int|
            0 <= i < c.ranges(nodeid).len() && (#[trigger] c.ranges(nodeid)[i]).owner is Some)
            ==> evicted(c, nodeid) == c,
        (forall|i: int|
            0 <= i < c.ranges(nodeid).len() ==> (#[trigger] c.ranges(nodeid)[i]).owner is None)
            ==> !evicted(c, nodeid).inodes.contains_key(nodeid) && evicted(c, nodeid).bytes
            == c.bytes - inode_cost(c.ranges(nodeid)),
        evicted(c, nodeid).dentries == c.dentries,
        forall|other: u64|
            other != nodeid ==> #[trigger] evicted(c, nodeid).ranges(other) == c.ranges(other),
{
    let ranges = c.ranges(nodeid);
    if exists|i: int| 0 <= i < ranges.len() && (#[trigger] ranges[i]).owner is Some {
        let i = choose|i: int| 0 <= i < ranges.len() && (#[trigger] ranges[i]).owner is Some;
        assert(ranges[i].is_dirty());
        assert(any_dirty(ranges));
    }
    if any_dirty(ranges) {
        let i = choose|i: int| 0 <= i < ranges.len() && (#[trigger] ranges[i]).is_dirty();
        assert(ranges[i].owner is Some);
    }
}

/// What is sent of a file is what a handle owns and is not yet on its way: of one handle,
/// or of all.  From then on it is on its way, and nothing else of the file changes.
pub proof fn law_what_is_sent(ranges: Seq<RangeView>, fh: Option<u64>, i: int)
    requires
        0 <= i < ranges.len(),
    ensures
        ({
            let goes = ranges[i].owner is Some && !ranges[i].inflight && (match fh {
                None => true,
                Some(fh) => ranges[i].owner->0.fh == fh,
            });
            let after = all_marked(ranges, fh)[i];
            &&& goes ==> to_send(ranges, fh).contains(after)
            &&& after.inflight == (goes || ranges[i].inflight)
            &&& after.offset == ranges[i].offset
            &&& after.data == ranges[i].data
            &&& after.epoch == ranges[i].epoch
            &&& after.owner == ranges[i].owner
        }),
        all_marked(ranges, fh).len() == ranges.len(),
        forall|k: int|
            0 <= k < to_send(ranges, fh).len() ==> (#[trigger] to_send(ranges, fh)[k]).inflight
                && to_send(ranges, fh)[k].owner is Some,
        fh is Some ==> forall|k: int|
            0 <= k < to_send(ranges, fh).len() ==> (#[trigger] to_send(ranges, fh)[k]).owner->0.fh
                == fh->0,
    decreases ranges.len(),
{
    let rest = ranges.drop_last();
    let all = to_send(ranges, fh);
    let left = to_send(rest, fh);
    if i < rest.len() {
        law_what_is_sent(rest, fh, i);
        assert(rest[i] == ranges[i]);
        let after = all_marked(ranges, fh)[i];
        assert(after == all_marked(rest, fh)[i]);
        if left.contains(after) {
            let k = left.index_of(after);
            assert(all[k] == after);
        }
    } else {
        if rest.len() > 0 {
            law_what_is_sent(rest, fh, 0);
        }
        if is_sendable(ranges.last(), fh) {
            assert(all[all.len() - 1] == all_marked(ranges, fh)[i]);
        }
    }
    assert forall|k: int| 0 <= k < all.len() implies (#[trigger] all[k]).inflight
        && all[k].owner is Some && (fh is Some ==> all[k].owner->0.fh == fh->0) by {
        if k < left.len() {
            assert(all[k] == left[k]);
        }
    }
}

/// What is sent goes in the order in which it is kept, and each range once.
pub proof fn law_ranges_are_sent_in_order(a: Seq<RangeView>, b: Seq<RangeView>, fh: Option<u64>)
    ensures
        to_send(a + b, fh) == to_send(a, fh) + to_send(b, fh),
        to_send(a, fh).len() <= a.len(),
    decreases a.len() + b.len(),
{
    if b.len() == 0 {
        assert(a + b =~= a);
        assert(to_send(a, fh) + to_send(b, fh) =~= to_send(a, fh));
        if a.len() > 0 {
            law_ranges_are_sent_in_order(a.drop_last(), b, fh);
        }
    } else {
        law_ranges_are_sent_in_order(a, b.drop_last(), fh);
        assert((a + b).drop_last() =~= a + b.drop_last());
        assert(to_send(a + b, fh) =~= to_send(a, fh) + to_send(b, fh));
    }
}

proof fn place_found(ranges: Seq<RangeView>, epoch: u64, offset: u64)
    ensures
        0 <= place(ranges, epoch, offset) <= ranges.len(),
        place(ranges, epoch, offset) < ranges.len() ==> ranges[place(ranges, epoch, offset)].epoch
            == epoch && ranges[place(ranges, epoch, offset)].offset == offset,
        forall|j: int|
            0 <= j < place(ranges, epoch, offset) ==> (#[trigger] ranges[j]).epoch != epoch
                || ranges[j].offset != offset,
    decreases ranges.len(),
{
    if ranges.len() > 0 && !(ranges[0].epoch == epoch && ranges[0].offset == offset) {
        let rest = ranges.drop_first();
        place_found(rest, epoch, offset);
        let at = place(ranges, epoch, offset);
        assert forall|j: int| 0 <= j < at implies (#[trigger] ranges[j]).epoch != epoch
            || ranges[j].offset != offset by {
            if j > 0 {
                assert(rest[j - 1] == ranges[j]);
            }
        }
        if at < ranges.len() {
            assert(rest[at - 1] == ranges[at]);
        }
    }
}

/// A range that is no longer being sent is the one of its epoch and offset, and loses
/// nothing but its mark.  Every other range is as it was.
pub proof fn law_one_range_loses_its_mark(ranges: Seq<RangeView>, epoch: u64, offset: u64, i: int)
    requires
        0 <= i < ranges.len(),
        forall|a: int, b: int|
            0 <= a < b < ranges.len() ==> (#[trigger] ranges[a]).epoch
                != (#[trigger] ranges[b]).epoch || ranges[a].offset != ranges[b].offset,
    ensures
        unmarked(ranges, epoch, offset).len() == ranges.len(),
        ranges[i].epoch == epoch && ranges[i].offset == offset ==> unmarked(
            ranges,
            epoch,
            offset,
        )[i] == (RangeView { inflight: false, ..ranges[i] }),
        ranges[i].epoch != epoch || ranges[i].offset != offset ==> unmarked(
            ranges,
            epoch,
            offset,
        )[i] == ranges[i],
{
    place_found(ranges, epoch, offset);
    let at = place(ranges, epoch, offset);
    if ranges[i].epoch == epoch && ranges[i].offset == offset {
        if at < i {
            assert(ranges[at].epoch != ranges[i].epoch || ranges[at].offset != ranges[i].offset);
        }
    }
}

proof fn unmarking_keeps_bytes(ranges: Seq<RangeView>, epoch: u64, offset: u64, pos: int)
    ensures
        byte_at(unmarked(ranges, epoch, offset), pos) == byte_at(ranges, pos),
        unmarked(ranges, epoch, offset).len() == ranges.len(),
        forall|i: int|
            0 <= i < ranges.len() ==> (#[trigger] unmarked(ranges, epoch, offset)[i]).owner
                == ranges[i].owner,
{
    place_found(ranges, epoch, offset);
    same_bytes(ranges, unmarked(ranges, epoch, offset), pos);
}

proof fn same_bytes(a: Seq<RangeView>, b: Seq<RangeView>, pos: int)
    requires
        a.len() == b.len(),
        forall|i: int|
            0 <= i < a.len() ==> (#[trigger] a[i]).offset == b[i].offset && a[i].data == b[i].data,
    ensures
        byte_at(a, pos) == byte_at(b, pos),
    decreases a.len(),
{
    if a.len() > 0 {
        assert(a[a.len() - 1].offset == b[b.len() - 1].offset);
        let x = a.drop_last();
        let y = b.drop_last();
        assert forall|i: int| 0 <= i < x.len() implies (#[trigger] x[i]).offset == y[i].offset
            && x[i].data == y[i].data by {
            assert(x[i] == a[i] && y[i] == b[i]);
        }
        same_bytes(x, y, pos);
    }
}

proof fn all_unmarking_keeps_bytes(
    ranges: Seq<RangeView>,
    gone: Seq<RangeView>,
    from: int,
    pos: int,
)
    ensures
        byte_at(all_unmarked(ranges, gone, from), pos) == byte_at(ranges, pos),
    decreases gone.len() - from,
{
    if 0 <= from < gone.len() {
        unmarking_keeps_bytes(ranges, gone[from].epoch, gone[from].offset, pos);
        all_unmarking_keeps_bytes(
            unmarked(ranges, gone[from].epoch, gone[from].offset),
            gone,
            from + 1,
            pos,
        );
    }
}

/// A write that failed loses no byte of the file, and says why it failed.
pub proof fn law_a_failed_write_loses_nothing(
    c: CacheView,
    active: bool,
    f: FlushView,
    error: Error,
    pos: int,
)
    ensures
        sent(c, active, f, Err(error)).0 == Err::<(), Error>(error),
        byte_at(sent(c, active, f, Err(error)).1.ranges(f.nodeid), pos) == byte_at(
            c.ranges(f.nodeid),
            pos,
        ),
        sent(c, active, f, Err(error)).1.bytes == c.bytes,
{
    all_unmarking_keeps_bytes(c.ranges(f.nodeid), f.dirty, f.index, pos);
}

/// A write that was taken whole succeeds, and the range that was sent is gone.  One that
/// was not is a failure.
pub proof fn law_only_a_whole_write_succeeds(
    c: CacheView,
    active: bool,
    f: FlushView,
    written: usize,
)
    requires
        f.wf(),
        f.index < f.dirty.len(),
    ensures
        (sent(c, active, f, Ok(written)).0 is Ok) == (written == f.dirty[f.index].data.len()),
        written == f.dirty[f.index].data.len() ==> forall|range: RangeView|
            sent(c, active, f, Ok(written)).1.ranges(f.nodeid).contains(range) == (c.ranges(
                f.nodeid,
            ).contains(range) && !(range.inflight && range.epoch == f.dirty[f.index].epoch
                && range.offset == f.dirty[f.index].offset)),
{
    let range = f.dirty[f.index];
    let keep = Keep::Unsent(range.epoch, range.offset);
    if written == range.data.len() {
        assert forall|one: RangeView|
            sent(c, active, f, Ok(written)).1.ranges(f.nodeid).contains(one) == (c.ranges(
                f.nodeid,
            ).contains(one) && !(one.inflight && one.epoch == range.epoch && one.offset
                == range.offset)) by {
            kept_holds(c.ranges(f.nodeid), keep, one);
        }
    }
}

/// What is written next is the next range, whole and where it belongs.
pub proof fn law_the_next_write_is_the_next_range(s: SuperblockView, f: FlushView)
    requires
        f.wf(),
    ensures
        match next_write(s, f).0 {
            StepView::Done => f.index == f.dirty.len(),
            StepView::Write { fh, offset, data } => f.index < f.dirty.len() && offset
                == f.dirty[f.index].offset && data == f.dirty[f.index].data && (f.fh is Some ==> fh
                == f.fh->0),
            StepView::Failed(error) => f.index < f.dirty.len() && f.fh is None && error
                == Error::Io,
        },
        f.fh is Some ==> next_write(s, f).1 == s.cache,
{
}

/// Whether no two names of a directory are the same.
pub open spec fn told_apart(dentries: Seq<DentryView>) -> bool {
    forall|i: int, j: int|
        0 <= i < j < dentries.len() ==> (#[trigger] dentries[i]).parent
            != (#[trigger] dentries[j]).parent || dentries[i].name != dentries[j].name
}

proof fn dentry_is_first(dentries: Seq<DentryView>, parent: u64, name: Seq<u8>)
    ensures
        0 <= dentry_at(dentries, parent, name) <= dentries.len(),
        dentry_at(dentries, parent, name) < dentries.len() ==> dentries[dentry_at(
            dentries,
            parent,
            name,
        )].parent == parent && dentries[dentry_at(dentries, parent, name)].name == name,
        forall|j: int|
            0 <= j < dentry_at(dentries, parent, name) ==> (#[trigger] dentries[j]).parent
                != parent || dentries[j].name != name,
    decreases dentries.len(),
{
    if dentries.len() > 0 && !(dentries[0].parent == parent && dentries[0].name == name) {
        let rest = dentries.drop_first();
        dentry_is_first(rest, parent, name);
        let at = dentry_at(dentries, parent, name);
        assert forall|j: int| 0 <= j < at implies (#[trigger] dentries[j]).parent != parent
            || dentries[j].name != name by {
            if j > 0 {
                assert(rest[j - 1] == dentries[j]);
            }
        }
        if at < dentries.len() {
            assert(rest[at - 1] == dentries[at]);
        }
    }
}

/// A name is found exactly if it is kept of its directory, of the generation that is
/// asked for, and the time has not run out.
pub proof fn law_a_name_is_found_in_its_time(
    c: CacheView,
    i: int,
    epoch: u64,
    now: u64,
    parent: u64,
    name: Seq<u8>,
)
    requires
        told_apart(c.dentries),
    ensures
        0 <= i < c.dentries.len() ==> dentry_found(
            c,
            c.dentries[i].parent,
            c.dentries[i].name,
            epoch,
            now,
        ) == (if epoch == c.dentries[i].epoch && now < c.dentries[i].deadline {
            Some(c.dentries[i].entry)
        } else {
            None
        }),
        (forall|j: int|
            0 <= j < c.dentries.len() ==> (#[trigger] c.dentries[j]).parent != parent
                || c.dentries[j].name != name) ==> dentry_found(c, parent, name, epoch, now)
            is None,
{
    dentry_is_first(c.dentries, parent, name);
    if 0 <= i < c.dentries.len() {
        let one = c.dentries[i];
        dentry_is_first(c.dentries, one.parent, one.name);
        let at = dentry_at(c.dentries, one.parent, one.name);
        if at < i {
            assert(c.dentries[at].parent != c.dentries[i].parent || c.dentries[at].name
                != c.dentries[i].name);
        }
    }
}

/// A name that was looked up is found until its time runs out, as long as the directory
/// does not change, where there is room for it.  Where there is none nothing changes.
pub proof fn law_a_looked_up_name_is_kept(c: CacheView, new: DentryView, now: u64)
    requires
        told_apart(c.dentries),
    ensures
        ({
            let after = dentry_kept(c, new);
            let room = c.dentries.len() < 8192 && c.bytes + 128 + new.name.len()
                <= 64 * 1024 * 1024;
            &&& told_apart(after.dentries)
            &&& !room ==> after == c
            &&& room ==> dentry_found(after, new.parent, new.name, new.epoch, now) == (if now
                < new.deadline {
                Some(new.entry)
            } else {
                None
            })
            &&& room && after.dentries.len() > c.dentries.len() ==> after.bytes == c.bytes + 128
                + new.name.len()
            &&& after.inodes == c.inodes
        }),
{
    let after = dentry_kept(c, new);
    dentry_is_first(c.dentries, new.parent, new.name);
    let at = dentry_at(c.dentries, new.parent, new.name);
    let room = c.dentries.len() < 8192 && c.bytes + 128 + new.name.len() <= 64 * 1024 * 1024;
    if room {
        assert(after.dentries[at] == new);
        assert(told_apart(after.dentries)) by {
            assert forall|i: int, j: int| 0 <= i < j < after.dentries.len() implies (
            #[trigger] after.dentries[i]).parent != (#[trigger] after.dentries[j]).parent
                || after.dentries[i].name != after.dentries[j].name by {
                if i != at && j != at {
                    assert(after.dentries[i] == c.dentries[i]);
                    assert(after.dentries[j] == c.dentries[j]);
                } else if i == at {
                    assert(j < c.dentries.len());
                    assert(after.dentries[j] == c.dentries[j]);
                    assert(c.dentries[i].parent != c.dentries[j].parent || c.dentries[i].name
                        != c.dentries[j].name);
                } else {
                    assert(after.dentries[i] == c.dentries[i]);
                    if at < c.dentries.len() {
                        assert(c.dentries[i].parent != c.dentries[j].parent || c.dentries[i].name
                            != c.dentries[j].name);
                    }
                }
            }
        }
        law_a_name_is_found_in_its_time(after, at, new.epoch, now, new.parent, new.name);
    }
}

/// A name that was dropped is not found, and every other name is found as before.  Its
/// charge is given back.
pub proof fn law_a_dropped_name_is_not_found(
    c: CacheView,
    parent: u64,
    name: Seq<u8>,
    other_parent: u64,
    other: Seq<u8>,
    epoch: u64,
    now: u64,
)
    requires
        told_apart(c.dentries),
    ensures
        ({
            let after = dentry_dropped(c, parent, name);
            &&& dentry_found(after, parent, name, epoch, now) is None
            &&& other_parent != parent || other != name ==> dentry_found(
                after,
                other_parent,
                other,
                epoch,
                now,
            ) == dentry_found(c, other_parent, other, epoch, now)
            &&& after.dentries.len() < c.dentries.len() && c.bytes >= 128 + name.len()
                ==> after.bytes == c.bytes - 128 - name.len()
            &&& after.inodes == c.inodes
        }),
{
    let after = dentry_dropped(c, parent, name);
    dentry_is_first(c.dentries, parent, name);
    let at = dentry_at(c.dentries, parent, name);
    assert(told_apart(after.dentries)) by {
        assert forall|i: int, j: int| 0 <= i < j < after.dentries.len() implies (
        #[trigger] after.dentries[i]).parent != (#[trigger] after.dentries[j]).parent
            || after.dentries[i].name != after.dentries[j].name by {
            let a = if at < c.dentries.len() && i >= at {
                i + 1
            } else {
                i
            };
            let b = if at < c.dentries.len() && j >= at {
                j + 1
            } else {
                j
            };
            assert(after.dentries[i] == c.dentries[a] && after.dentries[j] == c.dentries[b]);
            assert(c.dentries[a].parent != c.dentries[b].parent || c.dentries[a].name
                != c.dentries[b].name);
        }
    }
    assert forall|j: int| 0 <= j < after.dentries.len() implies (
    #[trigger] after.dentries[j]).parent != parent || after.dentries[j].name != name by {
        if at < c.dentries.len() && j >= at {
            assert(after.dentries[j] == c.dentries[j + 1]);
            assert(c.dentries[at].parent != c.dentries[j + 1].parent || c.dentries[at].name
                != c.dentries[j + 1].name);
        } else {
            assert(after.dentries[j] == c.dentries[j]);
        }
    }
    law_a_name_is_found_in_its_time(after, 0, epoch, now, parent, name);
    if other_parent != parent || other != name {
        dentry_is_first(c.dentries, other_parent, other);
        let k = dentry_at(c.dentries, other_parent, other);
        if k < c.dentries.len() {
            let i = if at < c.dentries.len() && k > at {
                k - 1
            } else {
                k
            };
            assert(after.dentries[i] == c.dentries[k]);
            law_a_name_is_found_in_its_time(after, i, epoch, now, other_parent, other);
            law_a_name_is_found_in_its_time(c, k, epoch, now, other_parent, other);
        } else {
            assert forall|j: int| 0 <= j < after.dentries.len() implies (
            #[trigger] after.dentries[j]).parent != other_parent || after.dentries[j].name
                != other by {
                let b = if at < c.dentries.len() && j >= at {
                    j + 1
                } else {
                    j
                };
                assert(after.dentries[j] == c.dentries[b]);
            }
            law_a_name_is_found_in_its_time(after, 0, epoch, now, other_parent, other);
        }
    }
}

/// A file that bytes were written to is at least as long as they reach, and never shorter; nothing
/// else of the open file changes.
pub proof fn law_a_kept_write_lengthens_its_file(file: OpenFile, offset: u64, len: nat)
    requires
        offset + len <= u64::MAX,
    ensures
        lengthened(file, offset, len).size >= file.size,
        lengthened(file, offset, len).size >= offset + len,
        lengthened(file, offset, len).size == file.size || lengthened(file, offset, len).size
            == offset + len,
        lengthened(file, offset, len) == (OpenFile {
            size: lengthened(file, offset, len).size,
            ..file
        }),
{
}

/// Nothing is kept of what was written past the cache, and what lies outside of it stays.
pub proof fn law_a_direct_write_leaves_nothing_stale(
    c: CacheView,
    nodeid: u64,
    offset: u64,
    written: usize,
    i: int,
    pos: int,
)
    requires
        c.wf(),
        0 < written,
        offset + written <= i64::MAX,
    ensures
        offset <= pos < offset + written ==> byte_at(
            passed_by(c, nodeid, offset, written).ranges(nodeid),
            pos,
        ) is None,
        0 <= i < c.ranges(nodeid).len() && c.ranges(nodeid)[i].covers(pos) && !touches(
            c.ranges(nodeid)[i],
            offset as int,
            offset + written,
        ) ==> byte_at(passed_by(c, nodeid, offset, written).ranges(nodeid), pos) == byte_at(
            c.ranges(nodeid),
            pos,
        ),
{
    let from = offset as i64;
    let count = written as i64;
    law_an_invalidated_stretch_is_gone(c, nodeid, from, count, pos);
    if 0 <= i < c.ranges(nodeid).len() && c.ranges(nodeid)[i].covers(pos) && !touches(
        c.ranges(nodeid)[i],
        offset as int,
        offset + written,
    ) {
        law_what_lies_outside_stays(c, nodeid, from, count, i, pos);
    }
}

/// Nothing is kept behind the new end of a file, and what ends before it stays.  Where the contents
/// changed as a whole nothing is kept.
pub proof fn law_nothing_is_kept_behind_the_end(
    c: CacheView,
    nodeid: u64,
    len: u64,
    i: int,
    pos: int,
)
    requires
        c.wf(),
        len <= i64::MAX,
        0 <= pos,
    ensures
        pos >= len ==> byte_at(cut_off(c, nodeid, len).ranges(nodeid), pos) is None,
        0 <= i < c.ranges(nodeid).len() && c.ranges(nodeid)[i].covers(pos) && c.ranges(
            nodeid,
        )[i].end() <= len ==> byte_at(cut_off(c, nodeid, len).ranges(nodeid), pos) == byte_at(
            c.ranges(nodeid),
            pos,
        ),
        byte_at(contents_forgotten(c, nodeid).ranges(nodeid), pos) is None,
{
    let from = len as i64;
    let all = (-1) as i64;
    law_an_invalidated_stretch_is_gone(c, nodeid, from, all, pos);
    law_an_invalidated_stretch_is_gone(c, nodeid, 0, all, pos);
    let ranges = c.ranges(nodeid);
    if 0 <= i < ranges.len() && ranges[i].covers(pos) && ranges[i].end() <= len {
        assert(c.inodes.contains_key(nodeid));
        assert(fits(c.inodes[nodeid]));
        bytes_come_from_what_stays(ranges, invalidation(from, all), pos);
        byte_at_is(ranges, i, pos);
    }
}

/// A reader sees what is dirty, and else what the daemon sent.
pub proof fn law_a_reader_sees_what_is_dirty_first(
    c: CacheView,
    nodeid: u64,
    offset: u64,
    data: Seq<u8>,
    k: int,
    i: int,
)
    requires
        c.wf(),
        0 <= k < data.len(),
    ensures
        filled_in(c, nodeid, offset, data).len() == data.len(),
        0 <= i < c.ranges(nodeid).len() && c.ranges(nodeid)[i].owner is Some && c.ranges(
            nodeid,
        )[i].covers(offset + k) ==> filled_in(c, nodeid, offset, data)[k] == c.ranges(
            nodeid,
        )[i].data[offset + k - c.ranges(nodeid)[i].offset],
        (forall|j: int|
            0 <= j < c.ranges(nodeid).len() && (#[trigger] c.ranges(nodeid)[j]).covers(offset + k)
                ==> c.ranges(nodeid)[j].owner is None) ==> filled_in(c, nodeid, offset, data)[k]
            == data[k],
{
    let ranges = c.ranges(nodeid);
    if 0 <= i < ranges.len() && ranges[i].owner is Some && ranges[i].covers(offset + k) {
        assert(c.inodes.contains_key(nodeid));
        assert(fits(c.inodes[nodeid]));
        assert(ranges[i].is_dirty());
        byte_at_is(ranges, i, offset + k);
    }
}

/// When a read is refused: through a handle that cannot read, and past the last position that a
/// kept file has.
pub proof fn law_when_a_read_is_refused(file: OpenFile, active: bool, offset: u64, len: usize)
    ensures
        !file.read ==> read_refusal(file, active, offset, len) == Some(Error::BadFileDescriptor),
        file.read && offset + len <= u64::MAX ==> read_refusal(file, active, offset, len) is None,
        file.read && (!file.cache || !active) ==> read_refusal(file, active, offset, len) is None,
        file.read && file.cache && active && offset + len > u64::MAX ==> read_refusal(
            file,
            active,
            offset,
            len,
        ) == Some(Error::InvalidInput),
{
}

/// A range that has no byte of a stretch is not cut.
proof fn cutting_spares(ranges: Seq<RangeView>, from: int, to: int, range: RangeView)
    requires
        ranges.contains(range),
        range.end() <= from || range.offset >= to,
    ensures
        cut_all(ranges, from, to).contains(range),
    decreases ranges.len(),
{
    let rest = ranges.drop_last();
    let last = ranges.last();
    let left = cut_all(rest, from, to);
    let right = cut(last, from, to);
    let all = cut_all(ranges, from, to);
    if last == range {
        assert(right[0] == range);
        assert(all[left.len() as int] == range);
    } else {
        let i = ranges.index_of(range);
        assert(rest[i] == range);
        cutting_spares(rest, from, to, range);
        let k = left.index_of(range);
        assert(all[k] == range);
    }
}

/// What a daemon did not take of a write is still there, and still to be sent: the write failed,
/// but none of those bytes is lost.
pub proof fn law_a_short_write_keeps_the_rest(
    c: CacheView,
    f: FlushView,
    written: usize,
    pos: int,
)
    requires
        c.wf(),
        f.wf(),
        f.index < f.dirty.len(),
        written < f.dirty[f.index].data.len(),
        sent(c, true, f, Ok(written)).0 == Err::<(), Error>(Error::Io),
        f.dirty[f.index].offset + written <= pos < f.dirty[f.index].end(),
    ensures
        byte_at(sent(c, true, f, Ok(written)).1.ranges(f.nodeid), pos) == Some(
            f.dirty[f.index].data[pos - f.dirty[f.index].offset],
        ),
{
    let range = f.dirty[f.index];
    let rest = (range.offset + written) as u64;
    let tail = range.data.skip(written as int);
    let owner = range.owner->0;
    assert(range.owner == Some(owner));
    let new = store_range(c, f.nodeid, rest, tail, range.owner);
    let middle = stored(c, true, f.nodeid, rest, tail, range.owner);
    assert(store_result(c, true, f.nodeid, rest, tail, range.owner) is Ok);
    law_a_write_reads_back(c, f.nodeid, rest, tail, owner, pos);
    let ranges = middle.ranges(f.nodeid);
    assert(ranges == replaced(c.ranges(f.nodeid), new));
    assert(ranges[ranges.len() - 1] == new);
    assert(ranges.contains(new));
    assert(fits(middle.inodes[f.nodeid]));
    let (stage, then) = staged(c, true, f, written as int);
    assert(stage is Ok);
    let head = range.data.take(written as int);
    let after = then.ranges(f.nodeid);
    assert(sound(after) && after.contains(new) && then.inodes.contains_key(f.nodeid)) by {
        if written > 0 && then != middle {
            let taken = store_range(
                middle,
                f.nodeid,
                range.offset,
                head,
                None,
            );
            law_a_stored_range_reads_back(ranges, taken, pos);
            assert(after == replaced(ranges, taken));
            cutting_spares(ranges, taken.offset as int, taken.end(), new);
            let cuts = cut_all(ranges, taken.offset as int, taken.end());
            let k = cuts.index_of(new);
            assert(after[k] == new);
        }
    }
    let keep = Keep::Unsent(range.epoch, range.offset);
    kept_holds(after, keep, new);
    kept_is_sound(after, keep);
    let left = kept(after, keep);
    let k = left.index_of(new);
    byte_at_is(left, k, pos);
    all_unmarking_keeps_bytes(left, f.dirty, f.index + 1, pos);
    assert(tail[pos - rest] == range.data[pos - range.offset]);
}

} // verus!
