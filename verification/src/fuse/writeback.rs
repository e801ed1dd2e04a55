//! Sending what is dirty to the daemon.
//!
//! The sending itself is the caller's: it asks for the next write, sends it, and says
//! what came of it.

use vstd::prelude::*;
use crate::bytes::to_vec;
use crate::error::Error;
use crate::fuse::cache::{all_marked, all_unmarked, fits, is_sendable, lives, marked, place,
    same_shape, store_result, stored, to_send, unmarked, CacheView};
use crate::fuse::ranges::{range_views, sound, CachedRange, Keep, RangeView};
use crate::fuse::superblock::{Superblock, SuperblockView};

verus! {

/// What is being sent of a file.
pub struct Flush {
    pub nodeid: u64,
    /// The handle that everything is sent through, or none where each range goes through
    /// its own.
    pub fh: Option<u64>,
    pub dirty: Vec<CachedRange>,
    pub index: usize,
}

/// What is said of what is being sent.
#[verifier::ext_equal]
pub struct FlushView {
    pub nodeid: u64,
    pub fh: Option<u64>,
    pub dirty: Seq<RangeView>,
    pub index: int,
}

impl View for Flush {
    type V = FlushView;

    open spec fn view(&self) -> FlushView {
        FlushView {
            nodeid: self.nodeid,
            fh: self.fh,
            dirty: range_views(self.dirty@),
            index: self.index as int,
        }
    }
}

impl FlushView {
    pub open spec fn wf(self) -> bool {
        &&& 0 <= self.index <= self.dirty.len()
        &&& forall|i: int|
            0 <= i < self.dirty.len() ==> (#[trigger] self.dirty[i]).end() <= u64::MAX
                && self.dirty[i].owner is Some
    }
}

/// The next write of a file.
pub enum FlushStep {
    Done,
    Write { fh: u64, offset: u64, data: Vec<u8> },
    Failed(Error),
}

/// What is said of the next write.
pub enum StepView {
    Done,
    Write { fh: u64, offset: u64, data: Seq<u8> },
    Failed(Error),
}

impl View for FlushStep {
    type V = StepView;

    open spec fn view(&self) -> StepView {
        match self {
            FlushStep::Done => StepView::Done,
            FlushStep::Write { fh, offset, data } => StepView::Write {
                fh: *fh,
                offset: *offset,
                data: data@,
            },
            FlushStep::Failed(error) => StepView::Failed(*error),
        }
    }
}

/// The cache after the ranges from `from` on are no longer being sent.
pub open spec fn given_up(c: CacheView, f: FlushView, from: int) -> CacheView {
    if c.inodes.contains_key(f.nodeid) {
        c.with_ranges(f.nodeid, all_unmarked(c.ranges(f.nodeid), f.dirty, from))
    } else {
        c
    }
}

/// The next write, and the cache before it.  A range whose handle is gone cannot be sent
/// through another: what is dirty stays, and the failure is final for the file.
pub open spec fn next_write(s: SuperblockView, f: FlushView) -> (StepView, CacheView) {
    if f.index >= f.dirty.len() {
        (StepView::Done, s.cache)
    } else {
        let range = f.dirty[f.index];
        if f.fh is None && !s.handles.contains(range.owner->0) {
            (StepView::Failed(Error::Io), given_up(s.cache, f, f.index))
        } else {
            (
                StepView::Write {
                    fh: match f.fh {
                        Some(fh) => fh,
                        None => range.owner->0.fh,
                    },
                    offset: range.offset,
                    data: range.data,
                },
                s.cache,
            )
        }
    }
}

/// What a short write is staged as: the rest goes back to its handle, and what was taken
/// is kept clean.
pub open spec fn staged(c: CacheView, active: bool, f: FlushView, written: int) -> (
    Result<(), Error>,
    CacheView,
) {
    let range = f.dirty[f.index];
    let rest = (range.offset + written) as u64;
    let first = store_result(c, active, f.nodeid, rest, range.data.skip(written), range.owner);
    let middle = stored(c, active, f.nodeid, rest, range.data.skip(written), range.owner);
    if first is Err || written == 0 {
        (first, middle)
    } else {
        (
            store_result(middle, active, f.nodeid, range.offset, range.data.take(written), None),
            stored(middle, active, f.nodeid, range.offset, range.data.take(written), None),
        )
    }
}

/// What comes of a write, and the cache after it.
pub open spec fn sent(
    c: CacheView,
    active: bool,
    f: FlushView,
    result: Result<usize, Error>,
) -> (Result<(), Error>, CacheView) {
    let range = f.dirty[f.index];
    match result {
        Err(error) => (Err(error), given_up(c, f, f.index)),
        Ok(written) => if written == range.data.len() {
            (Ok(()), c.retained(f.nodeid, Keep::Unsent(range.epoch, range.offset)))
        } else {
            let (stage, after) = staged(c, active, f, written as int);
            if stage is Err {
                (stage, given_up(after, f, f.index))
            } else {
                (
                    Err(Error::Io),
                    given_up(
                        after.retained(f.nodeid, Keep::Unsent(range.epoch, range.offset)),
                        f,
                        f.index + 1,
                    ),
                )
            }
        },
    }
}

/// Whether a range is one of those that are kept, marked.
spec fn comes_from(ranges: Seq<RangeView>, fh: Option<u64>, range: RangeView) -> bool {
    exists|i: int|
        0 <= i < ranges.len() && is_sendable(#[trigger] ranges[i], fh) && range == marked(
            ranges[i],
            fh,
        )
}

/// Every range that is to be sent is one of those that are kept.
proof fn sendables_are_kept(ranges: Seq<RangeView>, fh: Option<u64>)
    ensures
        forall|k: int|
            0 <= k < to_send(ranges, fh).len() ==> comes_from(
                ranges,
                fh,
                #[trigger] to_send(ranges, fh)[k],
            ),
    decreases ranges.len(),
{
    if ranges.len() > 0 {
        let rest = ranges.drop_last();
        sendables_are_kept(rest, fh);
        let all = to_send(ranges, fh);
        let few = to_send(rest, fh);
        assert forall|k: int| 0 <= k < all.len() implies comes_from(
            ranges,
            fh,
            #[trigger] all[k],
        ) by {
            if k < few.len() {
                assert(all[k] == few[k]);
                let i = choose|i: int|
                    0 <= i < rest.len() && is_sendable(#[trigger] rest[i], fh) && few[k] == marked(
                        rest[i],
                        fh,
                    );
                assert(ranges[i] == rest[i]);
            } else {
                assert(is_sendable(ranges[ranges.len() - 1], fh));
            }
        }
    }
}

impl Superblock {
    /// Begin to send what is dirty of a file, of one handle or of all.
    pub fn begin_flush(&mut self, nodeid: u64, fh: Option<u64>) -> (flush: Flush)
        requires
            old(self).wf(),
        ensures
            final(self).wf(),
            flush@ == (FlushView {
                nodeid,
                fh,
                dirty: to_send(old(self)@.cache.ranges(nodeid), fh),
                index: 0,
            }),
            flush@.wf(),
            final(self)@ == (SuperblockView {
                cache: if old(self)@.cache.inodes.contains_key(nodeid) {
                    old(self)@.cache.with_ranges(
                        nodeid,
                        all_marked(old(self)@.cache.ranges(nodeid), fh),
                    )
                } else {
                    old(self)@.cache
                },
                ..old(self)@
            }),
    {
        let ghost ranges = self@.cache.ranges(nodeid);
        proof {
            if self@.cache.inodes.contains_key(nodeid) {
                assert(fits(self@.cache.inodes[nodeid]));
            }
            sendables_are_kept(ranges, fh);
        }
        let dirty: Vec<CachedRange> = self.cache.take_dirty(nodeid, fh);
        let flush = Flush { nodeid, fh, dirty, index: 0 };
        proof {
            let all = to_send(ranges, fh);
            assert forall|k: int| 0 <= k < all.len() implies (#[trigger] all[k]).end() <= u64::MAX
                && all[k].owner is Some by {
                let i = choose|i: int|
                    0 <= i < ranges.len() && is_sendable(#[trigger] ranges[i], fh) && all[k]
                        == marked(ranges[i], fh);
                assert(ranges[i].data.len() > 0);
            }
        }
        flush
    }

    /// The next write.
    pub fn flush_step(&mut self, flush: &Flush) -> (step: FlushStep)
        requires
            old(self).wf(),
            flush@.wf(),
        ensures
            final(self).wf(),
            step@ == next_write(old(self)@, flush@).0,
            final(self)@ == (SuperblockView {
                cache: next_write(old(self)@, flush@).1,
                ..old(self)@
            }),
    {
        if flush.index >= flush.dirty.len() {
            return FlushStep::Done;
        }
        assert(flush@.dirty[flush.index as int] == flush.dirty@[flush.index as int]@);
        let range = &flush.dirty[flush.index];
        let fh: u64 = match flush.fh {
            Some(fh) => fh,
            None => match range.owner {
                Some(owner) => {
                    if !lives(&self.handles, owner) {
                        self.cache.restore_dirty(flush.nodeid, &flush.dirty, flush.index);
                        return FlushStep::Failed(Error::Io);
                    }
                    owner.fh
                },
                None => 0,
            },
        };
        FlushStep::Write { fh, offset: range.offset, data: to_vec(range.data.as_slice()) }
    }

    fn stage_short_write(&mut self, active: bool, flush: &Flush, written: usize) -> (result: Result<
        (),
        Error,
    >)
        requires
            old(self).wf(),
            flush@.wf(),
            flush@.index < flush@.dirty.len(),
            written < flush@.dirty[flush@.index].data.len(),
        ensures
            final(self).wf(),
            result == staged(old(self)@.cache, active, flush@, written as int).0,
            final(self)@ == (SuperblockView {
                cache: staged(old(self)@.cache, active, flush@, written as int).1,
                ..old(self)@
            }),
    {
        assert(flush@.dirty[flush.index as int] == flush.dirty@[flush.index as int]@);
        let range = &flush.dirty[flush.index];
        let size: usize = range.data.len();
        let rest = &range.data.as_slice()[written..size];
        assert(rest@ =~= range@.data.skip(written as int));
        self.cache.cache_store(
            active,
            flush.nodeid,
            range.offset + written as u64,
            rest,
            range.owner,
        )?;
        if written == 0 {
            return Ok(());
        }
        let head = &range.data.as_slice()[0..written];
        assert(head@ =~= range@.data.take(written as int));
        self.cache.cache_store(active, flush.nodeid, range.offset, head, None)
    }

    /// Say what came of a write: how many bytes the daemon took, or its error.  After an
    /// error nothing more is to be sent.
    pub fn flush_sent(
        &mut self,
        active: bool,
        flush: &mut Flush,
        result: Result<usize, Error>,
    ) -> (outcome: Result<(), Error>)
        requires
            old(self).wf(),
            old(flush)@.wf(),
            old(flush)@.index < old(flush)@.dirty.len(),
            result is Ok ==> result->Ok_0 <= old(flush)@.dirty[old(flush)@.index].data.len(),
        ensures
            final(self).wf(),
            final(flush)@ == (FlushView { index: old(flush)@.index + 1, ..old(flush)@ }),
            final(flush)@.wf(),
            outcome == sent(old(self)@.cache, active, old(flush)@, result).0,
            final(self)@ == (SuperblockView {
                cache: sent(old(self)@.cache, active, old(flush)@, result).1,
                ..old(self)@
            }),
    {
        let at: usize = flush.index;
        let count: usize = flush.dirty.len();
        assert(at < count);
        assert(flush@.dirty[at as int] == flush.dirty@[at as int]@);
        let epoch: u64 = flush.dirty[at].epoch;
        let offset: u64 = flush.dirty[at].offset;
        let size: usize = flush.dirty[at].data.len();
        let outcome = match result {
            Err(error) => {
                self.cache.restore_dirty(flush.nodeid, &flush.dirty, at);
                Err(error)
            },
            Ok(written) => {
                if written == size {
                    self.cache.complete_dirty(flush.nodeid, epoch, offset);
                    Ok(())
                } else {
                    match self.stage_short_write(active, &*flush, written) {
                        Err(error) => {
                            self.cache.restore_dirty(flush.nodeid, &flush.dirty, at);
                            Err(error)
                        },
                        Ok(()) => {
                            self.cache.complete_dirty(flush.nodeid, epoch, offset);
                            self.cache.restore_dirty(flush.nodeid, &flush.dirty, at + 1);
                            Err(Error::Io)
                        },
                    }
                }
            },
        };
        flush.index = at + 1;
        outcome
    }
}

proof fn place_found(ranges: Seq<RangeView>, i: int)
    requires
        sound(ranges),
        0 <= i < ranges.len(),
    ensures
        place(ranges, ranges[i].epoch, ranges[i].offset) == i,
    decreases ranges.len(),
{
    let epoch = ranges[i].epoch;
    let offset = ranges[i].offset;
    if i > 0 {
        let rest = ranges.drop_first();
        assert(!ranges[0].meets(ranges[i].offset as int, ranges[i].end()));
        assert(ranges[0].data.len() > 0 && ranges[i].data.len() > 0);
        assert(sound(rest)) by {
            assert forall|a: int| 0 <= a < rest.len() implies (#[trigger] rest[a]).data.len() > 0
                && rest[a].end() <= u64::MAX by {
                assert(rest[a] == ranges[a + 1]);
            }
            assert forall|a: int, b: int| 0 <= a < b < rest.len() implies !(#[trigger] rest[a]).meets(
                rest[b].offset as int,
                (#[trigger] rest[b]).end(),
            ) by {
                assert(rest[a] == ranges[a + 1] && rest[b] == ranges[b + 1]);
            }
        }
        assert(rest[i - 1] == ranges[i]);
        place_found(rest, i - 1);
    }
}

/// The first `n` ranges unmarked, and the rest as marked.
spec fn half_way(ranges: Seq<RangeView>, fh: Option<u64>, n: int) -> Seq<RangeView> {
    Seq::new(
        ranges.len(),
        |i: int|
            if i < n {
                ranges[i]
            } else {
                marked(ranges[i], fh)
            },
    )
}

/// Unmarking goes range by range.
proof fn unmarking(
    ranges: Seq<RangeView>,
    fh: Option<u64>,
    n: int,
)
    requires
        sound(ranges),
        0 <= n <= ranges.len(),
    ensures
        all_unmarked(
            half_way(ranges, fh, n),
            to_send(ranges, fh),
            to_send(ranges.take(n), fh).len() as int,
        ) == ranges,
    decreases ranges.len() - n,
{
    let dirty = to_send(ranges, fh);
    let k = to_send(ranges.take(n), fh).len() as int;
    let now = half_way(ranges, fh, n);
    if n == ranges.len() {
        assert(ranges.take(n) =~= ranges);
        assert(now =~= ranges);
    } else {
        assert(ranges.take(n + 1).drop_last() =~= ranges.take(n));
        assert(ranges.take(n + 1).last() == ranges[n]);
        unmarking(ranges, fh, n + 1);
        let then = half_way(ranges, fh, n + 1);
        if is_sendable(ranges[n], fh) {
            sent_prefix(ranges, fh, n + 1);
            assert(dirty[k] == to_send(ranges.take(n + 1), fh)[k]);
            assert(dirty[k] == marked(ranges[n], fh));
            same_shape(ranges, now);
            place_found(now, n);
            assert(now[n].epoch == dirty[k].epoch && now[n].offset == dirty[k].offset);
            assert(unmarked(now, dirty[k].epoch, dirty[k].offset) =~= then);
        } else {
            assert(now =~= then);
        }
    }
}

/// What is to be sent of the first ranges is the beginning of what is to be sent.
proof fn sent_prefix(ranges: Seq<RangeView>, fh: Option<u64>, n: int)
    requires
        0 <= n <= ranges.len(),
    ensures
        to_send(ranges.take(n), fh).len() <= to_send(ranges, fh).len(),
        forall|k: int|
            0 <= k < to_send(ranges.take(n), fh).len() ==> #[trigger] to_send(ranges, fh)[k]
                == to_send(ranges.take(n), fh)[k],
    decreases ranges.len() - n,
{
    if n == ranges.len() {
        assert(ranges.take(n) =~= ranges);
    } else {
        sent_prefix(ranges, fh, n + 1);
        assert(ranges.take(n + 1).drop_last() =~= ranges.take(n));
    }
}

/// To give up before anything was sent leaves everything as it was: nothing dirty is lost
/// and nothing counts as being sent.
pub proof fn law_giving_up_undoes_beginning(c: CacheView, nodeid: u64, fh: Option<u64>)
    requires
        c.wf(),
        c.inodes.contains_key(nodeid),
    ensures
        ({
            let begun = c.with_ranges(nodeid, all_marked(c.ranges(nodeid), fh));
            let flush = FlushView { nodeid, fh, dirty: to_send(c.ranges(nodeid), fh), index: 0 };
            given_up(begun, flush, 0) == c
        }),
{
    let ranges = c.ranges(nodeid);
    assert(fits(c.inodes[nodeid]));
    unmarking(ranges, fh, 0);
    assert(ranges.take(0) =~= Seq::<RangeView>::empty());
    assert(half_way(ranges, fh, 0) =~= all_marked(ranges, fh));
    let begun = c.with_ranges(nodeid, all_marked(ranges, fh));
    let flush = FlushView { nodeid, fh, dirty: to_send(ranges, fh), index: 0 };
    assert(given_up(begun, flush, 0).inodes =~= c.inodes);
}

/// A range whose handle is gone is never sent through another.
pub proof fn law_dirty_ranges_go_through_their_own_handle(s: SuperblockView, f: FlushView)
    requires
        f.wf(),
        f.fh is None,
        f.index < f.dirty.len(),
    ensures
        match next_write(s, f).0 {
            StepView::Write { fh, .. } => s.handles.contains(f.dirty[f.index].owner->0) && fh
                == f.dirty[f.index].owner->0.fh,
            _ => !s.handles.contains(f.dirty[f.index].owner->0),
        },
{
}

} // verus!
