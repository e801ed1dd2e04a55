//! The byte ranges of a file that the kernel keeps.

use vstd::prelude::*;
use crate::bytes::{push_bytes, to_vec};

verus! {

/// An open handle, as long as it lives.  The generation tells apart handles to which the
/// daemon gives the same number.
#[derive(Clone, Copy, Debug, PartialEq, Eq, Structural)]
pub struct Lease {
    pub nodeid: u64,
    pub fh: u64,
    pub generation: u64,
}

/// A range of bytes that the kernel keeps.
///
/// A dirty range has an owner: the very handle that took the write.  It has to be
/// written through that handle before the daemon's handle is given back.
pub struct CachedRange {
    pub offset: u64,
    pub data: Vec<u8>,
    pub epoch: u64,
    /// Whether the daemon is being sent the range.
    pub inflight: bool,
    pub owner: Option<Lease>,
}

/// What is said of a range.
#[verifier::ext_equal]
pub struct RangeView {
    pub offset: u64,
    pub data: Seq<u8>,
    pub epoch: u64,
    pub inflight: bool,
    pub owner: Option<Lease>,
}

impl View for CachedRange {
    type V = RangeView;

    open spec fn view(&self) -> RangeView {
        RangeView {
            offset: self.offset,
            data: self.data@,
            epoch: self.epoch,
            inflight: self.inflight,
            owner: self.owner,
        }
    }
}

impl RangeView {
    /// Where the range ends.
    pub open spec fn end(self) -> int {
        self.offset + self.data.len()
    }

    pub open spec fn covers(self, pos: int) -> bool {
        self.offset <= pos < self.end()
    }

    /// Whether the range and that from `from` to `to` have bytes in common.
    pub open spec fn meets(self, from: int, to: int) -> bool {
        self.offset < to && from < self.end()
    }

    pub open spec fn is_dirty(self) -> bool {
        self.owner is Some
    }
}

pub open spec fn range_views(ranges: Seq<CachedRange>) -> Seq<RangeView> {
    Seq::new(ranges.len(), |i: int| ranges[i]@)
}

/// Whether the ranges hold each byte at most once, and are such ranges as a file has.
pub open spec fn sound(ranges: Seq<RangeView>) -> bool {
    &&& forall|i: int|
        0 <= i < ranges.len() ==> (#[trigger] ranges[i]).data.len() > 0 && ranges[i].end()
            <= u64::MAX
    &&& forall|i: int, j: int|
        0 <= i < j < ranges.len() ==> !(#[trigger] ranges[i]).meets(
            ranges[j].offset as int,
            (#[trigger] ranges[j]).end(),
        )
}

proof fn fewer_are_sound(ranges: Seq<RangeView>)
    requires
        sound(ranges),
        ranges.len() > 0,
    ensures
        sound(ranges.drop_last()),
{
    let rest = ranges.drop_last();
    assert forall|a: int| 0 <= a < rest.len() implies (#[trigger] rest[a]).data.len() > 0
        && rest[a].end() <= u64::MAX by {
        assert(rest[a] == ranges[a]);
    }
    assert forall|a: int, b: int| 0 <= a < b < rest.len() implies !(#[trigger] rest[a]).meets(
        rest[b].offset as int,
        (#[trigger] rest[b]).end(),
    ) by {
        assert(rest[a] == ranges[a] && rest[b] == ranges[b]);
    }
}

/// The byte that is kept of a position.
pub open spec fn byte_at(ranges: Seq<RangeView>, pos: int) -> Option<u8>
    decreases ranges.len(),
{
    if ranges.len() == 0 {
        None
    } else if ranges.last().covers(pos) {
        Some(ranges.last().data[pos - ranges.last().offset])
    } else {
        byte_at(ranges.drop_last(), pos)
    }
}

/// A range that covers a position gives its byte.
pub proof fn byte_at_is(ranges: Seq<RangeView>, i: int, pos: int)
    requires
        sound(ranges),
        0 <= i < ranges.len(),
        ranges[i].covers(pos),
    ensures
        byte_at(ranges, pos) == Some(ranges[i].data[pos - ranges[i].offset]),
    decreases ranges.len(),
{
    if i < ranges.len() - 1 {
        assert(!ranges[i].meets(ranges[ranges.len() - 1].offset as int, ranges[ranges.len() - 1].end()));
        let rest = ranges.drop_last();
        fewer_are_sound(ranges);
        byte_at_is(rest, i, pos);
    }
}

/// No byte is kept where no range is.
pub proof fn byte_at_none(ranges: Seq<RangeView>, pos: int)
    requires
        forall|i: int| 0 <= i < ranges.len() ==> !(#[trigger] ranges[i]).covers(pos),
    ensures
        byte_at(ranges, pos) is None,
    decreases ranges.len(),
{
    if ranges.len() > 0 {
        let rest = ranges.drop_last();
        assert(!ranges[ranges.len() - 1].covers(pos));
        assert forall|i: int| 0 <= i < rest.len() implies !(#[trigger] rest[i]).covers(pos) by {
            assert(rest[i] == ranges[i]);
        }
        byte_at_none(rest, pos);
    }
}

/// A byte that is kept is one of a range.
pub proof fn byte_at_some(ranges: Seq<RangeView>, pos: int) -> (i: int)
    requires
        byte_at(ranges, pos) is Some,
    ensures
        0 <= i < ranges.len(),
        ranges[i].covers(pos),
        byte_at(ranges, pos) == Some(ranges[i].data[pos - ranges[i].offset]),
    decreases ranges.len(),
{
    if ranges.last().covers(pos) {
        ranges.len() - 1
    } else {
        let i = byte_at_some(ranges.drop_last(), pos);
        assert(ranges.drop_last()[i] == ranges[i]);
        i
    }
}

/// The fragments of a range that lie outside `from` to `to`.
pub open spec fn cut(range: RangeView, from: int, to: int) -> Seq<RangeView> {
    if range.end() <= from || range.offset >= to {
        seq![range]
    } else {
        (if range.offset < from {
            seq![RangeView { data: range.data.take(from - range.offset), ..range }]
        } else {
            Seq::empty()
        }) + (if range.end() > to {
            seq![
                RangeView { offset: to as u64, data: range.data.skip(to - range.offset), ..range },
            ]
        } else {
            Seq::empty()
        })
    }
}

/// The fragments of the ranges that lie outside `from` to `to`.
pub open spec fn cut_all(ranges: Seq<RangeView>, from: int, to: int) -> Seq<RangeView>
    decreases ranges.len(),
{
    if ranges.len() == 0 {
        Seq::empty()
    } else {
        cut_all(ranges.drop_last(), from, to) + cut(ranges.last(), from, to)
    }
}

/// The ranges after one was laid over them.
pub open spec fn replaced(ranges: Seq<RangeView>, new: RangeView) -> Seq<RangeView> {
    cut_all(ranges, new.offset as int, new.end()).push(new)
}

/// What is said of the fragments: each is a part of a range, and lies outside.
pub proof fn cut_all_parts(ranges: Seq<RangeView>, from: int, to: int)
    requires
        sound(ranges),
        0 <= from < to <= u64::MAX,
    ensures
        sound(cut_all(ranges, from, to)),
        cut_all(ranges, from, to).len() <= 2 * ranges.len(),
        forall|k: int|
            0 <= k < cut_all(ranges, from, to).len() ==> !(#[trigger] cut_all(
                ranges,
                from,
                to,
            )[k]).meets(from, to),
        forall|k: int|
            0 <= k < cut_all(ranges, from, to).len() ==> inside_one(
                ranges,
                #[trigger] cut_all(ranges, from, to)[k],
            ),
    decreases ranges.len(),
{
    if ranges.len() > 0 {
        let rest = ranges.drop_last();
        let last = ranges.last();
        assert(last == ranges[ranges.len() - 1]);
        fewer_are_sound(ranges);
        cut_all_parts(rest, from, to);
        let left = cut_all(rest, from, to);
        let right = cut(last, from, to);
        let all = left + right;
        assert(right.len() <= 2);
        assert forall|k: int| 0 <= k < right.len() implies {
            &&& (#[trigger] right[k]).data.len() > 0
            &&& last.offset <= right[k].offset
            &&& right[k].end() <= last.end()
            &&& !right[k].meets(from, to)
            &&& part_of(right[k], last)
        } by {
            let part = right[k];
            assert(part.data =~= last.data.subrange(
                part.offset - last.offset,
                part.end() - last.offset,
            ));
        }
        assert forall|k: int| 0 <= k < all.len() implies {
            &&& (#[trigger] all[k]).data.len() > 0
            &&& all[k].end() <= u64::MAX
            &&& !all[k].meets(from, to)
            &&& inside_one(ranges, all[k])
        } by {
            if k < left.len() {
                assert(all[k] == left[k]);
                let i = choose|i: int| 0 <= i < rest.len() && part_of(left[k], #[trigger] rest[i]);
                assert(rest[i] == ranges[i]);
            } else {
                assert(all[k] == right[k - left.len()]);
                assert(part_of(all[k], ranges[ranges.len() - 1]));
            }
        }
        assert forall|a: int, b: int| 0 <= a < b < all.len() implies !(#[trigger] all[a]).meets(
            all[b].offset as int,
            (#[trigger] all[b]).end(),
        ) by {
            if b < left.len() {
                assert(all[a] == left[a] && all[b] == left[b]);
            } else if a < left.len() {
                assert(all[a] == left[a]);
                assert(all[b] == right[b - left.len()]);
                let i = choose|i: int| 0 <= i < rest.len() && part_of(left[a], #[trigger] rest[i]);
                assert(rest[i] == ranges[i]);
                assert(!ranges[i].meets(ranges[ranges.len() - 1].offset as int, ranges[ranges.len() - 1].end()));
            } else {
                assert(all[a] == right[0] && all[b] == right[1]);
            }
        }
    }
}

/// Whether one range is a part of another.
pub open spec fn part_of(part: RangeView, whole: RangeView) -> bool {
    &&& whole.offset <= part.offset
    &&& part.end() <= whole.end()
    &&& part.data == whole.data.subrange(part.offset - whole.offset, part.end() - whole.offset)
    &&& part.epoch == whole.epoch
    &&& part.inflight == whole.inflight
    &&& part.owner == whole.owner
}

pub open spec fn inside_one(ranges: Seq<RangeView>, part: RangeView) -> bool {
    exists|i: int| 0 <= i < ranges.len() && part_of(part, #[trigger] ranges[i])
}

/// The fragments keep every byte that lies outside, and none that lies inside.
pub proof fn cut_all_bytes(ranges: Seq<RangeView>, from: int, to: int, pos: int)
    requires
        sound(ranges),
        0 <= from < to <= u64::MAX,
    ensures
        byte_at(cut_all(ranges, from, to), pos) == (if from <= pos < to {
            None
        } else {
            byte_at(ranges, pos)
        }),
    decreases ranges.len(),
{
    let parts = cut_all(ranges, from, to);
    cut_all_parts(ranges, from, to);
    if from <= pos < to {
        assert forall|i: int| 0 <= i < parts.len() implies !(#[trigger] parts[i]).covers(pos) by {
            assert(!parts[i].meets(from, to));
        }
        byte_at_none(parts, pos);
    } else if byte_at(ranges, pos) is Some {
        let i = byte_at_some(ranges, pos);
        let k = piece_of(ranges, from, to, i, pos);
        byte_at_is(parts, k, pos);
        byte_at_is(ranges, i, pos);
    } else {
        assert forall|k: int| 0 <= k < parts.len() implies !(#[trigger] parts[k]).covers(pos) by {
            if parts[k].covers(pos) {
                let i = choose|i: int| 0 <= i < ranges.len() && part_of(parts[k], #[trigger] ranges[i]);
                byte_at_is(ranges, i, pos);
            }
        }
        byte_at_none(parts, pos);
    }
}

/// The fragment that a position outside falls into.
proof fn piece_of(ranges: Seq<RangeView>, from: int, to: int, i: int, pos: int) -> (k: int)
    requires
        sound(ranges),
        0 <= from < to <= u64::MAX,
        0 <= i < ranges.len(),
        ranges[i].covers(pos),
        !(from <= pos < to),
    ensures
        0 <= k < cut_all(ranges, from, to).len(),
        cut_all(ranges, from, to)[k].covers(pos),
        cut_all(ranges, from, to)[k].data[pos - cut_all(ranges, from, to)[k].offset]
            == ranges[i].data[pos - ranges[i].offset],
    decreases ranges.len(),
{
    let rest = ranges.drop_last();
    let left = cut_all(rest, from, to);
    let right = cut(ranges.last(), from, to);
    let all = left + right;
    if i < ranges.len() - 1 {
        fewer_are_sound(ranges);
        assert(rest[i] == ranges[i]);
        let k = piece_of(rest, from, to, i, pos);
        assert(all[k] == left[k]);
        k
    } else {
        let last = ranges.last();
        if last.end() <= from || last.offset >= to {
            assert(all[left.len() as int] == last);
            left.len() as int
        } else if pos < from {
            assert(right[0].data == last.data.take(from - last.offset));
            assert(all[left.len() as int] == right[0]);
            left.len() as int
        } else {
            let k = right.len() - 1;
            assert(right[k].offset == to && right[k].data == last.data.skip(to - last.offset));
            assert(all[left.len() + k] == right[k]);
            left.len() + k
        }
    }
}

/// A range that is laid over others is what is read there, and what is read elsewhere
/// does not change.
pub proof fn law_a_stored_range_reads_back(ranges: Seq<RangeView>, new: RangeView, pos: int)
    requires
        sound(ranges),
        new.data.len() > 0,
        new.end() <= u64::MAX,
    ensures
        sound(replaced(ranges, new)),
        byte_at(replaced(ranges, new), pos) == (if new.covers(pos) {
            Some(new.data[pos - new.offset])
        } else {
            byte_at(ranges, pos)
        }),
{
    let from = new.offset as int;
    let to = new.end();
    let parts = cut_all(ranges, from, to);
    let all = parts.push(new);
    cut_all_parts(ranges, from, to);
    cut_all_bytes(ranges, from, to, pos);
    assert(all.drop_last() =~= parts);
    assert(all.last() == new);
    assert forall|i: int| 0 <= i < all.len() implies (#[trigger] all[i]).data.len() > 0
        && all[i].end() <= u64::MAX by {
        if i < parts.len() {
            assert(all[i] == parts[i]);
        }
    }
    assert forall|i: int, j: int| 0 <= i < j < all.len() implies !(#[trigger] all[i]).meets(
        all[j].offset as int,
        (#[trigger] all[j]).end(),
    ) by {
        assert(all[i] == parts[i]);
        if j < parts.len() {
            assert(all[j] == parts[j]);
        }
    }
}

/// The bytes that ranges are charged with.
pub open spec fn ranges_cost(ranges: Seq<RangeView>) -> nat
    decreases ranges.len(),
{
    if ranges.len() == 0 {
        0
    } else {
        ranges_cost(ranges.drop_last()) + 128 + ranges.last().data.len()
    }
}

proof fn cost_grows(ranges: Seq<RangeView>, n: int)
    requires
        0 <= n <= ranges.len(),
    ensures
        ranges_cost(ranges.take(n)) <= ranges_cost(ranges),
    decreases ranges.len() - n,
{
    if n == ranges.len() {
        assert(ranges.take(n) =~= ranges);
    } else {
        cost_grows(ranges, n + 1);
        assert(ranges.take(n + 1).drop_last() =~= ranges.take(n));
    }
}

/// The bytes that ranges are charged with, if not over `limit`.
pub fn cost_within(ranges: &Vec<CachedRange>, limit: usize) -> (cost: Option<usize>)
    ensures
        match cost {
            Some(cost) => cost == ranges_cost(range_views(ranges@)) && cost <= limit,
            None => ranges_cost(range_views(ranges@)) > limit,
        },
{
    let ghost views = range_views(ranges@);
    let mut sum: usize = 0;
    let mut i: usize = 0;
    assert(views.take(0) =~= Seq::<RangeView>::empty());
    while i < ranges.len()
        invariant
            i <= ranges@.len(),
            views == range_views(ranges@),
            sum == ranges_cost(views.take(i as int)),
            sum <= limit,
        decreases ranges@.len() - i,
    {
        proof {
            assert(views.take(i as int + 1).drop_last() =~= views.take(i as int));
            assert(views[i as int] == ranges@[i as int]@);
            cost_grows(views, i as int + 1);
        }
        let size: usize = ranges[i].data.len();
        let left: usize = limit - sum;
        if left < 128 || size > left - 128 {
            return None;
        }
        sum = sum + 128 + size;
        i = i + 1;
    }
    assert(views.take(i as int) =~= views);
    Some(sum)
}

/// A copy of a range.
pub fn copy_range(range: &CachedRange) -> (copy: CachedRange)
    ensures
        copy@ == range@,
{
    CachedRange {
        offset: range.offset,
        data: to_vec(range.data.as_slice()),
        epoch: range.epoch,
        inflight: range.inflight,
        owner: range.owner,
    }
}

/// Lay a range over others.
pub fn replace_range(ranges: &Vec<CachedRange>, new: CachedRange) -> (next: Vec<CachedRange>)
    requires
        sound(range_views(ranges@)),
        new@.data.len() > 0,
        new@.end() <= u64::MAX,
    ensures
        range_views(next@) == replaced(range_views(ranges@), new@),
{
    let from: u64 = new.offset;
    let end: u64 = new.offset + new.data.len() as u64;
    let ghost views = range_views(ranges@);
    let mut next: Vec<CachedRange> = Vec::new();
    let mut i: usize = 0;
    assert(range_views(next@) =~= cut_all(views.take(0), from as int, end as int));
    while i < ranges.len()
        invariant
            i <= ranges@.len(),
            views == range_views(ranges@),
            sound(views),
            from < end,
            range_views(next@) == cut_all(views.take(i as int), from as int, end as int),
        decreases ranges@.len() - i,
    {
        let old = &ranges[i];
        proof {
            assert(views.take(i as int + 1).drop_last() =~= views.take(i as int));
            assert(views.take(i as int + 1).last() == old@);
            assert(views[i as int] == old@);
        }
        let ghost sofar = next@;
        let old_end: u64 = old.offset + old.data.len() as u64;
        if old_end <= from || old.offset >= end {
            next.push(copy_range(old));
            assert(range_views(next@) =~= range_views(sofar) + seq![old@]);
        } else {
            if old.offset < from {
                let keep: usize = (from - old.offset) as usize;
                let mut data: Vec<u8> = Vec::new();
                push_bytes(&mut data, &old.data.as_slice()[0..keep]);
                assert(data@ =~= old@.data.take(keep as int));
                next.push(
                    CachedRange {
                        offset: old.offset,
                        data,
                        epoch: old.epoch,
                        inflight: old.inflight,
                        owner: old.owner,
                    },
                );
            }
            let ghost middle = next@;
            if old_end > end {
                let start: usize = (end - old.offset) as usize;
                let mut data: Vec<u8> = Vec::new();
                push_bytes(&mut data, &old.data.as_slice()[start..old.data.len()]);
                assert(data@ =~= old@.data.skip(start as int));
                next.push(
                    CachedRange {
                        offset: end,
                        data,
                        epoch: old.epoch,
                        inflight: old.inflight,
                        owner: old.owner,
                    },
                );
            }
            assert(range_views(next@) =~= range_views(sofar) + cut(
                old@,
                from as int,
                end as int,
            ));
        }
        i = i + 1;
    }
    assert(views.take(i as int) =~= views);
    let ghost parts = next@;
    next.push(new);
    assert(range_views(next@) =~= range_views(parts).push(new@));
    next
}

/// Find the last range that covers a position.
pub fn find_cover(ranges: &Vec<CachedRange>, pos: u64) -> (at: Option<usize>)
    requires
        sound(range_views(ranges@)),
    ensures
        match at {
            Some(at) => at < ranges@.len() && ranges@[at as int]@.covers(pos as int),
            None => forall|i: int|
                0 <= i < ranges@.len() ==> !(#[trigger] range_views(ranges@)[i]).covers(pos as int),
        },
{
    let ghost views = range_views(ranges@);
    let mut left: usize = ranges.len();
    while left > 0
        invariant
            left <= ranges@.len(),
            views == range_views(ranges@),
            sound(views),
            forall|i: int| left <= i < views.len() ==> !(#[trigger] views[i]).covers(pos as int),
        decreases left,
    {
        let range = &ranges[left - 1];
        assert(views[left - 1] == range@);
        if range.offset <= pos && range.offset + range.data.len() as u64 > pos {
            return Some(left - 1);
        }
        left = left - 1;
    }
    None
}

/// Whether every position of a stretch is kept.
pub open spec fn resident(ranges: Seq<RangeView>, offset: int, len: int) -> bool {
    forall|i: int| 0 <= i < len ==> #[trigger] byte_at(ranges, offset + i) is Some
}

/// The bytes of a stretch that is kept.
pub open spec fn contents(ranges: Seq<RangeView>, offset: int, len: nat) -> Seq<u8> {
    Seq::new(len, |i: int| byte_at(ranges, offset + i)->0)
}

/// Read a stretch that is kept whole.
pub fn read_ranges(ranges: &Vec<CachedRange>, offset: u64, len: usize) -> (data: Option<Vec<u8>>)
    requires
        sound(range_views(ranges@)),
        offset + len <= u64::MAX,
    ensures
        match data {
            Some(data) => resident(range_views(ranges@), offset as int, len as int) && data@
                == contents(range_views(ranges@), offset as int, len as nat),
            None => !resident(range_views(ranges@), offset as int, len as int),
        },
{
    let ghost views = range_views(ranges@);
    let mut data: Vec<u8> = Vec::new();
    while data.len() < len
        invariant
            data@.len() <= len,
            views == range_views(ranges@),
            sound(views),
            offset + len <= u64::MAX,
            forall|i: int|
                0 <= i < data@.len() ==> #[trigger] byte_at(views, offset + i) == Some(data@[i]),
        decreases len - data@.len(),
    {
        let done: usize = data.len();
        let cursor: u64 = offset + done as u64;
        match find_cover(ranges, cursor) {
            None => {
                proof {
                    byte_at_none(views, offset + done as int);
                    assert(byte_at(views, offset + done as int) is None);
                }
                return None;
            },
            Some(at) => {
                let range = &ranges[at];
                assert(views[at as int] == range@);
                let from: usize = (cursor - range.offset) as usize;
                let available: usize = range.data.len() - from;
                let count: usize = if available <= len - done {
                    available
                } else {
                    len - done
                };
                let ghost before = data@;
                push_bytes(&mut data, &range.data.as_slice()[from..from + count]);
                assert forall|i: int| 0 <= i < data@.len() implies #[trigger] byte_at(
                    views,
                    offset + i,
                ) == Some(data@[i]) by {
                    if i >= done {
                        byte_at_is(views, at as int, offset + i);
                        assert(data@[i] == range@.data.subrange(from as int, from + count)[i
                            - done]);
                    } else {
                        assert(data@[i] == before[i]);
                    }
                }
            },
        }
    }
    assert(data@ =~= contents(views, offset as int, len as nat));
    Some(data)
}

/// Which ranges stay.
#[derive(Clone, Copy, Debug, PartialEq, Eq, Structural)]
pub enum Keep {
    /// None.
    Nothing,
    /// All but the ones of an epoch and an offset that the daemon was sent.
    Unsent(u64, u64),
    /// Those that end before.
    Before(u64),
    /// Those that have no byte in common with a stretch.
    Outside(u64, u64),
    /// The dirty ones.
    Dirty,
    /// The dirty ones, and those that have no byte in common with a stretch.
    DirtyOrOutside(u64, u64),
}

/// Whether a range stays.
pub open spec fn stays(keep: Keep, range: RangeView) -> bool {
    match keep {
        Keep::Nothing => false,
        Keep::Unsent(epoch, offset) => !(range.epoch == epoch && range.offset == offset
            && range.inflight),
        Keep::Before(offset) => range.end() <= offset,
        Keep::Outside(offset, end) => range.end() <= offset || range.offset >= end,
        Keep::Dirty => range.is_dirty(),
        Keep::DirtyOrOutside(offset, end) => range.is_dirty() || range.end() <= offset
            || range.offset >= end,
    }
}

fn check_stays(keep: Keep, range: &CachedRange) -> (kept: bool)
    requires
        range@.end() <= u64::MAX,
    ensures
        kept == stays(keep, range@),
{
    let end: u64 = range.offset + range.data.len() as u64;
    match keep {
        Keep::Nothing => false,
        Keep::Unsent(epoch, offset) => !(range.epoch == epoch && range.offset == offset
            && range.inflight),
        Keep::Before(offset) => end <= offset,
        Keep::Outside(offset, to) => end <= offset || range.offset >= to,
        Keep::Dirty => range.owner.is_some(),
        Keep::DirtyOrOutside(offset, to) => range.owner.is_some() || end <= offset || range.offset
            >= to,
    }
}

/// The ranges that stay.
pub open spec fn kept(ranges: Seq<RangeView>, keep: Keep) -> Seq<RangeView>
    decreases ranges.len(),
{
    if ranges.len() == 0 {
        Seq::empty()
    } else if stays(keep, ranges.last()) {
        kept(ranges.drop_last(), keep).push(ranges.last())
    } else {
        kept(ranges.drop_last(), keep)
    }
}

/// What stays is sound, costs no more, and is what it was.
pub proof fn kept_is_sound(ranges: Seq<RangeView>, keep: Keep)
    requires
        sound(ranges),
    ensures
        sound(kept(ranges, keep)),
        kept(ranges, keep).len() <= ranges.len(),
        ranges_cost(kept(ranges, keep)) <= ranges_cost(ranges),
        forall|k: int|
            0 <= k < kept(ranges, keep).len() ==> ranges.contains(#[trigger] kept(ranges, keep)[k])
                && stays(keep, kept(ranges, keep)[k]),
    decreases ranges.len(),
{
    if ranges.len() > 0 {
        let rest = ranges.drop_last();
        let last = ranges.last();
        fewer_are_sound(ranges);
        kept_is_sound(rest, keep);
        let left = kept(rest, keep);
        let all = kept(ranges, keep);
        assert forall|k: int| 0 <= k < all.len() implies ranges.contains(#[trigger] all[k]) && stays(
            keep,
            all[k],
        ) by {
            if k < left.len() {
                assert(all[k] == left[k]);
                let i = choose|i: int| 0 <= i < rest.len() && rest[i] == left[k];
                assert(ranges[i] == all[k]);
            } else {
                assert(ranges[ranges.len() - 1] == all[k]);
            }
        }
        if stays(keep, last) {
            assert(all.drop_last() =~= left);
            assert forall|a: int| 0 <= a < all.len() implies (#[trigger] all[a]).data.len() > 0
                && all[a].end() <= u64::MAX by {
                let i = choose|i: int| 0 <= i < ranges.len() && ranges[i] == all[a];
                assert(ranges[i].data.len() > 0);
            }
            assert forall|a: int, b: int| 0 <= a < b < all.len() implies !(#[trigger] all[a]).meets(
                all[b].offset as int,
                (#[trigger] all[b]).end(),
            ) by {
                assert(all[a] == left[a]);
                if b < left.len() {
                    assert(all[b] == left[b]);
                } else {
                    let i = choose|i: int| 0 <= i < rest.len() && rest[i] == left[a];
                    assert(ranges[i] == all[a]);
                    assert(ranges[ranges.len() - 1] == all[b]);
                }
            }
        }
    }
}

/// Drop the ranges that do not stay.
pub fn retain_ranges(ranges: &mut Vec<CachedRange>, keep: Keep)
    requires
        sound(range_views(old(ranges)@)),
    ensures
        range_views(final(ranges)@) == kept(range_views(old(ranges)@), keep),
{
    let mut rest: Vec<CachedRange> = Vec::new();
    std::mem::swap(ranges, &mut rest);
    let ghost all = range_views(rest@);
    let total: usize = rest.len();
    let mut done: usize = 0;
    assert(range_views(ranges@) =~= kept(all.take(0), keep));
    while rest.len() > 0
        invariant
            done + rest@.len() == total,
            total == all.len(),
            sound(all),
            all == range_views(old(ranges)@),
            range_views(rest@) == all.skip(done as int),
            range_views(ranges@) == kept(all.take(done as int), keep),
        decreases rest@.len(),
    {
        let ghost before = rest@;
        let range = rest.remove(0);
        assert(range_views(before)[0] == range@);
        assert(range@ == all[done as int]);
        assert(all.take(done as int + 1).drop_last() =~= all.take(done as int));
        assert(all.take(done as int + 1).last() == range@);
        if check_stays(keep, &range) {
            let ghost sofar = ranges@;
            ranges.push(range);
            assert(range_views(ranges@) =~= range_views(sofar).push(range@));
        }
        done = done + 1;
        assert(range_views(rest@) =~= all.skip(done as int)) by {
            assert forall|i: int| 0 <= i < rest@.len() implies #[trigger] range_views(rest@)[i]
                == all.skip(done as int)[i] by {
                assert(rest@[i] == before[i + 1]);
                assert(range_views(before)[i + 1] == all.skip(done as int - 1)[i + 1]);
            }
        }
    }
    assert(all.take(done as int) =~= all);
}

} // verus!
