//! Nodes, handles, mounts and the end of a connection, told by what is there and what is
//! not.

use vstd::prelude::*;
use crate::bytes::{u32_at, u64_at};
use crate::error::Error;
use crate::fuse::bodies::{create_body, mkdir_body, mknod_body, rename2_body, rename_body};
use crate::fuse::cache::dentry_found;
use crate::fuse::closing::close_outcome;
use crate::fuse::connection::{aborted, number_of, ConnectionView};
use crate::fuse::control::{control_values, control_written, count, limited, shown, ControlFile,
    ControlValues};
use crate::fuse::creation::{can_be_made, create_decision, created, creation, full_mode, installed,
    kept_name, knows_rename2, looked_up, lookup_answer, published, rename_asked, unlink_number,
    CreateCheck, CreateView};
use crate::fuse::directory::{aligned, handed_over, readdir_number, record_at, sends_entries};
use crate::fuse::errno::error_of;
use crate::fuse::file::{open_drops, open_keeps, write_end, write_plan, OpenFile, WritePlan};
use crate::fuse::ioctl::{attribute_result, names_too_much, plain_result, round_flags,
    IoctlReplyView};
use crate::fuse::layout::law_a_packet_has_its_header;
use crate::fuse::metadata::{deadline_at, entry_of, parsed, EntryOut, NodeType};
use crate::fuse::mounts::{connection_of, first_error, has_survivor, is_mounted, is_pending,
    of_living, remaining, removal_error, removing, unreserved, Mount, MountsView, Removal};
use crate::fuse::notice::NotificationView;
use crate::fuse::opening::release_number;
use crate::fuse::prepared::{attr_in, owned, stage_after, stage_from, PreparedAttributes,
    PreparedStage};
use crate::fuse::ranges::Lease;
use crate::fuse::request::{ReplyView, RequestView};
use crate::fuse::superblock::{applied, changed, decision, deleted, flushed_step, grown, has_handle,
    has_node, known_of, next, node_at, outdated, refreshed, removed, renamed_in, retired, subject,
    without, ApplyStep, Node, SuperblockView};
use crate::fuse::syncing::sync_outcome;
use crate::fuse::teardown::{has_part, is_resolved, joined, part_at, part_done, resolved, unmounted,
    withdrawn, TeardownView};
use crate::fuse::wire::{Caller, FuseInit};

verus! {

/// A count that goes on is one more, and begins anew behind the last.
pub proof fn law_a_count_goes_on(epoch: u64)
    ensures
        epoch < u64::MAX ==> next(epoch) == epoch + 1,
        next(u64::MAX) == 0,
        next(epoch) != epoch,
{
}

/// The reference to a node that is used is the first.
pub proof fn law_the_first_reference_is_used(nodes: Seq<Node>, nodeid: u64)
    ensures
        0 <= node_at(nodes, nodeid) <= nodes.len(),
        node_at(nodes, nodeid) < nodes.len() ==> nodes[node_at(nodes, nodeid)].nodeid == nodeid,
        forall|j: int| 0 <= j < node_at(nodes, nodeid) ==> (#[trigger] nodes[j]).nodeid != nodeid,
        has_node(nodes, nodeid) == (exists|i: int|
            0 <= i < nodes.len() && (#[trigger] nodes[i]).nodeid == nodeid),
    decreases nodes.len(),
{
    if nodes.len() > 0 && nodes[0].nodeid != nodeid {
        let rest = nodes.drop_first();
        law_the_first_reference_is_used(rest, nodeid);
        let at = node_at(nodes, nodeid);
        assert forall|j: int| 0 <= j < at implies (#[trigger] nodes[j]).nodeid != nodeid by {
            if j > 0 {
                assert(rest[j - 1] == nodes[j]);
            }
        }
        if at < nodes.len() {
            assert(rest[at - 1] == nodes[at]);
        }
    } else if nodes.len() > 0 {
        assert(nodes[0].nodeid == nodeid);
    }
}

/// A reference that is dropped is gone, and what is kept of its file goes with it unless
/// a handle of the file lives.
pub proof fn law_a_dropped_reference_is_gone(s: SuperblockView, at: int, i: int)
    requires
        0 <= at < s.nodes.len(),
        0 <= i < s.handles.len(),
        s.handles[i].nodeid == s.nodes[at].nodeid,
    ensures
        removed(s, at).cache == s.cache,
        removed(s, at).nodes.len() == s.nodes.len() - 1,
        forall|j: int| 0 <= j < at ==> removed(s, at).nodes[j] == s.nodes[j],
        forall|j: int| at <= j < s.nodes.len() - 1 ==> removed(s, at).nodes[j] == s.nodes[j + 1],
        removed(s, at).handles == s.handles,
{
    assert(has_handle(s.handles, s.nodes[at].nodeid));
}

/// With the last use of a file goes what is kept of it, if all of it is clean.
pub proof fn law_the_last_use_drops_what_is_kept(s: SuperblockView, at: int)
    requires
        0 <= at < s.nodes.len(),
        forall|i: int|
            0 <= i < s.handles.len() ==> (#[trigger] s.handles[i]).nodeid != s.nodes[at].nodeid,
        s.cache.inodes.contains_key(s.nodes[at].nodeid),
        forall|i: int|
            0 <= i < s.cache.ranges(s.nodes[at].nodeid).len() ==> (#[trigger] s.cache.ranges(
                s.nodes[at].nodeid,
            )[i]).owner is None,
    ensures
        !removed(s, at).cache.inodes.contains_key(s.nodes[at].nodeid),
{
    let nodeid = s.nodes[at].nodeid;
    let ranges = s.cache.ranges(nodeid);
    assert(!has_handle(s.handles, nodeid));
    assert(s.cache.inodes[nodeid].ranges == ranges);
    if crate::fuse::cache::any_dirty(ranges) {
        let i = choose|i: int| 0 <= i < ranges.len() && (#[trigger] ranges[i]).is_dirty();
        assert(ranges[i].owner is None);
    }
}

/// A node whose names changed is of the next generation; one of which nothing is known
/// for certain has to be asked about besides.  Nothing else of it changes.
pub proof fn law_a_change_begins_a_generation(node: Node)
    ensures
        renamed_in(node).namespace_epoch == next(node.namespace_epoch),
        renamed_in(node).metadata_valid == node.metadata_valid,
        renamed_in(node).metadata == node.metadata,
        renamed_in(node).nodeid == node.nodeid,
        renamed_in(node).token == node.token,
        renamed_in(node).attr_deadline == node.attr_deadline,
        renamed_in(node).entry_deadline == node.entry_deadline,
        outdated(node).namespace_epoch == next(node.namespace_epoch),
        !outdated(node).metadata_valid,
        outdated(node).metadata == node.metadata,
        outdated(node).nodeid == node.nodeid,
{
}

/// A deleted name concerns the directory and what the name stood for, and no other node.
pub proof fn law_a_deletion_concerns_two_nodes(
    nodes: Seq<Node>,
    parent: u64,
    child: u64,
    i: int,
)
    requires
        0 <= i < nodes.len(),
    ensures
        deleted(nodes, parent, child).len() == nodes.len(),
        nodes[i].nodeid == parent || nodes[i].nodeid == child ==> !deleted(
            nodes,
            parent,
            child,
        )[i].metadata_valid && deleted(nodes, parent, child)[i].namespace_epoch
            != nodes[i].namespace_epoch,
        nodes[i].nodeid != parent && nodes[i].nodeid != child ==> deleted(nodes, parent, child)[i]
            == nodes[i],
{
}

/// The handles that are left are all but the one that ended, in their order.
pub proof fn law_one_handle_ends(handles: Seq<Lease>, more: Seq<Lease>, lease: Lease, one: Lease)
    ensures
        without(handles, lease).contains(one) == (handles.contains(one) && one != lease),
        without(handles + more, lease) == without(handles, lease) + without(more, lease),
    decreases handles.len() + more.len(),
{
    if more.len() > 0 {
        law_one_handle_ends(handles, more.drop_last(), lease, one);
        assert((handles + more).drop_last() =~= handles + more.drop_last());
        assert(without(handles + more, lease) =~= without(handles, lease) + without(more, lease));
    } else {
        assert(handles + more =~= handles);
        assert(without(handles, lease) + without(more, lease) =~= without(handles, lease));
        if handles.len() > 0 {
            let rest = handles.drop_last();
            let last = handles.last();
            law_one_handle_ends(rest, more, lease, one);
            let left = without(rest, lease);
            let all = without(handles, lease);
            if rest.contains(one) {
                let i = rest.index_of(one);
                assert(handles[i] == one);
            }
            if last == one {
                assert(handles[handles.len() - 1] == one);
            }
            if handles.contains(one) && last != one {
                let i = handles.index_of(one);
                assert(rest[i] == one);
            }
            if last != lease {
                if left.contains(one) {
                    let i = left.index_of(one);
                    assert(all[i] == one);
                }
                if last == one {
                    assert(all[all.len() - 1] == one);
                }
                if all.contains(one) && last != one {
                    let i = all.index_of(one);
                    assert(left[i] == one);
                }
            }
        }
    }
}

/// A handle that ended is not among the handles, and what is kept of its file stays as
/// long as another handle of the file does.
pub proof fn law_a_retired_handle_is_gone(s: SuperblockView, lease: Lease, other: Lease)
    ensures
        !retired(s, lease).handles.contains(lease),
        other != lease && s.handles.contains(other) ==> retired(s, lease).handles.contains(other),
        other != lease && s.handles.contains(other) && other.nodeid == lease.nodeid ==> retired(
            s,
            lease,
        ).cache == s.cache,
        retired(s, lease).nodes == s.nodes,
{
    law_one_handle_ends(s.handles, Seq::empty(), lease, lease);
    law_one_handle_ends(s.handles, Seq::empty(), lease, other);
    let left = without(s.handles, lease);
    if left.contains(other) && other.nodeid == lease.nodeid {
        let i = left.index_of(other);
        assert(left[i].nodeid == lease.nodeid);
        assert(has_handle(left, lease.nodeid));
    }
}

/// A notice about contents is applied only when nothing dirty of its file is on its way:
/// until then it waits, and then what is dirty is sent.  One about a file that nobody
/// refers to is done with, and one about names never waits.
pub proof fn law_when_a_notice_waits(
    s: SuperblockView,
    nodeid: u64,
    offset: i64,
    length: i64,
    at: u64,
    data: Seq<u8>,
    name: Seq<u8>,
    child: u64,
    i: int,
    k: int,
)
    requires
        0 <= i < s.nodes.len(),
        s.nodes[i].nodeid == nodeid,
    ensures
        ({
            let ranges = s.cache.ranges(nodeid);
            let busy = 0 <= k < ranges.len() && ranges[k].inflight && ranges[k].owner is Some;
            let stale = decision(s, NotificationView::InvalidateInode { nodeid, offset, length });
            let store = decision(s, NotificationView::Store { nodeid, offset: at, data });
            &&& busy ==> stale == ApplyStep::Waiting && store == ApplyStep::Waiting
            &&& (forall|j: int|
                0 <= j < ranges.len() ==> !((#[trigger] ranges[j]).inflight && ranges[j].owner
                    is Some)) ==> stale == ApplyStep::Flush(nodeid) && store == ApplyStep::Flush(
                nodeid,
            )
        }),
        decision(s, NotificationView::InvalidateEntry { parent: nodeid, name })
            == ApplyStep::Applied,
        decision(s, NotificationView::Delete { parent: nodeid, child, name })
            == ApplyStep::Applied,
{
    law_the_first_reference_is_used(s.nodes, nodeid);
    assert(has_node(s.nodes, nodeid));
    let ranges = s.cache.ranges(nodeid);
    if 0 <= k < ranges.len() && ranges[k].inflight && ranges[k].owner is Some {
        assert(ranges[k].is_dirty());
        assert(crate::fuse::cache::dirty_inflight(ranges));
    }
    if crate::fuse::cache::dirty_inflight(ranges) {
        let j = choose|j: int|
            0 <= j < ranges.len() && (#[trigger] ranges[j]).inflight && ranges[j].is_dirty();
        assert(ranges[j].owner is Some);
    }
}

/// A notice about a node that nobody refers to and of which nothing is kept is done with.
pub proof fn law_a_notice_about_nobody_is_done(
    s: SuperblockView,
    nodeid: u64,
    offset: i64,
    length: i64,
    at: u64,
    data: Seq<u8>,
)
    requires
        forall|i: int| 0 <= i < s.nodes.len() ==> (#[trigger] s.nodes[i]).nodeid != nodeid,
    ensures
        decision(s, NotificationView::Store { nodeid, offset: at, data }) == ApplyStep::Applied,
        !s.cache.inodes.contains_key(nodeid) ==> decision(
            s,
            NotificationView::InvalidateInode { nodeid, offset, length },
        ) == ApplyStep::Applied,
{
    law_the_first_reference_is_used(s.nodes, nodeid);
}

/// After a notice about a name the name is not found in its directory.
pub proof fn law_a_stale_name_is_not_found(
    s: SuperblockView,
    parent: u64,
    child: u64,
    name: Seq<u8>,
    epoch: u64,
    now: u64,
)
    requires
        crate::fuse::keeping::told_apart(s.cache.dentries),
    ensures
        dentry_found(
            applied(s, NotificationView::InvalidateEntry { parent, name }).cache,
            parent,
            name,
            epoch,
            now,
        ) is None,
        dentry_found(
            applied(s, NotificationView::Delete { parent, child, name }).cache,
            parent,
            name,
            epoch,
            now,
        ) is None,
{
    crate::fuse::keeping::law_a_dropped_name_is_not_found(
        s.cache,
        parent,
        name,
        parent,
        name,
        epoch,
        now,
    );
}

/// A node that bytes were stored in is at least as long as they reach, and never shorter
/// than it was; it has to be asked about.
pub proof fn law_a_store_makes_no_file_shorter(node: Node, end: int)
    requires
        0 <= end,
    ensures
        grown(node, end).metadata.size >= node.metadata.size,
        end <= u64::MAX ==> grown(node, end).metadata.size >= end,
        end <= node.metadata.size ==> grown(node, end).metadata.size == node.metadata.size,
        node.metadata.size < end <= u64::MAX ==> grown(node, end).metadata.size == end,
        !grown(node, end).metadata_valid,
        grown(node, end).namespace_epoch == node.namespace_epoch,
{
}

/// A notice whose file could not be sent waits, unless what is dirty can no longer be sent
/// at all: then it is dropped.  Either way nothing changes.
pub proof fn law_an_unsent_file_holds_its_notice_up(
    s: SuperblockView,
    active: bool,
    notice: NotificationView,
    k: int,
)
    ensures
        flushed_step(s, active, notice, false).1 == s,
        ({
            let ranges = s.cache.ranges(subject(notice));
            &&& 0 <= k < ranges.len() && ranges[k].owner is Some && !s.handles.contains(
                ranges[k].owner->0,
            ) ==> flushed_step(s, active, notice, false).0 == ApplyStep::Applied
            &&& (forall|j: int|
                0 <= j < ranges.len() && (#[trigger] ranges[j]).owner is Some
                    ==> s.handles.contains(ranges[j].owner->0)) ==> flushed_step(
                s,
                active,
                notice,
                false,
            ).0 == ApplyStep::Waiting
        }),
{
    let ranges = s.cache.ranges(subject(notice));
    if 0 <= k < ranges.len() && ranges[k].owner is Some && !s.handles.contains(
        ranges[k].owner->0,
    ) {
        assert(crate::fuse::cache::dirty_of_dead(ranges, s.handles));
    }
}

/// A mount that cannot be removed: one that is being removed, or is in the list twice, is
/// busy; one that is not mounted is not found.
pub proof fn law_which_mounts_cannot_be_removed(m: MountsView, ids: Seq<u64>, i: int, j: int)
    requires
        0 <= i < ids.len(),
    ensures
        0 <= j < m.pending.len() && m.pending[j].mount == ids[i] ==> removal_error(m, ids, i)
            == Some(Error::ResourceBusy),
        0 <= j < ids.len() && j != i && ids[j] == ids[i] ==> removal_error(m, ids, i) == Some(
            Error::ResourceBusy,
        ),
        (forall|k: int| 0 <= k < m.mounts.len() ==> (#[trigger] m.mounts[k]).mount != ids[i])
            ==> removal_error(m, ids, i) is Some,
        removal_error(m, ids, i) is None ==> exists|k: int|
            0 <= k < m.mounts.len() && (#[trigger] m.mounts[k]).mount == ids[i],
        removal_error(m, ids, i) == Some(Error::NotFound) ==> !is_pending(m.pending, ids[i]),
        removal_error(m, ids, i) is Some ==> removal_error(m, ids, i) == Some(Error::NotFound)
            || removal_error(m, ids, i) == Some(Error::ResourceBusy),
{
    if 0 <= j < m.pending.len() && m.pending[j].mount == ids[i] {
        assert(is_pending(m.pending, ids[i]));
    }
}

/// A list is removed only as a whole: it fails with its first mount that cannot be.
pub proof fn law_the_first_failure_is_told(m: MountsView, ids: Seq<u64>, from: int, i: int)
    requires
        0 <= from <= i < ids.len(),
    ensures
        first_error(m, ids, from) is None ==> removal_error(m, ids, i) is None,
        removal_error(m, ids, i) is Some && (forall|j: int|
            from <= j < i ==> #[trigger] removal_error(m, ids, j) is None) ==> first_error(
            m,
            ids,
            from,
        ) == removal_error(m, ids, i),
    decreases ids.len() - from,
{
    if from < i && removal_error(m, ids, from) is None {
        law_the_first_failure_is_told(m, ids, from + 1, i);
    }
}

/// The connection of a mount is that of its first entry.
pub proof fn law_a_mount_has_its_connection(mounts: Seq<Mount>, i: int)
    requires
        0 <= i < mounts.len(),
        forall|j: int| 0 <= j < i ==> (#[trigger] mounts[j]).mount != mounts[i].mount,
    ensures
        connection_of(mounts, mounts[i].mount) == mounts[i].connection,
        is_mounted(mounts, mounts[i].mount),
    decreases mounts.len(),
{
    assert(mounts[i].mount == mounts[i].mount);
    if i > 0 {
        let rest = mounts.drop_first();
        assert(rest[i - 1] == mounts[i]);
        assert forall|j: int| 0 <= j < i - 1 implies (#[trigger] rest[j]).mount
            != rest[i - 1].mount by {
            assert(rest[j] == mounts[j + 1]);
        }
        assert(mounts[0].mount != mounts[i].mount);
        law_a_mount_has_its_connection(rest, i - 1);
    }
}

/// A mount that is neither in the list nor being removed keeps its connection.
pub proof fn law_a_mount_that_stays_keeps_its_connection(
    m: MountsView,
    receipt: u64,
    ids: Seq<u64>,
    i: int,
)
    requires
        0 <= i < m.mounts.len(),
        !ids.contains(m.mounts[i].mount),
        forall|j: int|
            0 <= j < m.pending.len() ==> (#[trigger] m.pending[j]).mount != m.mounts[i].mount,
    ensures
        has_survivor(
            m.mounts,
            removing(m.pending, receipt, ids),
            ids,
            m.mounts[i].connection,
        ),
{
    let all = removing(m.pending, receipt, ids);
    if is_pending(all, m.mounts[i].mount) {
        let j = choose|j: int|
            0 <= j < all.len() && (#[trigger] all[j]).mount == m.mounts[i].mount;
        if j < m.pending.len() {
            assert(all[j] == m.pending[j]);
        } else {
            assert(all[j].mount == ids[j - m.pending.len()]);
        }
    }
    assert(m.mounts[i].connection == m.mounts[i].connection);
}

/// A mount of a connection survives only if it is in no list and not being removed.
pub proof fn law_a_survivor_is_nowhere_removed(
    mounts: Seq<Mount>,
    pending: Seq<Removal>,
    ids: Seq<u64>,
    connection: u64,
)
    requires
        forall|i: int|
            0 <= i < mounts.len() && (#[trigger] mounts[i]).connection == connection
                ==> ids.contains(mounts[i].mount) || is_pending(pending, mounts[i].mount),
    ensures
        !has_survivor(mounts, pending, ids, connection),
{
}

/// What is left of the mounts, of the removals, and of the mounts of a connection that
/// died: all but those that are named, in their order.
pub proof fn law_what_is_left(
    mounts: Seq<Mount>,
    pending: Seq<Removal>,
    ids: Seq<u64>,
    receipt: u64,
    connection: u64,
    mount: Mount,
    removal: Removal,
)
    ensures
        remaining(mounts.push(mount), ids) == (if ids.contains(mount.mount) {
            remaining(mounts, ids)
        } else {
            remaining(mounts, ids).push(mount)
        }),
        remaining(Seq::empty(), ids) == Seq::<Mount>::empty(),
        unreserved(pending.push(removal), receipt) == (if removal.receipt == receipt {
            unreserved(pending, receipt)
        } else {
            unreserved(pending, receipt).push(removal)
        }),
        unreserved(Seq::empty(), receipt) == Seq::<Removal>::empty(),
        of_living(mounts.push(mount), connection) == (if mount.connection == connection {
            of_living(mounts, connection)
        } else {
            of_living(mounts, connection).push(mount)
        }),
        of_living(Seq::empty(), connection) == Seq::<Mount>::empty(),
{
    assert(mounts.push(mount).drop_last() =~= mounts);
    assert(pending.push(removal).drop_last() =~= pending);
}

/// To prepare a removal and to give it up leaves the removals as they were.
pub proof fn law_a_removal_is_undone(pending: Seq<Removal>, receipt: u64, ids: Seq<u64>)
    requires
        forall|i: int| 0 <= i < pending.len() ==> (#[trigger] pending[i]).receipt != receipt,
    ensures
        unreserved(removing(pending, receipt, ids), receipt) == pending,
    decreases ids.len() + pending.len(),
{
    let all = removing(pending, receipt, ids);
    if ids.len() > 0 {
        law_a_removal_is_undone(pending, receipt, ids.drop_last());
        assert(all.drop_last() =~= removing(pending, receipt, ids.drop_last()));
        assert(all.last().receipt == receipt);
    } else {
        assert(all =~= pending);
        if pending.len() > 0 {
            let rest = pending.drop_last();
            assert forall|i: int| 0 <= i < rest.len() implies (#[trigger] rest[i]).receipt
                != receipt by {
                assert(rest[i] == pending[i]);
            }
            law_a_removal_is_undone(rest, receipt, ids);
            assert(removing(rest, receipt, ids) =~= rest);
            assert(pending[pending.len() - 1].receipt != receipt);
            assert(rest.push(pending.last()) =~= pending);
        }
    }
}

proof fn part_is_first(participants: Seq<(u64, bool)>, participant: u64)
    ensures
        0 <= part_at(participants, participant) <= participants.len(),
        part_at(participants, participant) < participants.len() ==> participants[part_at(
            participants,
            participant,
        )].0 == participant,
        forall|j: int|
            0 <= j < part_at(participants, participant) ==> (#[trigger] participants[j]).0
                != participant,
    decreases participants.len(),
{
    if participants.len() > 0 && participants[0].0 != participant {
        let rest = participants.drop_first();
        part_is_first(rest, participant);
        let at = part_at(participants, participant);
        assert forall|j: int| 0 <= j < at implies (#[trigger] participants[j]).0
            != participant by {
            if j > 0 {
                assert(rest[j - 1] == participants[j]);
            }
        }
        if at < participants.len() {
            assert(rest[at - 1] == participants[at]);
        }
    }
}

/// A part that is done is done, and no other part is.
pub proof fn law_a_part_is_done_by_its_owner(t: TeardownView, participant: u64, i: int)
    requires
        0 <= i < t.participants.len(),
        forall|a: int, b: int|
            0 <= a < b < t.participants.len() ==> (#[trigger] t.participants[a]).0 != (
            #[trigger] t.participants[b]).0,
    ensures
        part_done(t, participant).participants.len() == t.participants.len(),
        part_done(t, participant).participants[i] == (
            t.participants[i].0,
            t.participants[i].1 || t.participants[i].0 == participant,
        ),
        has_part(t, t.participants[i].0),
        part_done(t, participant).packet == t.packet,
        part_done(t, participant).prepared == t.prepared,
{
    part_is_first(t.participants, participant);
    part_is_first(t.participants, t.participants[i].0);
    let at = part_at(t.participants, t.participants[i].0);
    if at < i {
        assert(t.participants[at].0 != t.participants[i].0);
    }
    assert(at <= i) by {
        if at > i {
            assert(t.participants[i].0 != t.participants[i].0);
        }
    }
}

/// The last packet goes when everyone who has a part is done, the file system is gone
/// where one of them left early, and no mount is left: never before.
pub proof fn law_when_the_last_packet_goes(t: TeardownView, survivor: bool, i: int)
    ensures
        survivor ==> resolved(t, survivor) == t,
        t.prepared is None ==> resolved(t, survivor) == t,
        t.participants.len() == 0 ==> resolved(t, survivor) == t,
        0 <= i < t.participants.len() && !t.participants[i].1 ==> resolved(t, survivor) == t,
        t.lazy_participant is Some && !t.final_unmount_seen ==> resolved(t, survivor) == t,
        is_resolved(t) && !survivor ==> {
            &&& resolved(t, survivor).packet == Some((t.prepared->0).1)
            &&& resolved(t, survivor).queued
            &&& resolved(t, survivor).prepared is None
            &&& resolved(t, survivor).lazy_participant is None
            &&& resolved(t, survivor).participants == t.participants
        },
{
}

/// Who takes part in the end of a connection has a part that is not done, and the last
/// packet that is prepared is the first that was made: for the root, and without a body.
pub proof fn law_who_joins_has_a_part(
    v: ConnectionView,
    participant: u64,
    ticket: u64,
    caller: Caller,
)
    requires
        !v.dead,
        !v.teardown.queued,
    ensures
        ({
            let (part, then) = joined(v, participant, ticket, caller);
            &&& part == Some(participant)
            &&& then.teardown.participants == v.teardown.participants.push((participant, false))
            &&& v.teardown.prepared is Some ==> then.teardown.prepared == v.teardown.prepared
            &&& v.teardown.prepared is None ==> {
                let request = (then.teardown.prepared->0).1;
                &&& (then.teardown.prepared->0).0 == ticket
                &&& request.bytes.len() == 40
                &&& u32_at(request.bytes, 4) == 38
                &&& u64_at(request.bytes, 8) == number_of(v.next_unique)
                &&& u64_at(request.bytes, 16) == 1
                &&& !request.expects_reply
            }
        }),
        joined(ConnectionView { dead: true, ..v }, participant, ticket, caller).0 is None,
{
    law_a_packet_has_its_header(number_of(v.next_unique), 38, 1, Seq::empty(), caller);
}

/// Who withdraws takes the prepared end along: the connection goes on, or is cut where its
/// file system is gone already.
pub proof fn law_who_withdraws_stops_the_end(v: ConnectionView, i: int)
    requires
        0 <= i < v.teardown.participants.len(),
        !v.dead,
    ensures
        ({
            let then = withdrawn(v, v.teardown.participants[i].0);
            &&& then.teardown.prepared is None
            &&& then.teardown.participants.len() == 0
            &&& then.teardown.lazy_participant is None
            &&& then.dead == (v.teardown.prepared is Some && v.teardown.final_unmount_seen)
        }),
{
    part_is_first(v.teardown.participants, v.teardown.participants[i].0);
    let at = part_at(v.teardown.participants, v.teardown.participants[i].0);
    if at > i {
        assert(v.teardown.participants[i].0 != v.teardown.participants[i].0);
    }
}

/// After the file system is gone this is known, and without someone who left early nothing
/// else changes.
pub proof fn law_an_unmount_is_seen(v: ConnectionView, survivor: bool)
    ensures
        unmounted(v, survivor).1.teardown.final_unmount_seen,
        unmounted(v, survivor).1.dead == v.dead,
        unmounted(v, survivor).1.requests == v.requests,
        v.teardown.lazy_participant is None ==> unmounted(v, survivor).0 == (
        v.teardown.prepared is Some || v.teardown.queued),
        v.teardown.lazy_participant is Some ==> unmounted(v, survivor).0,
        v.teardown.lazy_participant is None ==> unmounted(v, survivor).1.teardown.packet
            == v.teardown.packet,
{
}

/// Requests are counted one by one.
pub proof fn law_requests_are_counted_one_by_one(
    requests: Seq<RequestView>,
    one: RequestView,
    p: spec_fn(RequestView) -> bool,
)
    ensures
        count(Seq::empty(), p) == 0,
        count(requests.push(one), p) == count(requests, p) + (if p(one) {
            1nat
        } else {
            0nat
        }),
{
    assert(requests.push(one).drop_last() =~= requests);
}

/// What a request adds to the numbers that are shown: one that waits in the queue is
/// queued, one that the daemon has is active, and both are waited for if a reply is owed.
pub proof fn law_a_request_is_shown_where_it_is(v: ConnectionView, one: RequestView)
    requires
        v.requests.len() < 4096,
    ensures
        ({
            let before = control_values(v);
            let then = control_values(
                ConnectionView { requests: v.requests.push(one), ..v },
            );
            let queued = one.state == crate::fuse::request::RequestState::Queued;
            let active = one.state == crate::fuse::request::RequestState::Delivered;
            &&& then.queued == before.queued + (if queued && one.expects_reply {
                1int
            } else {
                0
            })
            &&& then.active == before.active + (if active {
                1int
            } else {
                0
            })
            &&& then.waiting == before.waiting + (if (queued || active) && one.expects_reply {
                1int
            } else {
                0
            })
            &&& then.connected == !v.dead
            &&& then.max_background == before.max_background
            &&& then.congested == (before.congestion_threshold != 0 && then.active
                >= before.congestion_threshold)
        }),
{
    use_counts(v.requests, one, crate::fuse::control::is_queued());
    use_counts(v.requests, one, crate::fuse::control::is_active());
    use_counts(v.requests, one, crate::fuse::control::is_waiting());
}

proof fn use_counts(
    requests: Seq<RequestView>,
    one: RequestView,
    p: spec_fn(RequestView) -> bool,
)
    ensures
        count(requests.push(one), p) == count(requests, p) + (if p(one) {
            1nat
        } else {
            0nat
        }),
        count(requests, p) <= requests.len(),
{
    law_requests_are_counted_one_by_one(requests, one, p);
    crate::fuse::control::count_is_bounded(requests, p);
}

/// Each file shows its number.  A connection is either connected or cut.
pub proof fn law_each_control_file_shows_its_number(values: ControlValues)
    ensures
        shown(ControlFile::Abort, values) + shown(ControlFile::Connected, values) == 1,
        (shown(ControlFile::Connected, values) == 1) == values.connected,
        shown(ControlFile::Waiting, values) == values.waiting,
        shown(ControlFile::Queued, values) == values.queued,
        shown(ControlFile::Active, values) == values.active,
        shown(ControlFile::Congested, values) <= 1,
        (shown(ControlFile::Congested, values) == 1) == values.congested,
        shown(ControlFile::MaxBackground, values) == values.max_background,
        shown(ControlFile::CongestionThreshold, values) == values.congestion_threshold,
{
}

/// A limit can be set once the daemon and the kernel agreed; the threshold not over the
/// other.  To write to the file that cuts does so whatever is written.
pub proof fn law_when_a_limit_can_be_set(v: ConnectionView, value: u16, data: Seq<u8>)
    ensures
        v.init is None ==> limited(v, true, value) == (Err::<(), Error>(Error::InvalidInput), v)
            && limited(v, false, value) == (Err::<(), Error>(Error::InvalidInput), v),
        v.init is Some ==> limited(v, true, value).0 is Ok,
        v.init is Some ==> (limited(v, false, value).0 is Ok) == (value
            <= v.init->0.max_background),
        control_written(v, ControlFile::Abort, data).0 is Ok,
        control_written(v, ControlFile::Abort, data).1.dead,
        control_written(v, ControlFile::Abort, data).1 == aborted(v),
{
}

/// A file may be written by that name only if it changes something.
pub proof fn law_three_control_files_are_written(file: ControlFile)
    ensures
        file.writable() == (file.index() == 0 || file.index() == 6 || file.index() == 7),
        0 <= file.index() < 8,
{
}

/// A mode has its type above its permissions.
pub proof fn law_a_mode_has_type_and_permissions(kind: NodeType, permission: u16)
    requires
        permission < 0x1000,
    ensures
        full_mode(kind, permission) == kind.code() * 0x1000 + permission,
{
    let code = kind.code();
    let low = permission as u32;
    assert((code << 12) | low == code * 0x1000 + low) by (bit_vector)
        requires
            code < 16,
            low < 0x1000,
    ;
}

/// What kind of request makes what: a directory, a file, or anything else with its device.
pub proof fn law_each_kind_has_its_request(
    kind: NodeType,
    permission: u16,
    rdev: u64,
    name: Seq<u8>,
)
    requires
        rdev <= u32::MAX,
    ensures
        ({
            let (opcode, body) = creation(kind, permission, rdev, name);
            let mode = full_mode(kind, permission);
            &&& kind is Directory ==> opcode == 9 && body == mkdir_body(mode, name)
            &&& kind is RegularFile ==> opcode == 35 && body == create_body(mode, name)
            &&& !(kind is Directory) && !(kind is RegularFile) ==> opcode == 8 && body
                == mknod_body(mode, rdev as u32, name)
        }),
{
}

/// What was made is installed with the handle that the daemon named behind the entry; an
/// answer that is too short for a handle ends the connection, one that is otherwise no
/// answer has the handle given back.
pub proof fn law_an_answer_to_a_creation_is_read(
    s: SuperblockView,
    v: ConnectionView,
    at: int,
    name: Seq<u8>,
    open_or_create: bool,
    packet: RequestView,
    data: Seq<u8>,
    now: u64,
)
    requires
        !v.dead,
        v.teardown.packet is None,
    ensures
        ({
            let reply = Ok::<ReplyView, Error>(ReplyView::Data(data));
            let file = created(s, v, at, name, true, open_or_create, packet, reply, now);
            let other = created(s, v, at, name, false, open_or_create, packet, reply, now);
            &&& data.len() < 136 ==> file.0 == CreateView::Failed(Error::Io)
                && file.2.teardown.packet == Some(packet)
            &&& 136 <= data.len() < 144 ==> file.0 == (CreateView::ReleaseAndFail {
                fh: u64_at(data, 128),
                error: Error::Io,
                teardown: packet,
            })
            &&& data.len() >= 144 && entry_of(data, now) is Ok ==> file.0
                == (CreateView::Install {
                entry: entry_of(data, now)->Ok_0,
                fh: Some(u64_at(data, 128)),
                teardown: packet,
            }) && file.1 == s && file.2 == v
            &&& entry_of(data, now) is Ok ==> other.0 == (CreateView::Install {
                entry: entry_of(data, now)->Ok_0,
                fh: None,
                teardown: packet,
            })
            &&& entry_of(data, now) is Err ==> other.0 == CreateView::Failed(Error::Io)
        }),
{
}

/// A name that is there already is looked up where that is allowed, and is else a failure.
pub proof fn law_a_name_that_is_there_is_looked_up(
    s: SuperblockView,
    v: ConnectionView,
    at: int,
    name: Seq<u8>,
    regular: bool,
    packet: RequestView,
    now: u64,
)
    ensures
        created(s, v, at, name, regular, true, packet, Ok(ReplyView::Error(17)), now).0
            == CreateView::Lookup,
        created(s, v, at, name, regular, false, packet, Ok(ReplyView::Error(17)), now).0
            == CreateView::Failed(Error::AlreadyExists),
        created(s, v, at, name, regular, true, packet, Ok(ReplyView::Cancelled), now).0
            == CreateView::Failed(Error::NoSuchDevice),
{
}

/// The kernel's own part of a creation that failed gives the handle back, and one that
/// succeeded does too: the handle is not kept.
pub proof fn law_the_handle_of_a_creation_is_given_back(
    s: SuperblockView,
    v: ConnectionView,
    at: int,
    name: Seq<u8>,
    fh: u64,
    packet: RequestView,
    error: Error,
)
    ensures
        installed(s, v, at, name, Some(fh), packet, Err(error)).0 == (CreateView::ReleaseAndFail {
            fh,
            error,
            teardown: packet,
        }),
        installed(s, v, at, name, Some(fh), packet, Ok(())).0 == (CreateView::ReleaseAndCommit {
            fh,
            teardown: packet,
        }),
        installed(s, v, at, name, None, packet, Err(error)).0 == CreateView::Failed(error),
        installed(s, v, at, name, None, packet, Ok(())).0 == CreateView::Created,
{
}

/// A name that is made, moved or taken away begins a generation of its directory, so that
/// what was kept of the old one is not found.
pub proof fn law_a_changed_directory_is_of_a_new_generation(
    s: SuperblockView,
    at: int,
    name: Seq<u8>,
    i: int,
)
    requires
        0 <= at < s.nodes.len(),
        0 <= i < s.nodes.len(),
    ensures
        published(s, at, name).nodes[at].namespace_epoch == next(s.nodes[at].namespace_epoch),
        i != at ==> published(s, at, name).nodes[i] == s.nodes[i],
        published(s, at, name).handles == s.handles,
{
}

/// What a lookup found is a new reference, with what the daemon said of it and for as long
/// as it said.
pub proof fn law_a_lookup_adds_a_reference(
    s: SuperblockView,
    v: ConnectionView,
    at: int,
    name: Seq<u8>,
    epoch: u64,
    entry: EntryOut,
)
    ensures
        ({
            let then = looked_up(s, v, at, name, epoch, entry).0;
            let new = then.nodes.last();
            &&& then.nodes.drop_last() == s.nodes
            &&& new.nodeid == entry.nodeid
            &&& new.token == number_of(s.next_token)
            &&& new.metadata == entry.metadata
            &&& new.metadata_valid
            &&& new.attr_deadline == entry.attr_deadline
            &&& new.entry_deadline == entry.entry_deadline
            &&& new.namespace_epoch == 1
            &&& then.handles == s.handles
        }),
        ({
            let then = looked_up(s, v, at, name, epoch, entry).0;
            s.nodes[at].namespace_epoch != epoch ==> then.cache == s.cache
        }),
{
    let then = looked_up(s, v, at, name, epoch, entry).0;
    assert(then.nodes.drop_last() =~= s.nodes);
}

/// A name that is kept stands for a reference only as long as the reference is there.
pub proof fn law_a_kept_name_has_its_reference(
    s: SuperblockView,
    at: int,
    name: Seq<u8>,
    now: u64,
)
    ensures
        kept_name(s, at, name, now) is Some ==> exists|i: int|
            0 <= i < s.nodes.len() && (#[trigger] s.nodes[i]).token == kept_name(
                s,
                at,
                name,
                now,
            )->0,
        kept_name(s, at, name, now) is Some ==> kept_name(s, at, name, now) == dentry_found(
            s.cache,
            s.nodes[at].nodeid,
            name,
            s.nodes[at].namespace_epoch,
            now,
        ),
{
}

/// Below a node whose entry is no longer held nothing is found; a broken answer is one
/// all the same.
pub proof fn law_nothing_is_below_a_lost_node(reply: Seq<u8>, now: u64)
    ensures
        lookup_answer(reply, now, true) == entry_of(reply, now),
        lookup_answer(reply, now, false) is Err,
        entry_of(reply, now) is Ok ==> lookup_answer(reply, now, false) == Err::<EntryOut, Error>(
            Error::NotFound,
        ),
{
}

/// The newer form of moving names is known from a version on.
pub proof fn law_the_newer_move_is_known_from_a_version_on(a: FuseInit, b: FuseInit)
    ensures
        knows_rename2(Some(a)) && a.minor <= b.minor ==> knows_rename2(Some(b)),
        a.minor == 23 ==> knows_rename2(Some(a)),
        a.minor == 22 ==> !knows_rename2(Some(a)),
        !knows_rename2(None),
{
}

/// The stages of a new file come in their order, and each only if it is asked for.
pub proof fn law_stages_come_in_order(options: PreparedAttributes)
    ensures
        ({
            let project = options.project_id is Some || options.project_inherit;
            &&& stage_from(options, 0) is Owner == (options.owner is Some)
            &&& stage_from(options, 1) is ReadAttr == project
            &&& stage_from(options, 2) is AccessAcl == (options.access_acl is Some)
            &&& stage_from(options, 3) is DefaultAcl == (options.default_acl is Some)
            &&& options.owner is None ==> stage_from(options, 0) == stage_from(options, 1)
            &&& !project ==> stage_from(options, 1) == stage_from(options, 2)
            &&& options.access_acl is None ==> stage_from(options, 2) == stage_from(options, 3)
            &&& options.default_acl is None ==> stage_from(options, 3)
                == PreparedStage::Finished(None)
        }),
{
}

/// What a stage leads to: the next that is asked for, or a failure as the last.
pub proof fn law_a_stage_leads_to_the_next(
    options: PreparedAttributes,
    stage: PreparedStage,
    reply: Seq<u8>,
    error: Error,
)
    ensures
        stage is Owner && parsed(reply, 16) is Ok ==> stage_after(options, stage, Ok(reply))
            == stage_from(options, 1),
        stage is WriteAttr ==> stage_after(options, stage, Ok(reply)) == stage_from(options, 2),
        stage is AccessAcl ==> stage_after(options, stage, Ok(reply)) == stage_from(options, 3),
        stage is DefaultAcl ==> stage_after(options, stage, Ok(reply)) == PreparedStage::Finished(
            None,
        ),
        stage is ReadAttr && reply.len() < 20 ==> stage_after(options, stage, Ok(reply))
            == PreparedStage::Finished(Some(Error::Io)),
        !(stage is Begin) && !(stage is Finished) ==> stage_after(options, stage, Err(error))
            == PreparedStage::Finished(Some(error)),
        attr_in(reply).xflags == u32_at(reply, 0),
        attr_in(reply).extsize == u32_at(reply, 4),
        attr_in(reply).nextents == u32_at(reply, 8),
        attr_in(reply).project_id == u32_at(reply, 12),
        attr_in(reply).cowextsize == u32_at(reply, 16),
{
}

/// A new owner comes with what the file now is; nothing else changes what is known.
pub proof fn law_a_new_owner_is_known(
    s: SuperblockView,
    at: int,
    stage: PreparedStage,
    reply: Seq<u8>,
    error: Error,
)
    requires
        0 <= at < s.nodes.len(),
    ensures
        stage is Owner && parsed(reply, 16) is Ok ==> owned(s, at, stage, Ok(reply)).nodes[at].metadata
            == parsed(reply, 16)->Ok_0 && owned(s, at, stage, Ok(reply)).nodes[at].metadata_valid,
        !(stage is Owner) ==> owned(s, at, stage, Ok(reply)) == s,
        owned(s, at, stage, Err(error)) == s,
{
}

/// The first write that failed is told, a lost request before it, and the daemon's word
/// after it.
pub proof fn law_the_gravest_failure_is_told(
    cached: Option<Error>,
    transport: Result<(), Error>,
    answer: Result<(), Error>,
    lost: Error,
    failed: Error,
)
    ensures
        sync_outcome(cached, Err(lost), answer) == Err::<(), Error>(lost),
        sync_outcome(Some(failed), Ok(()), answer) == Err::<(), Error>(failed),
        sync_outcome(None, Ok(()), answer) == answer,
        sync_outcome(cached, transport, answer) is Ok ==> cached is None && transport is Ok
            && answer is Ok,
{
}

/// The first failure is that of the first part that failed.
pub proof fn law_the_first_flush_that_failed_is_told(
    flushed: Seq<Result<(), Error>>,
    from: nat,
    i: int,
)
    requires
        from <= i < flushed.len(),
    ensures
        crate::fuse::syncing::first_error(flushed, from) is None ==> flushed[i] is Ok,
        flushed[i] is Err && (forall|j: int| from <= j < i ==> (#[trigger] flushed[j]) is Ok)
            ==> crate::fuse::syncing::first_error(flushed, from) == Some(flushed[i]->Err_0),
    decreases flushed.len() - from,
{
    if from < i && flushed[from as int] is Ok {
        law_the_first_flush_that_failed_is_told(flushed, from + 1, i);
    }
}

/// How a write goes: not at all through a handle that cannot write or to a dead daemon,
/// past the cache where the file has none, and else kept or sent as was agreed.
pub proof fn law_how_a_write_goes(v: ConnectionView, file: OpenFile)
    ensures
        (write_plan(v, file) is Failed) == (!file.write || v.dead),
        !file.write ==> write_plan(v, file) == WritePlan::Failed(Error::BadFileDescriptor),
        file.write && v.dead ==> write_plan(v, file) == WritePlan::Failed(Error::NoSuchDevice),
        (write_plan(v, file) is Direct) == (file.write && !v.dead && !file.cache),
        v.init is None ==> !(write_plan(v, file) is Keep),
        v.init is Some && file.write && !v.dead && file.cache ==> (write_plan(v, file) is Keep)
            == (v.init->0.flags & 0x1_0000 != 0),
{
}

/// A write ends where its bytes do, or where the last file does.
pub proof fn law_a_write_ends_with_its_bytes(offset: u64, len: nat)
    ensures
        write_end(offset, len) <= offset + len,
        write_end(offset, len) == offset + len || write_end(offset, len) == u64::MAX,
        write_end(offset, len) >= offset,
{
}

/// A change of a node is of its first reference alone.
pub proof fn law_a_change_is_of_one_reference(
    nodes: Seq<Node>,
    nodeid: u64,
    node: Node,
    i: int,
)
    requires
        has_node(nodes, nodeid),
        0 <= i < nodes.len(),
        i != node_at(nodes, nodeid),
    ensures
        changed(nodes, nodeid, node)[i] == nodes[i],
        changed(nodes, nodeid, node)[node_at(nodes, nodeid)] == node,
        changed(nodes, nodeid, node).len() == nodes.len(),
{
    law_the_first_reference_is_used(nodes, nodeid);
}

/// The answer to an attribute request is its bytes, if there are as many as were asked for and the
/// daemon neither failed nor asks for more.
pub proof fn law_an_attribute_answer_is_whole(reply: IoctlReplyView, output: nat)
    ensures
        (attribute_result(reply, output) is Ok) == (reply.flags & 4 == 0 && reply.result >= 0
            && reply.data.len() == output),
        attribute_result(reply, output) is Ok ==> attribute_result(reply, output)->Ok_0
            == reply.data,
        reply.flags & 4 == 0 && i32::MIN < reply.result < 0 ==> attribute_result(reply, output)
            == Err::<Seq<u8>, Error>(error_of((0 - reply.result) as i32)),
        reply.flags & 4 != 0 || (reply.result >= 0 && reply.data.len() != output)
            ==> attribute_result(reply, output) == Err::<Seq<u8>, Error>(Error::Io),
{
}

/// A daemon may name so many stretches, each in sixteen bytes, and no byte more.  After the first
/// round the request says that it is one of several.
pub proof fn law_what_a_daemon_may_name(reply: IoctlReplyView, round: usize)
    ensures
        names_too_much(reply) == !(reply.in_iovs + reply.out_iovs <= 256 && reply.data.len() == 16
            * (reply.in_iovs + reply.out_iovs)),
        round_flags(0) == 2,
        round > 0 ==> round_flags(round) == 2u32 | 4u32,
{
}

/// A reader is handed the record at the place that it asked for, then those behind it, one after
/// the other, and one more than it takes; a broken one ends them and is blamed.
pub proof fn law_records_are_handed_over_in_order(
    reply: Seq<u8>,
    pos: int,
    plus: bool,
    held: bool,
    limit: nat,
)
    ensures
        ({
            let (records, error) = handed_over(reply, pos, plus, held, limit);
            let one = record_at(reply, pos, plus, held);
            &&& records.len() <= limit + 1
            &&& pos >= reply.len() ==> records.len() == 0 && error is None
            &&& pos < reply.len() && one is Err ==> records.len() == 0 && error == Some(
                one->Err_0,
            )
            &&& pos < reply.len() && one is Ok ==> records.len() > 0 && records[0] == one->Ok_0
            &&& pos < reply.len() && one is Ok && limit > 0 ==> records.drop_first()
                == handed_over(reply, one->Ok_0.end, plus, held, (limit - 1) as nat).0
        }),
    decreases limit,
{
    let (records, error) = handed_over(reply, pos, plus, held, limit);
    let one = record_at(reply, pos, plus, held);
    if pos < reply.len() && one is Ok && limit > 0 {
        law_records_are_handed_over_in_order(
            reply,
            one->Ok_0.end,
            plus,
            held,
            (limit - 1) as nat,
        );
        assert(records.drop_first() =~= handed_over(
            reply,
            one->Ok_0.end,
            plus,
            held,
            (limit - 1) as nat,
        ).0);
    }
}

/// Records start at places that eight divides: the first that is not before the end of the one in
/// front.
pub proof fn law_records_start_at_eights(end: int)
    requires
        0 <= end,
    ensures
        aligned(end) % 8 == 0,
        end <= aligned(end) < end + 8,
{
}

/// A daemon sends entries with names from a version on, if that was agreed.
pub proof fn law_entries_come_with_names_if_agreed(init: FuseInit)
    ensures
        sends_entries(Some(init)) == (init.minor >= 21 && init.flags & 0x2000 != 0),
        !sends_entries(None),
{
}

/// A reader gets as many records as it takes, or the reason why the reply was refused.
pub proof fn law_a_reader_gets_what_it_takes(handed: nat, limit: nat, error: Error)
    ensures
        crate::fuse::directory::taken(handed, limit, Some(error)) == Err::<nat, Error>(error),
        handed <= limit ==> crate::fuse::directory::taken(handed, limit, None) == Ok::<nat, Error>(
            handed,
        ),
        handed > limit ==> crate::fuse::directory::taken(handed, limit, None) == Ok::<nat, Error>(
            limit,
        ),
{
}

/// A plain answer is given with its result, which is not negative, if there are as many bytes as
/// were asked for and the daemon does not ask for more.
pub proof fn law_a_plain_answer_is_given_with_its_result(reply: IoctlReplyView, output: nat)
    ensures
        (plain_result(reply, output) is Ok) == (reply.flags & 4 == 0 && reply.result >= 0
            && reply.data.len() == output),
        plain_result(reply, output) is Ok ==> (plain_result(reply, output)->Ok_0).0 == reply.result
            && (plain_result(reply, output)->Ok_0).1 == reply.data,
        reply.flags & 4 == 0 && reply.data.len() == output && i32::MIN < reply.result < 0
            ==> plain_result(reply, output) == Err::<(u32, Seq<u8>), Error>(
            error_of((0 - reply.result) as i32),
        ),
        reply.flags & 4 != 0 || reply.data.len() != output ==> plain_result(reply, output) == Err::<
            (u32, Seq<u8>),
            Error,
        >(Error::Io),
{
}

/// A name is made where the lookup found none, taken where it found one, and neither where the
/// lookup failed otherwise.
pub proof fn law_a_name_is_made_where_none_is(error: Error)
    ensures
        create_decision(Ok(())) == CreateCheck::Existing,
        error == Error::NotFound ==> create_decision(Err(error)) == CreateCheck::Create,
        error != Error::NotFound ==> create_decision(Err(error)) == CreateCheck::Failed(error),
{
}

/// A name is moved within one file system, in the newer form where the daemon knows it; in the
/// older one only without wishes.
pub proof fn law_how_a_name_is_moved(
    init: Option<FuseInit>,
    directory: u64,
    flags: u32,
    from: Seq<u8>,
    to: Seq<u8>,
)
    ensures
        rename_asked(init, false, directory, flags, from, to) == Err::<(u32, Seq<u8>), Error>(
            Error::CrossesDevices,
        ),
        knows_rename2(init) ==> rename_asked(init, true, directory, flags, from, to) == Ok::<
            (u32, Seq<u8>),
            Error,
        >((45, rename2_body(directory, flags, from, to))),
        !knows_rename2(init) ==> rename_asked(init, true, directory, 0, from, to) == Ok::<
            (u32, Seq<u8>),
            Error,
        >((12, rename_body(directory, from, to))),
        !knows_rename2(init) && flags != 0 ==> rename_asked(
            init,
            true,
            directory,
            flags,
            from,
            to,
        ) == Err::<(u32, Seq<u8>), Error>(Error::OperationNotSupported),
{
}

/// The numbers of the requests that differ for directories.
pub proof fn law_directories_have_requests_of_their_own()
    ensures
        unlink_number(true) == 11,
        unlink_number(false) == 10,
        release_number(true) == 29,
        release_number(false) == 18,
        readdir_number(true) == 44,
        readdir_number(false) == 28,
{
}

/// Everything but a link, and what is of no known type, can be made by its name.
pub proof fn law_what_can_be_made_by_name(kind: NodeType)
    ensures
        kind is Symlink || kind is Unknown ==> !can_be_made(kind),
        kind is Directory || kind is RegularFile || kind is Fifo || kind is Socket || kind
            is CharacterDevice || kind is BlockDevice ==> can_be_made(kind),
{
}

/// The first failure of closing a file is told.
pub proof fn law_closing_tells_the_first_failure(
    written: Result<(), Error>,
    flushed: Result<(), Error>,
    released: Result<(), Error>,
    error: Error,
)
    ensures
        close_outcome(Err(error), flushed, released) == Err::<(), Error>(error),
        close_outcome(Ok(()), Err(error), released) == Err::<(), Error>(error),
        close_outcome(Ok(()), Ok(()), Err(error)) == Err::<(), Error>(error),
        (close_outcome(written, flushed, released) is Ok) == (written is Ok && flushed is Ok
            && released is Ok),
{
}

/// What an open does with what is kept: the lowest bit of its flags goes past it, the second spares
/// it, and where nothing is kept neither matters.
pub proof fn law_what_an_open_does_with_the_cache(flags: u32)
    ensures
        !open_drops(false, flags),
        !open_keeps(false, flags),
        open_drops(true, flags) == (flags & 2 == 0),
        open_keeps(true, flags) == (flags & 1 == 0),
{
}

/// What is known of a node is what the daemon said, until the time that it said.
pub proof fn law_a_node_is_known_for_its_time(
    node: Node,
    reply: Seq<u8>,
    said: u64,
    now: u64,
    deadline: u64,
)
    ensures
        !node.metadata_valid ==> known_of(node, now) is None,
        now >= node.attr_deadline ==> known_of(node, now) is None,
        node.metadata_valid && now < node.attr_deadline ==> known_of(node, now) == Some(
            node.metadata,
        ),
        parsed(reply, 16) is Ok && deadline_at(reply, 0, 8, said) == Ok::<u64, Error>(deadline)
            ==> known_of(refreshed(node, reply, said), now) == (if now < deadline {
            Some(parsed(reply, 16)->Ok_0)
        } else {
            None
        }),
        parsed(reply, 16) is Ok && deadline_at(reply, 0, 8, said) is Err ==> known_of(
            refreshed(node, reply, said),
            said,
        ) is None,
        parsed(reply, 16) is Err ==> refreshed(node, reply, said) == node,
        refreshed(node, reply, said).nodeid == node.nodeid,
        refreshed(node, reply, said).token == node.token,
        refreshed(node, reply, said).namespace_epoch == node.namespace_epoch,
        refreshed(node, reply, said).entry_deadline == node.entry_deadline,
{
}

} // verus!
