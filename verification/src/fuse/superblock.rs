//! A mounted file system: its nodes, its open handles and what is kept of it.

use vstd::prelude::*;
use crate::error::Error;
use crate::fuse::cache::{dentry_dropped, dirty_inflight, dirty_of_dead, evicted, invalidated,
    store_result, stored, Cache, CacheView};
use crate::fuse::connection::{after, number, number_of, Connection, ConnectionView};
use crate::fuse::metadata::{deadline_at, parsed, ttl_deadline, parse_attr_out, Metadata};
use crate::fuse::notice::{completed, law_a_notice_keeps_its_charge, law_a_requeued_notice_is_next,
    requeued, taken_up, FuseNotification, NoticesView, NotificationView};
use crate::fuse::poll::{hang_up, hung_up};
use crate::fuse::ranges::Lease;
use crate::fuse::wire::{cache_active, caches};

verus! {

/// A node that the kernel has a reference to.  A node that was looked up more than once
/// is here as often.
#[derive(Clone, Copy, Debug, PartialEq, Eq, Structural)]
pub struct Node {
    /// Which of the references this is.
    pub token: u64,
    pub nodeid: u64,
    pub metadata: Metadata,
    pub metadata_valid: bool,
    pub attr_deadline: u64,
    pub entry_deadline: u64,
    /// Counts the changes of the names in it.
    pub namespace_epoch: u64,
}

/// A mounted file system.
pub struct Superblock {
    pub cache: Cache,
    /// The handles that live.
    pub handles: Vec<Lease>,
    pub next_generation: u64,
    pub nodes: Vec<Node>,
    pub next_token: u64,
}

/// What is said of a mounted file system.
#[verifier::ext_equal]
pub struct SuperblockView {
    pub cache: CacheView,
    pub handles: Seq<Lease>,
    pub next_generation: u64,
    pub nodes: Seq<Node>,
    pub next_token: u64,
}

/// What is known for certain of a node.
pub open spec fn known_of(node: Node, now: u64) -> Option<Metadata> {
    if node.metadata_valid && now < node.attr_deadline {
        Some(node.metadata)
    } else {
        None
    }
}

/// A node after a daemon said what it is, and for how long.
pub open spec fn refreshed(node: Node, reply: Seq<u8>, now: u64) -> Node {
    match parsed(reply, 16) {
        Ok(metadata) => Node {
            metadata,
            attr_deadline: match deadline_at(reply, 0, 8, now) {
                Ok(deadline) => deadline,
                Err(_) => now,
            },
            metadata_valid: true,
            ..node
        },
        Err(_) => node,
    }
}

/// A count that goes on.
pub open spec fn next(epoch: u64) -> u64 {
    if epoch == u64::MAX {
        0
    } else {
        (epoch + 1) as u64
    }
}

fn bump(epoch: u64) -> (n: u64)
    ensures
        n == next(epoch),
{
    if epoch == u64::MAX {
        0
    } else {
        epoch + 1
    }
}

/// Where the first reference to a node stands, or the length where there is none.
pub open spec fn node_at(nodes: Seq<Node>, nodeid: u64) -> int
    decreases nodes.len(),
{
    if nodes.len() == 0 {
        0
    } else if nodes[0].nodeid == nodeid {
        0
    } else {
        1 + node_at(nodes.drop_first(), nodeid)
    }
}

proof fn node_at_is(nodes: Seq<Node>, nodeid: u64, i: int)
    requires
        0 <= i <= nodes.len(),
        forall|j: int| 0 <= j < i ==> (#[trigger] nodes[j]).nodeid != nodeid,
        i < nodes.len() ==> nodes[i].nodeid == nodeid,
    ensures
        node_at(nodes, nodeid) == i,
    decreases nodes.len(),
{
    if i > 0 {
        let rest = nodes.drop_first();
        assert(nodes[0].nodeid != nodeid);
        assert forall|j: int| 0 <= j < i - 1 implies (#[trigger] rest[j]).nodeid != nodeid by {
            assert(rest[j] == nodes[j + 1]);
        }
        if i < nodes.len() {
            assert(rest[i - 1] == nodes[i]);
        }
        node_at_is(rest, nodeid, i - 1);
    }
}

pub open spec fn has_node(nodes: Seq<Node>, nodeid: u64) -> bool {
    node_at(nodes, nodeid) < nodes.len()
}

/// The last reference to a node.
pub open spec fn is_last_reference(nodes: Seq<Node>, nodeid: u64, i: int) -> bool {
    &&& 0 <= i < nodes.len()
    &&& nodes[i].nodeid == nodeid
    &&& forall|j: int| i < j < nodes.len() ==> (#[trigger] nodes[j]).nodeid != nodeid
}

/// The file system without the reference at `at`.  With the last use goes what is kept of
/// the file.
pub open spec fn removed(s: SuperblockView, at: int) -> SuperblockView {
    SuperblockView {
        nodes: s.nodes.remove(at),
        cache: if has_handle(s.handles, s.nodes[at].nodeid) {
            s.cache
        } else {
            evicted(s.cache, s.nodes[at].nodeid)
        },
        ..s
    }
}

/// A node after its names changed.
pub open spec fn renamed_in(node: Node) -> Node {
    Node { namespace_epoch: next(node.namespace_epoch), ..node }
}

/// A node of which nothing is known for certain any more.
pub open spec fn outdated(node: Node) -> Node {
    Node { metadata_valid: false, ..renamed_in(node) }
}

/// The nodes after the first reference to one changed.
pub open spec fn changed(nodes: Seq<Node>, nodeid: u64, node: Node) -> Seq<Node> {
    nodes.update(node_at(nodes, nodeid), node)
}

/// The nodes after a name was deleted.
pub open spec fn deleted(nodes: Seq<Node>, parent: u64, child: u64) -> Seq<Node> {
    Seq::new(
        nodes.len(),
        |i: int|
            if nodes[i].nodeid == parent || nodes[i].nodeid == child {
                outdated(nodes[i])
            } else {
                nodes[i]
            },
    )
}

/// Whether some handle of a node lives.
pub open spec fn has_handle(handles: Seq<Lease>, nodeid: u64) -> bool {
    exists|i: int| 0 <= i < handles.len() && (#[trigger] handles[i]).nodeid == nodeid
}

/// The handles without one.
pub open spec fn without(handles: Seq<Lease>, lease: Lease) -> Seq<Lease>
    decreases handles.len(),
{
    if handles.len() == 0 {
        Seq::empty()
    } else if handles.last() == lease {
        without(handles.drop_last(), lease)
    } else {
        without(handles.drop_last(), lease).push(handles.last())
    }
}

/// The file system after a handle ended.  With the last one goes what is kept of the
/// file.
pub open spec fn retired(s: SuperblockView, lease: Lease) -> SuperblockView {
    let handles = without(s.handles, lease);
    SuperblockView {
        handles,
        cache: if has_handle(handles, lease.nodeid) {
            s.cache
        } else {
            evicted(s.cache, lease.nodeid)
        },
        ..s
    }
}

/// What comes of taking a notice up.
#[derive(Clone, Copy, Debug, PartialEq, Eq, Structural)]
pub enum ApplyStep {
    /// There is none.
    Drained,
    /// It is done with.
    Applied,
    /// It has to wait, and so has everything behind it.
    Waiting,
    /// What is dirty of a node has to be sent first.
    Flush(u64),
}

/// What to do with the notice that was taken up.
pub open spec fn decision(s: SuperblockView, notice: NotificationView) -> ApplyStep {
    match notice {
        NotificationView::InvalidateInode { nodeid, .. } => if has_node(s.nodes, nodeid) {
            if dirty_inflight(s.cache.ranges(nodeid)) {
                ApplyStep::Waiting
            } else {
                ApplyStep::Flush(nodeid)
            }
        } else if s.cache.inodes.contains_key(nodeid) && !dirty_of_dead(
            s.cache.ranges(nodeid),
            s.handles,
        ) {
            ApplyStep::Waiting
        } else {
            ApplyStep::Applied
        },
        NotificationView::Store { nodeid, .. } => if !has_node(s.nodes, nodeid) {
            ApplyStep::Applied
        } else if dirty_inflight(s.cache.ranges(nodeid)) {
            ApplyStep::Waiting
        } else {
            ApplyStep::Flush(nodeid)
        },
        _ => ApplyStep::Applied,
    }
}

/// The file system after the notice that was taken up, as far as nothing has to be sent.
pub open spec fn applied(s: SuperblockView, notice: NotificationView) -> SuperblockView {
    match notice {
        NotificationView::InvalidateEntry { parent, name } => SuperblockView {
            cache: dentry_dropped(s.cache, parent, name),
            nodes: if has_node(s.nodes, parent) {
                changed(s.nodes, parent, renamed_in(s.nodes[node_at(s.nodes, parent)]))
            } else {
                s.nodes
            },
            ..s
        },
        NotificationView::Delete { parent, child, name } => SuperblockView {
            cache: dentry_dropped(s.cache, parent, name),
            nodes: deleted(s.nodes, parent, child),
            ..s
        },
        _ => s,
    }
}

/// The notices after a step.
pub open spec fn settled(v: NoticesView, step: ApplyStep, dead: bool) -> NoticesView {
    match step {
        ApplyStep::Applied => completed(v),
        ApplyStep::Waiting => requeued(v, dead),
        _ => v,
    }
}

/// What comes of the next notice, and the file system and the notices after it.
pub open spec fn begun(s: SuperblockView, v: ConnectionView) -> (
    ApplyStep,
    SuperblockView,
    NoticesView,
) {
    let (notice, taken) = taken_up(v.notices);
    match notice {
        None => (ApplyStep::Drained, s, taken),
        Some(notice) => {
            let step = decision(s, notice);
            (
                step,
                if step == ApplyStep::Applied {
                    applied(s, notice)
                } else {
                    s
                },
                settled(taken, step, v.dead),
            )
        },
    }
}

/// Whether a notice is one that what is dirty is sent for.
pub open spec fn waits_for_flush(s: SuperblockView, notice: NotificationView) -> bool {
    match notice {
        NotificationView::InvalidateInode { nodeid, .. } => has_node(s.nodes, nodeid),
        NotificationView::Store { nodeid, .. } => has_node(s.nodes, nodeid),
        _ => false,
    }
}

/// The node that a notice is about.
pub open spec fn subject(notice: NotificationView) -> u64 {
    match notice {
        NotificationView::InvalidateInode { nodeid, .. } => nodeid,
        NotificationView::Store { nodeid, .. } => nodeid,
        NotificationView::InvalidateEntry { parent, .. } => parent,
        NotificationView::Delete { parent, .. } => parent,
    }
}

/// The node that bytes were stored in.
pub open spec fn grown(node: Node, end: int) -> Node {
    Node {
        metadata_valid: false,
        metadata: Metadata {
            size: if node.metadata.size >= end {
                node.metadata.size
            } else if end <= u64::MAX {
                end as u64
            } else {
                u64::MAX
            },
            ..node.metadata
        },
        ..node
    }
}

/// What comes of a notice after what was dirty was sent, or could not be, and the file
/// system after it.  Where the only handle that may send it is gone, the notice is
/// dropped: it would wait for ever.
pub open spec fn flushed_step(
    s: SuperblockView,
    active: bool,
    notice: NotificationView,
    sent: bool,
) -> (ApplyStep, SuperblockView) {
    let nodeid = subject(notice);
    let node = s.nodes[node_at(s.nodes, nodeid)];
    if !sent {
        if dirty_of_dead(s.cache.ranges(nodeid), s.handles) {
            (ApplyStep::Applied, s)
        } else {
            (ApplyStep::Waiting, s)
        }
    } else {
        match notice {
            NotificationView::InvalidateInode { offset, length, .. } => (
                ApplyStep::Applied,
                SuperblockView {
                    nodes: changed(s.nodes, nodeid, outdated(node)),
                    cache: invalidated(s.cache, nodeid, offset, length),
                    ..s
                },
            ),
            NotificationView::Store { offset, data, .. } => (
                if store_result(s.cache, active, nodeid, offset, data, None) is Ok {
                    ApplyStep::Applied
                } else {
                    ApplyStep::Waiting
                },
                SuperblockView {
                    nodes: changed(s.nodes, nodeid, grown(node, offset + data.len())),
                    cache: stored(s.cache, active, nodeid, offset, data, None),
                    ..s
                },
            ),
            _ => (ApplyStep::Applied, s),
        }
    }
}

impl Superblock {
    pub open spec fn view(&self) -> SuperblockView {
        SuperblockView {
            cache: self.cache@,
            handles: self.handles@,
            next_generation: self.next_generation,
            nodes: self.nodes@,
            next_token: self.next_token,
        }
    }

    pub open spec fn wf(self) -> bool {
        self@.cache.wf()
    }

    pub fn new() -> (superblock: Superblock)
        ensures
            superblock.wf(),
            superblock@ == (SuperblockView {
                cache: CacheView { inodes: Map::empty(), dentries: Seq::empty(), bytes: 0 },
                handles: Seq::empty(),
                next_generation: 1,
                nodes: Seq::empty(),
                next_token: 1,
            }),
    {
        let superblock = Superblock {
            cache: Cache::new(),
            handles: Vec::new(),
            next_generation: 1,
            nodes: Vec::new(),
            next_token: 1,
        };
        assert(superblock@.handles =~= Seq::empty());
        assert(superblock@.nodes =~= Seq::empty());
        superblock
    }

    fn find_node(&self, nodeid: u64) -> (at: usize)
        ensures
            at == node_at(self@.nodes, nodeid),
            at <= self.nodes@.len(),
            at < self.nodes@.len() ==> self.nodes@[at as int].nodeid == nodeid,
    {
        let mut i: usize = 0;
        while i < self.nodes.len()
            invariant
                i <= self.nodes@.len(),
                forall|j: int| 0 <= j < i ==> (#[trigger] self.nodes@[j]).nodeid != nodeid,
            decreases self.nodes@.len() - i,
        {
            if self.nodes[i].nodeid == nodeid {
                proof {
                    node_at_is(self.nodes@, nodeid, i as int);
                }
                return i;
            }
            i = i + 1;
        }
        proof {
            node_at_is(self.nodes@, nodeid, i as int);
        }
        i
    }

    /// The latest reference to a node, which an open file keeps.  A file that is open
    /// while its name is gone is so still known to the daemon's notices.
    pub fn retain_node(&self, nodeid: u64) -> (node: Option<Node>)
        ensures
            match node {
                Some(node) => exists|i: int|
                    is_last_reference(self@.nodes, nodeid, i) && #[trigger] self@.nodes[i] == node,
                None => !has_node(self@.nodes, nodeid),
            },
    {
        let mut left: usize = self.nodes.len();
        while left > 0
            invariant
                left <= self.nodes@.len(),
                forall|j: int| left <= j < self.nodes@.len() ==> (#[trigger] self.nodes@[j]).nodeid
                    != nodeid,
            decreases left,
        {
            if self.nodes[left - 1].nodeid == nodeid {
                assert(is_last_reference(self@.nodes, nodeid, left - 1));
                return Some(self.nodes[left - 1]);
            }
            left = left - 1;
        }
        proof {
            node_at_is(self.nodes@, nodeid, self.nodes@.len() as int);
        }
        None
    }

    /// Note a reference to a node.  The result is its token.
    pub fn insert_node(&mut self, nodeid: u64, metadata: Metadata) -> (token: u64)
        requires
            old(self).wf(),
        ensures
            final(self).wf(),
            token == number_of(old(self)@.next_token),
            final(self)@ == (SuperblockView {
                nodes: old(self)@.nodes.push(
                    Node {
                        token,
                        nodeid,
                        metadata,
                        metadata_valid: false,
                        attr_deadline: 0,
                        entry_deadline: 0,
                        namespace_epoch: 1,
                    },
                ),
                next_token: after(old(self)@.next_token),
                ..old(self)@
            }),
    {
        let (token, next) = number(self.next_token);
        self.next_token = next;
        self.nodes.push(
            Node {
                token,
                nodeid,
                metadata,
                metadata_valid: false,
                attr_deadline: 0,
                entry_deadline: 0,
                namespace_epoch: 1,
            },
        );
        token
    }

    /// Forget the reference to a node that stands at `at`.  With the last use goes what
    /// is kept of the file.
    pub fn remove_node(&mut self, at: usize)
        requires
            old(self).wf(),
            at < old(self)@.nodes.len(),
        ensures
            final(self).wf(),
            final(self)@ == removed(old(self)@, at as int),
    {
        let nodeid: u64 = self.nodes[at].nodeid;
        self.nodes.remove(at);
        if !self.has_live_handle(nodeid) {
            self.cache.evict(nodeid);
        }
    }

    fn has_live_handle(&self, nodeid: u64) -> (found: bool)
        ensures
            found == has_handle(self@.handles, nodeid),
    {
        let mut i: usize = 0;
        while i < self.handles.len()
            invariant
                i <= self.handles@.len(),
                forall|j: int| 0 <= j < i ==> (#[trigger] self.handles@[j]).nodeid != nodeid,
            decreases self.handles@.len() - i,
        {
            if self.handles[i].nodeid == nodeid {
                assert(self.handles@[i as int].nodeid == nodeid);
                return true;
            }
            i = i + 1;
        }
        false
    }

    /// Note a handle that the daemon gave.
    pub fn open_lease(&mut self, nodeid: u64, fh: u64) -> (lease: Lease)
        requires
            old(self).wf(),
        ensures
            final(self).wf(),
            lease == (Lease { nodeid, fh, generation: number_of(old(self)@.next_generation) }),
            final(self)@ == (SuperblockView {
                handles: old(self)@.handles.push(lease),
                next_generation: after(old(self)@.next_generation),
                ..old(self)@
            }),
    {
        let (generation, next) = number(self.next_generation);
        self.next_generation = next;
        let lease = Lease { nodeid, fh, generation };
        self.handles.push(lease);
        lease
    }

    /// End a handle.
    pub fn retire_handle(&mut self, lease: Lease)
        requires
            old(self).wf(),
        ensures
            final(self).wf(),
            final(self)@ == retired(old(self)@, lease),
    {
        let ghost all = self.handles@;
        let mut kept: Vec<Lease> = Vec::new();
        let mut i: usize = 0;
        assert(kept@ =~= without(all.take(0), lease));
        while i < self.handles.len()
            invariant
                i <= self.handles@.len(),
                all == self.handles@,
                kept@ == without(all.take(i as int), lease),
            decreases self.handles@.len() - i,
        {
            assert(all.take(i as int + 1).drop_last() =~= all.take(i as int));
            assert(all.take(i as int + 1).last() == all[i as int]);
            if self.handles[i] != lease {
                kept.push(self.handles[i]);
            }
            i = i + 1;
        }
        assert(all.take(i as int) =~= all);
        self.handles = kept;
        if !self.has_live_handle(lease.nodeid) {
            self.cache.evict(lease.nodeid);
        }
    }

    /// What is known for certain of the node at `at`.
    pub fn known_metadata(&self, at: usize, now: u64) -> (metadata: Option<Metadata>)
        requires
            at < self@.nodes.len(),
        ensures
            metadata == known_of(self@.nodes[at as int], now),
    {
        if self.nodes[at].metadata_valid && now < self.nodes[at].attr_deadline {
            Some(self.nodes[at].metadata)
        } else {
            None
        }
    }

    /// Take what a daemon says of the node at `at`.  A reply that does not say for how
    /// long holds for no time.
    pub fn refresh(&mut self, at: usize, reply: &[u8], now: u64) -> (result: Result<Metadata, Error>)
        requires
            old(self).wf(),
            at < old(self)@.nodes.len(),
        ensures
            final(self).wf(),
            result == parsed(reply@, 16),
            final(self)@ == (match parsed(reply@, 16) {
                Ok(_) => SuperblockView {
                    nodes: old(self)@.nodes.update(
                        at as int,
                        refreshed(old(self)@.nodes[at as int], reply@, now),
                    ),
                    ..old(self)@
                },
                Err(_) => old(self)@,
            }),
    {
        let metadata = parse_attr_out(reply)?;
        let deadline: u64 = match ttl_deadline(reply, 0, 8, now) {
            Ok(deadline) => deadline,
            Err(_) => now,
        };
        let mut node: Node = self.nodes[at];
        node.metadata = metadata;
        node.attr_deadline = deadline;
        node.metadata_valid = true;
        self.nodes.set(at, node);
        Ok(metadata)
    }

    /// Take what a daemon says of the node at `at` after a change.  The reply does not say
    /// for how long it holds: where `certain` is set, it does as long as the last one did.
    pub fn take_attributes(&mut self, at: usize, reply: &[u8], certain: bool) -> (result: Result<
        Metadata,
        Error,
    >)
        requires
            old(self).wf(),
            at < old(self)@.nodes.len(),
        ensures
            final(self).wf(),
            result == parsed(reply@, 16),
            final(self)@ == (match parsed(reply@, 16) {
                Ok(metadata) => SuperblockView {
                    nodes: old(self)@.nodes.update(
                        at as int,
                        Node {
                            metadata,
                            metadata_valid: certain || old(self)@.nodes[at as int].metadata_valid,
                            ..old(self)@.nodes[at as int]
                        },
                    ),
                    ..old(self)@
                },
                Err(_) => old(self)@,
            }),
    {
        let metadata = parse_attr_out(reply)?;
        let mut node: Node = self.nodes[at];
        node.metadata = metadata;
        node.metadata_valid = certain || node.metadata_valid;
        self.nodes.set(at, node);
        Ok(metadata)
    }

    /// Drop everything that is kept of a file system whose daemon is gone, and have no
    /// one wait for it.
    pub fn apply_death(&mut self, connection: &mut Connection) -> (dead: bool)
        requires
            old(self).wf(),
            old(connection).wf(),
        ensures
            final(self).wf(),
            final(connection).wf(),
            dead == old(connection)@.dead,
            final(self)@ == (if dead {
                SuperblockView {
                    cache: CacheView { inodes: Map::empty(), dentries: Seq::empty(), bytes: 0 },
                    ..old(self)@
                }
            } else {
                old(self)@
            }),
            final(connection)@ == (if dead {
                ConnectionView {
                    polls: hung_up(old(connection)@.polls, false),
                    ..old(connection)@
                }
            } else {
                old(connection)@
            }),
    {
        if !connection.dead {
            return false;
        }
        self.cache.clear();
        hang_up(&mut connection.polls, false);
        true
    }

    fn mark_deleted(&mut self, parent: u64, child: u64)
        ensures
            final(self)@ == (SuperblockView {
                nodes: deleted(old(self)@.nodes, parent, child),
                ..old(self)@
            }),
    {
        let ghost all = self.nodes@;
        let ghost before = self@;
        let mut i: usize = 0;
        while i < self.nodes.len()
            invariant
                i <= self.nodes@.len(),
                self.nodes@.len() == all.len(),
                self@ == (SuperblockView { nodes: self.nodes@, ..before }),
                forall|j: int|
                    0 <= j < i ==> #[trigger] self.nodes@[j] == deleted(all, parent, child)[j],
                forall|j: int| i <= j < all.len() ==> #[trigger] self.nodes@[j] == all[j],
            decreases self.nodes@.len() - i,
        {
            let mut node: Node = self.nodes[i];
            if node.nodeid == parent || node.nodeid == child {
                node.metadata_valid = false;
                node.namespace_epoch = bump(node.namespace_epoch);
                self.nodes.set(i, node);
            }
            i = i + 1;
        }
        assert(self.nodes@ =~= deleted(all, parent, child));
    }

    /// Take the next notice up, and apply it as far as nothing has to be sent first.
    pub fn begin_notification(&mut self, connection: &mut Connection) -> (step: ApplyStep)
        requires
            old(self).wf(),
            old(connection).wf(),
        ensures
            final(self).wf(),
            final(connection).wf(),
            ({
                let (want, s, notices) = begun(old(self)@, old(connection)@);
                &&& step == want
                &&& final(self)@ == s
                &&& final(connection)@ == (ConnectionView { notices, ..old(connection)@ })
                &&& step is Flush ==> final(connection)@.notices.processing is Some
                    && waits_for_flush(s, (final(connection)@.notices.processing->0).0)
            }),
    {
        let ghost s = self@;
        let ghost v = connection@;
        if !connection.notices.take() {
            return ApplyStep::Drained;
        }
        let ghost notice = (connection@.notices.processing->0).0;
        let dead = connection.dead;
        let step: ApplyStep = match &connection.notices.processing {
            None => ApplyStep::Drained,
            Some((FuseNotification::InvalidateInode { nodeid, .. }, _)) => {
                let nodeid: u64 = *nodeid;
                if self.find_node(nodeid) < self.nodes.len() {
                    if self.cache.has_inflight_dirty(nodeid) {
                        ApplyStep::Waiting
                    } else {
                        ApplyStep::Flush(nodeid)
                    }
                } else if self.cache.holds(nodeid) && !self.cache.has_dead_dirty_owner(
                    nodeid,
                    &self.handles,
                ) {
                    ApplyStep::Waiting
                } else {
                    ApplyStep::Applied
                }
            },
            Some((FuseNotification::InvalidateEntry { parent, name }, _)) => {
                self.cache.invalidate_cached_dentry(*parent, name.as_slice());
                let at: usize = self.find_node(*parent);
                if at < self.nodes.len() {
                    let mut node: Node = self.nodes[at];
                    node.namespace_epoch = bump(node.namespace_epoch);
                    self.nodes.set(at, node);
                }
                ApplyStep::Applied
            },
            Some((FuseNotification::Delete { parent, child, name }, _)) => {
                self.cache.invalidate_cached_dentry(*parent, name.as_slice());
                self.mark_deleted(*parent, *child);
                ApplyStep::Applied
            },
            Some((FuseNotification::Store { nodeid, .. }, _)) => {
                let nodeid: u64 = *nodeid;
                if self.find_node(nodeid) >= self.nodes.len() {
                    ApplyStep::Applied
                } else if self.cache.has_inflight_dirty(nodeid) {
                    ApplyStep::Waiting
                } else {
                    ApplyStep::Flush(nodeid)
                }
            },
        };
        assert(step == decision(s, notice));
        match step {
            ApplyStep::Applied => {
                connection.notices.complete();
            },
            ApplyStep::Waiting => {
                connection.notices.requeue_front(dead);
            },
            _ => {},
        }
        step
    }

    /// Apply the notice that was taken up, now that what was dirty is sent, or could not
    /// be.
    pub fn finish_notification(&mut self, connection: &mut Connection, sent: bool) -> (step:
        ApplyStep)
        requires
            old(self).wf(),
            old(connection).wf(),
            old(connection)@.notices.processing is Some,
            waits_for_flush(old(self)@, (old(connection)@.notices.processing->0).0),
        ensures
            final(self).wf(),
            final(connection).wf(),
            ({
                let notice = (old(connection)@.notices.processing->0).0;
                let (want, s) = flushed_step(
                    old(self)@,
                    caches(old(connection)@.init),
                    notice,
                    sent,
                );
                &&& step == want
                &&& final(self)@ == s
                &&& final(connection)@ == (ConnectionView {
                    notices: settled(
                        old(connection)@.notices,
                        want,
                        old(connection)@.dead,
                    ),
                    ..old(connection)@
                })
            }),
    {
        let ghost s = self@;
        let ghost notice = (connection@.notices.processing->0).0;
        let dead = connection.dead;
        let active = cache_active(connection.init);
        let step: ApplyStep = match &connection.notices.processing {
            Some((FuseNotification::InvalidateInode { nodeid, offset, length }, _)) => {
                let nodeid: u64 = *nodeid;
                if !sent {
                    self.failed_step(nodeid)
                } else {
                    let at: usize = self.find_node(nodeid);
                    let mut node: Node = self.nodes[at];
                    node.metadata_valid = false;
                    node.namespace_epoch = bump(node.namespace_epoch);
                    self.nodes.set(at, node);
                    self.cache.invalidate_cached_inode(nodeid, *offset, *length);
                    ApplyStep::Applied
                }
            },
            Some((FuseNotification::Store { nodeid, offset, data }, _)) => {
                let nodeid: u64 = *nodeid;
                if !sent {
                    self.failed_step(nodeid)
                } else {
                    let at: usize = self.find_node(nodeid);
                    let mut node: Node = self.nodes[at];
                    node.metadata_valid = false;
                    let end: u64 = if data.len() as u64 <= u64::MAX - *offset {
                        *offset + data.len() as u64
                    } else {
                        u64::MAX
                    };
                    let mut metadata: Metadata = node.metadata;
                    if metadata.size < end {
                        metadata.size = end;
                    }
                    node.metadata = metadata;
                    self.nodes.set(at, node);
                    match self.cache.cache_store(active, nodeid, *offset, data.as_slice(), None) {
                        Ok(()) => ApplyStep::Applied,
                        Err(_) => ApplyStep::Waiting,
                    }
                }
            },
            _ => ApplyStep::Applied,
        };
        assert(self@ =~= flushed_step(s, active, notice, sent).1);
        match step {
            ApplyStep::Applied => {
                connection.notices.complete();
            },
            ApplyStep::Waiting => {
                connection.notices.requeue_front(dead);
            },
            _ => {},
        }
        step
    }

    fn failed_step(&self, nodeid: u64) -> (step: ApplyStep)
        ensures
            step == (if dirty_of_dead(self@.cache.ranges(nodeid), self@.handles) {
                ApplyStep::Applied
            } else {
                ApplyStep::Waiting
            }),
    {
        if self.cache.has_dead_dirty_owner(nodeid, &self.handles) {
            ApplyStep::Applied
        } else {
            ApplyStep::Waiting
        }
    }
}

/// A notice that has to wait is not passed by the ones behind it: it is the next one to
/// be taken up.
pub proof fn law_a_waiting_notice_is_not_passed(s: SuperblockView, v: ConnectionView)
    requires
        v.notices.balanced(),
        v.notices.deferred is None,
        !v.dead,
        begun(s, v).0 == ApplyStep::Waiting,
    ensures
        begun(s, v).1 == s,
        taken_up(begun(s, v).2).0 == taken_up(v.notices).0,
        begun(s, v).2.bytes == v.notices.bytes,
{
    let taken = taken_up(v.notices).1;
    law_a_notice_keeps_its_charge(v.notices);
    law_a_requeued_notice_is_next(taken);
}

} // verus!
