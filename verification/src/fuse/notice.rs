//! What a daemon says of its own accord.

use vstd::prelude::*;
use std::collections::VecDeque;

verus! {

/// Notices that wait at a time.
pub const MAX_FUSE_NOTIFICATIONS: usize = 1024;

/// Bytes of the notices that wait.
pub const MAX_FUSE_NOTIFICATION_BYTES: usize = 0x80_0000;

/// Bytes of a notice that may be put aside.
pub const MAX_FUSE_DEFERRED_NOTIFICATION_BYTES: usize = 0x10_0000;

/// A notice that changes what the kernel keeps.
#[derive(Debug)]
#[allow(inconsistent_fields)]
pub enum FuseNotification {
    InvalidateInode { nodeid: u64, offset: i64, length: i64 },
    InvalidateEntry { parent: u64, name: Vec<u8> },
    Delete { parent: u64, child: u64, name: Vec<u8> },
    Store { nodeid: u64, offset: u64, data: Vec<u8> },
}

/// What is said of a notice.
#[allow(inconsistent_fields)]
pub enum NotificationView {
    InvalidateInode { nodeid: u64, offset: i64, length: i64 },
    InvalidateEntry { parent: u64, name: Seq<u8> },
    Delete { parent: u64, child: u64, name: Seq<u8> },
    Store { nodeid: u64, offset: u64, data: Seq<u8> },
}

impl View for FuseNotification {
    type V = NotificationView;

    open spec fn view(&self) -> NotificationView {
        match self {
            FuseNotification::InvalidateInode {
                nodeid,
                offset,
                length,
            } => NotificationView::InvalidateInode {
                nodeid: *nodeid,
                offset: *offset,
                length: *length,
            },
            FuseNotification::InvalidateEntry {
                parent,
                name,
            } => NotificationView::InvalidateEntry { parent: *parent, name: name@ },
            FuseNotification::Delete { parent, child, name } => NotificationView::Delete {
                parent: *parent,
                child: *child,
                name: name@,
            },
            FuseNotification::Store { nodeid, offset, data } => NotificationView::Store {
                nodeid: *nodeid,
                offset: *offset,
                data: data@,
            },
        }
    }
}

/// The bytes that a notice is charged with: those that it came in.
pub open spec fn cost(notice: NotificationView) -> nat {
    match notice {
        NotificationView::InvalidateInode { .. } => 24,
        NotificationView::InvalidateEntry { name, .. } => 16 + name.len(),
        NotificationView::Delete { name, .. } => 24 + name.len(),
        NotificationView::Store { data, .. } => 24 + data.len(),
    }
}

/// The notices that wait, and the one that is being applied.
///
/// A notice stays charged while it is applied, so that one that could not be applied
/// goes back whole, and is never dropped to be admitted anew.
pub struct Notices {
    pub queue: VecDeque<FuseNotification>,
    pub bytes: usize,
    pub deferred: Option<(FuseNotification, usize)>,
    pub processing: Option<(FuseNotification, usize)>,
}

/// What is said of the notices.
#[verifier::ext_equal]
pub struct NoticesView {
    pub queue: Seq<NotificationView>,
    pub bytes: usize,
    pub deferred: Option<(NotificationView, usize)>,
    pub processing: Option<(NotificationView, usize)>,
}

/// The bytes that the notices of a queue are charged with.
pub open spec fn total(queue: Seq<NotificationView>) -> nat
    decreases queue.len(),
{
    if queue.len() == 0 {
        0
    } else {
        total(queue.drop_last()) + cost(queue.last())
    }
}

pub open spec fn charge(slot: Option<(NotificationView, usize)>) -> nat {
    match slot {
        Some((_, bytes)) => bytes as nat,
        None => 0,
    }
}

/// Whether a slot is charged with its notice.
pub open spec fn charged(slot: Option<(NotificationView, usize)>) -> bool {
    match slot {
        Some((notice, bytes)) => bytes as nat == cost(notice),
        None => true,
    }
}

pub open spec fn used(slot: Option<(NotificationView, usize)>) -> nat {
    if slot is Some {
        1
    } else {
        0
    }
}

impl NoticesView {
    /// The budget is what the notices are charged with, and neither their number nor
    /// their bytes are over the limits.
    pub open spec fn balanced(self) -> bool {
        &&& self.bytes as nat == total(self.queue) + charge(self.deferred) + charge(self.processing)
        &&& charged(self.deferred)
        &&& charged(self.processing)
        &&& self.bytes <= MAX_FUSE_NOTIFICATION_BYTES
        &&& self.queue.len() + used(self.deferred) + used(self.processing)
            <= MAX_FUSE_NOTIFICATIONS
    }

    /// Whether a notice that came in so many bytes is taken.
    pub open spec fn has_room(self, bytes: nat) -> bool {
        &&& self.deferred is None
        &&& self.processing is None
        &&& self.queue.len() < MAX_FUSE_NOTIFICATIONS
        &&& self.bytes + bytes <= MAX_FUSE_NOTIFICATION_BYTES
    }
}

/// A slot's view.
pub open spec fn slot_view(slot: Option<(FuseNotification, usize)>) -> Option<
    (NotificationView, usize),
> {
    match slot {
        Some((notice, bytes)) => Some((notice@, bytes)),
        None => None,
    }
}

/// The notices after one was taken up.
pub open spec fn taken_up(v: NoticesView) -> (Option<NotificationView>, NoticesView) {
    if v.processing is Some {
        (None, v)
    } else if v.deferred is Some {
        (Some((v.deferred->0).0), NoticesView { deferred: None, processing: v.deferred, ..v })
    } else if v.queue.len() > 0 {
        (
            Some(v.queue[0]),
            NoticesView {
                queue: v.queue.drop_first(),
                processing: Some((v.queue[0], cost(v.queue[0]) as usize)),
                ..v
            },
        )
    } else {
        (None, v)
    }
}

/// The notices after the one that was taken up is done with.
pub open spec fn completed(v: NoticesView) -> NoticesView {
    match v.processing {
        Some((_, bytes)) => NoticesView {
            processing: None,
            bytes: if v.bytes >= bytes {
                (v.bytes - bytes) as usize
            } else {
                0
            },
            ..v
        },
        None => v,
    }
}

/// The notices after the one that was taken up has to wait.
pub open spec fn requeued(v: NoticesView, dead: bool) -> NoticesView {
    match v.processing {
        None => v,
        Some((notice, bytes)) => if dead {
            completed(v)
        } else if v.queue.len() < MAX_FUSE_NOTIFICATIONS {
            NoticesView { queue: seq![notice] + v.queue, processing: None, ..v }
        } else if v.deferred is None && bytes <= MAX_FUSE_DEFERRED_NOTIFICATION_BYTES {
            NoticesView { deferred: v.processing, processing: None, ..v }
        } else {
            v
        },
    }
}

/// The bytes of a queue are those of its first notice and of the rest.
pub proof fn total_from_the_front(first: NotificationView, rest: Seq<NotificationView>)
    ensures
        total(seq![first] + rest) == cost(first) + total(rest),
    decreases rest.len(),
{
    let all = seq![first] + rest;
    if rest.len() == 0 {
        assert(all =~= Seq::<NotificationView>::empty().push(first));
        assert(all.drop_last() =~= Seq::<NotificationView>::empty());
        assert(total(all.drop_last()) == 0);
        assert(all.last() == first);
    } else {
        assert(all.last() == rest.last());
        assert(all.drop_last() =~= seq![first] + rest.drop_last());
        total_from_the_front(first, rest.drop_last());
    }
}

/// Taking a notice up moves it with its charge.
pub proof fn law_a_notice_keeps_its_charge(v: NoticesView)
    requires
        v.balanced(),
    ensures
        taken_up(v).1.balanced(),
        taken_up(v).1.bytes == v.bytes,
{
    if v.processing is None && v.deferred is None && v.queue.len() > 0 {
        let rest = v.queue.drop_first();
        assert(v.queue =~= seq![v.queue[0]] + rest);
        total_from_the_front(v.queue[0], rest);
    }
}

/// Completing a notice gives back exactly its own bytes.
pub proof fn law_completion_gives_back_the_charge(v: NoticesView)
    requires
        v.balanced(),
    ensures
        completed(v).balanced(),
        completed(v).bytes + charge(v.processing) == v.bytes,
{
}

/// A notice that has to wait is the next one again, and nothing is lost or charged
/// twice.
pub proof fn law_a_requeued_notice_is_next(v: NoticesView)
    requires
        v.balanced(),
        v.processing is Some,
    ensures
        requeued(v, false).balanced(),
        requeued(v, false).bytes == v.bytes,
        requeued(v, false).processing is None,
        v.deferred is None ==> taken_up(requeued(v, false)) == (
            Some((v.processing->0).0),
            v,
        ),
{
    let slot = v.processing->0;
    let back = requeued(v, false);
    assert(v.queue.len() < MAX_FUSE_NOTIFICATIONS);
    total_from_the_front(slot.0, v.queue);
    assert(back.queue == seq![slot.0] + v.queue);
    assert(back.queue[0] == slot.0);
    assert(back.queue.drop_first() =~= v.queue);
    if v.deferred is None {
        assert(slot.1 as nat == cost(slot.0));
        assert(taken_up(back).1 =~= v);
    }
}

impl Notices {
    pub open spec fn view(&self) -> NoticesView {
        NoticesView {
            queue: Seq::new(self.queue@.len(), |i: int| self.queue@[i]@),
            bytes: self.bytes,
            deferred: slot_view(self.deferred),
            processing: slot_view(self.processing),
        }
    }

    pub fn new() -> (notices: Notices)
        ensures
            notices@ == (NoticesView {
                queue: Seq::empty(),
                bytes: 0,
                deferred: None,
                processing: None,
            }),
            notices@.balanced(),
    {
        let notices = Notices {
            queue: VecDeque::new(),
            bytes: 0,
            deferred: None,
            processing: None,
        };
        assert(notices@.queue =~= Seq::empty());
        notices
    }

    /// Whether a notice that came in so many bytes is taken.
    pub fn has_room(&self, bytes: usize) -> (room: bool)
        requires
            self@.balanced(),
        ensures
            room == self@.has_room(bytes as nat),
    {
        self.deferred.is_none() && self.processing.is_none() && self.queue.len()
            < MAX_FUSE_NOTIFICATIONS && bytes <= MAX_FUSE_NOTIFICATION_BYTES - self.bytes
    }

    /// Admit a notice.
    pub fn accept(&mut self, notice: FuseNotification, bytes: usize)
        requires
            old(self)@.balanced(),
            old(self)@.has_room(bytes as nat),
            bytes as nat == cost(notice@),
        ensures
            final(self)@ == (NoticesView {
                queue: old(self)@.queue.push(notice@),
                bytes: (old(self)@.bytes + bytes) as usize,
                ..old(self)@
            }),
            final(self)@.balanced(),
    {
        let ghost v = self@;
        self.bytes = self.bytes + bytes;
        self.queue.push_back(notice);
        assert(self@.queue =~= v.queue.push(notice@));
        assert(self@.queue.drop_last() =~= v.queue);
    }

    /// Take up the next notice, if none is being applied.
    pub fn take(&mut self) -> (taken: bool)
        requires
            old(self)@.balanced(),
        ensures
            final(self)@ == taken_up(old(self)@).1,
            final(self)@.balanced(),
            taken == (taken_up(old(self)@).0 is Some),
            taken ==> final(self)@.processing is Some && (final(self)@.processing->0).0 == taken_up(
                old(self)@,
            ).0->0,
    {
        let ghost v = self@;
        proof {
            law_a_notice_keeps_its_charge(v);
        }
        if self.processing.is_some() {
            return false;
        }
        if let Some(deferred) = self.deferred.take() {
            self.processing = Some(deferred);
            return true;
        }
        let ghost before = self.queue@;
        match self.queue.pop_front() {
            Some(notice) => {
                assert(v.queue[0] == notice@);
                let bytes: usize = notice_bytes(&notice, self.bytes);
                self.processing = Some((notice, bytes));
                assert(self@.queue =~= v.queue.drop_first()) by {
                    assert(self.queue@ =~= before.drop_first());
                }
                true
            },
            None => false,
        }
    }

    /// Finish the notice that was taken up.
    pub fn complete(&mut self)
        requires
            old(self)@.balanced(),
        ensures
            final(self)@ == completed(old(self)@),
            final(self)@.balanced(),
    {
        proof {
            law_completion_gives_back_the_charge(self@);
        }
        if let Some((_, bytes)) = self.processing.take() {
            self.bytes = if self.bytes >= bytes {
                self.bytes - bytes
            } else {
                0
            };
        }
    }

    /// Put the notice that was taken up back in front.
    pub fn requeue_front(&mut self, dead: bool)
        requires
            old(self)@.balanced(),
        ensures
            final(self)@ == requeued(old(self)@, dead),
            final(self)@.balanced(),
    {
        let ghost v = self@;
        if dead {
            self.complete();
            return;
        }
        proof {
            if v.processing is Some {
                law_a_requeued_notice_is_next(v);
            }
        }
        if let Some((notice, bytes)) = self.processing.take() {
            if self.queue.len() < MAX_FUSE_NOTIFICATIONS {
                let ghost before = self.queue@;
                self.queue.push_front(notice);
                assert(self@.queue =~= seq![notice@] + v.queue) by {
                    assert(self.queue@ =~= seq![notice] + before);
                }
            } else if self.deferred.is_none() && bytes <= MAX_FUSE_DEFERRED_NOTIFICATION_BYTES {
                self.deferred = Some((notice, bytes));
            } else {
                self.processing = Some((notice, bytes));
            }
        }
    }
}

/// The bytes that a notice is charged with.
fn notice_bytes(notice: &FuseNotification, budget: usize) -> (bytes: usize)
    requires
        cost(notice@) <= budget,
    ensures
        bytes == cost(notice@),
{
    match notice {
        FuseNotification::InvalidateInode { .. } => 24,
        FuseNotification::InvalidateEntry { name, .. } => 16 + name.len(),
        FuseNotification::Delete { name, .. } => 24 + name.len(),
        FuseNotification::Store { data, .. } => 24 + data.len(),
    }
}

} // verus!
