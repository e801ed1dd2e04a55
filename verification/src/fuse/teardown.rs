//! The end of a connection: the last packet, and the mounts that it waits for.

use vstd::prelude::*;
use crate::error::Error;
use crate::fuse::connection::{aborted, delivered, number_of, planned, Connection, ConnectionView,
    Source};
use crate::fuse::request::{fresh, Request, RequestView};
use crate::fuse::wire::{build_request, packet, Caller, FUSE_DESTROY, FUSE_ROOT_ID};

verus! {

/// What is known of the end of a connection.
///
/// The packet has an outbox of its own, so that to send it after a mount is gone takes
/// no memory and cannot fail.
pub struct Teardown {
    /// Whether the last packet is or was to be sent.  The daemon can still read it: this
    /// is not the same as a dead connection.
    pub queued: bool,
    pub prepared: Option<(u64, Request)>,
    pub lazy_participant: Option<u64>,
    /// Who has a part in the end, and whether that part is done.
    pub participants: Vec<(u64, bool)>,
    pub final_unmount_seen: bool,
    pub packet: Option<Request>,
}

/// What is said of the end of a connection.
#[verifier::ext_equal]
pub struct TeardownView {
    pub queued: bool,
    pub prepared: Option<(u64, RequestView)>,
    pub lazy_participant: Option<u64>,
    pub participants: Seq<(u64, bool)>,
    pub final_unmount_seen: bool,
    pub packet: Option<RequestView>,
}

pub open spec fn prepared_view(prepared: Option<(u64, Request)>) -> Option<(u64, RequestView)> {
    match prepared {
        Some((ticket, request)) => Some((ticket, request@)),
        None => None,
    }
}

pub open spec fn packet_view(packet: Option<Request>) -> Option<RequestView> {
    match packet {
        Some(request) => Some(request@),
        None => None,
    }
}

impl Teardown {
    pub open spec fn view(&self) -> TeardownView {
        TeardownView {
            queued: self.queued,
            prepared: prepared_view(self.prepared),
            lazy_participant: self.lazy_participant,
            participants: self.participants@,
            final_unmount_seen: self.final_unmount_seen,
            packet: packet_view(self.packet),
        }
    }

    pub fn new() -> (teardown: Teardown)
        ensures
            teardown@ == (TeardownView {
                queued: false,
                prepared: None,
                lazy_participant: None,
                participants: Seq::empty(),
                final_unmount_seen: false,
                packet: None,
            }),
    {
        let teardown = Teardown {
            queued: false,
            prepared: None,
            lazy_participant: None,
            participants: Vec::new(),
            final_unmount_seen: false,
            packet: None,
        };
        assert(teardown@.participants =~= Seq::empty());
        teardown
    }

    /// Drop everything that is still to be sent.
    pub fn abandon(&mut self)
        ensures
            final(self)@ == (TeardownView {
                prepared: None,
                lazy_participant: None,
                participants: Seq::empty(),
                packet: None,
                ..old(self)@
            }),
    {
        self.prepared = None;
        self.lazy_participant = None;
        self.participants.clear();
        self.packet = None;
        assert(self@.participants =~= Seq::empty());
    }
}

/// The part of the first of that number.
pub open spec fn part_at(participants: Seq<(u64, bool)>, participant: u64) -> int
    decreases participants.len(),
{
    if participants.len() == 0 {
        0
    } else if participants[0].0 == participant {
        0
    } else {
        1 + part_at(participants.drop_first(), participant)
    }
}

proof fn part_at_is(participants: Seq<(u64, bool)>, participant: u64, i: int)
    requires
        0 <= i <= participants.len(),
        forall|j: int| 0 <= j < i ==> (#[trigger] participants[j]).0 != participant,
        i < participants.len() ==> participants[i].0 == participant,
    ensures
        part_at(participants, participant) == i,
    decreases participants.len(),
{
    if i > 0 {
        let rest = participants.drop_first();
        assert(participants[0].0 != participant);
        assert forall|j: int| 0 <= j < i - 1 implies (#[trigger] rest[j]).0 != participant by {
            assert(rest[j] == participants[j + 1]);
        }
        if i < participants.len() {
            assert(rest[i - 1] == participants[i]);
        }
        part_at_is(rest, participant, i - 1);
    }
}

pub open spec fn has_part(t: TeardownView, participant: u64) -> bool {
    part_at(t.participants, participant) < t.participants.len()
}

/// The end of a connection after a part of it is done.
pub open spec fn part_done(t: TeardownView, participant: u64) -> TeardownView {
    if has_part(t, participant) {
        TeardownView {
            participants: t.participants.update(
                part_at(t.participants, participant),
                (participant, true),
            ),
            ..t
        }
    } else {
        t
    }
}

pub open spec fn all_done(participants: Seq<(u64, bool)>) -> bool {
    forall|i: int| 0 <= i < participants.len() ==> (#[trigger] participants[i]).1
}

/// Whether the last packet may go: everyone who has a part is done, and where one of them
/// left before, the file system is gone too.
pub open spec fn is_resolved(t: TeardownView) -> bool {
    &&& t.prepared is Some
    &&& t.participants.len() > 0
    &&& all_done(t.participants)
    &&& t.lazy_participant is None || t.final_unmount_seen
}

/// The end of a connection after it was looked at whether the last packet may go.
pub open spec fn resolved(t: TeardownView, survivor: bool) -> TeardownView {
    if is_resolved(t) && !survivor {
        TeardownView {
            prepared: None,
            packet: Some((t.prepared->0).1),
            queued: true,
            lazy_participant: None,
            ..t
        }
    } else {
        t
    }
}

/// The connection after someone took part in its end.
pub open spec fn joined(v: ConnectionView, participant: u64, ticket: u64, caller: Caller) -> (
    Option<u64>,
    ConnectionView,
) {
    let unique = number_of(v.next_unique);
    let request = fresh(
        unique,
        FUSE_DESTROY,
        packet(unique, FUSE_DESTROY, FUSE_ROOT_ID, Seq::empty(), caller),
        false,
        None,
    );
    if v.dead || v.teardown.queued {
        (None, v.advanced())
    } else {
        (
            Some(participant),
            ConnectionView {
                teardown: TeardownView {
                    prepared: if v.teardown.prepared is None {
                        Some((ticket, request))
                    } else {
                        v.teardown.prepared
                    },
                    participants: v.teardown.participants.push((participant, false)),
                    ..v.teardown
                },
                ..v.advanced()
            },
        )
    }
}

/// The connection after someone did not take part in its end after all.
pub open spec fn withdrawn(v: ConnectionView, participant: u64) -> ConnectionView {
    if !has_part(v.teardown, participant) {
        v
    } else {
        let rest = ConnectionView {
            teardown: TeardownView {
                prepared: None,
                lazy_participant: None,
                participants: Seq::empty(),
                ..v.teardown
            },
            ..v
        };
        if v.teardown.prepared is Some && v.teardown.final_unmount_seen {
            aborted(rest)
        } else {
            rest
        }
    }
}

/// Whether the last packet is on its way or can still be sent when the file system is
/// gone, and the end of the connection after it is.
pub open spec fn unmounted(v: ConnectionView, survivor: bool) -> (bool, ConnectionView) {
    let seen = TeardownView { final_unmount_seen: true, ..v.teardown };
    match v.teardown.lazy_participant {
        Some(participant) => (
            true,
            ConnectionView {
                teardown: resolved(
                    if v.dead || v.teardown.queued {
                        seen
                    } else {
                        part_done(seen, participant)
                    },
                    survivor,
                ),
                ..v
            },
        ),
        None => (
            v.teardown.prepared is Some || v.teardown.queued,
            ConnectionView { teardown: seen, ..v },
        ),
    }
}

impl Connection {
    /// Make the last packet, and take part in the end of the connection.  The result is
    /// none where it has ended already.
    pub fn prepare_destroy(&mut self, participant: u64, ticket: u64, caller: Caller) -> (result:
        Option<u64>)
        requires
            old(self).wf(),
        ensures
            final(self).wf(),
            (result, final(self)@) == joined(old(self)@, participant, ticket, caller),
    {
        let ghost v = self@;
        let unique: u64 = self.take_number();
        let body: Vec<u8> = Vec::new();
        assert(body@ =~= Seq::empty());
        let bytes: Vec<u8> = match build_request(
            unique,
            FUSE_DESTROY,
            FUSE_ROOT_ID,
            body.as_slice(),
            caller,
        ) {
            Ok(bytes) => bytes,
            Err(_) => {
                return None;
            },
        };
        if self.dead || self.teardown.queued {
            return None;
        }
        if self.teardown.prepared.is_none() {
            self.teardown.prepared = Some(
                (ticket, Request::queued(unique, FUSE_DESTROY, bytes, false, None)),
            );
        }
        self.teardown.participants.push((participant, false));
        assert(self@ =~= joined(v, participant, ticket, caller).1);
        Some(participant)
    }

    /// Note that a part in the end of the connection is done.
    pub fn commit_destroy(&mut self, participant: u64)
        requires
            old(self).wf(),
        ensures
            final(self).wf(),
            final(self)@ == (if old(self)@.dead || old(self)@.teardown.queued {
                old(self)@
            } else {
                ConnectionView {
                    teardown: part_done(old(self)@.teardown, participant),
                    ..old(self)@
                }
            }),
    {
        if self.dead || self.teardown.queued {
            return;
        }
        self.teardown.finish_part(participant);
    }

    /// Note that a part in the end of the connection is done, but that the file system is
    /// still in use.
    pub fn defer_destroy(&mut self, participant: u64)
        requires
            old(self).wf(),
        ensures
            final(self).wf(),
            final(self)@ == (ConnectionView {
                teardown: if has_part(old(self)@.teardown, participant) {
                    TeardownView {
                        lazy_participant: Some(participant),
                        ..part_done(old(self)@.teardown, participant)
                    }
                } else {
                    old(self)@.teardown
                },
                ..old(self)@
            }),
    {
        if self.teardown.finish_part(participant) {
            self.teardown.lazy_participant = Some(participant);
        }
    }

    /// Send the last packet, if everyone who has a part in the end is done and no mount
    /// of the connection is left.
    pub fn activate_destroy_if_resolved(&mut self, survivor: bool)
        requires
            old(self).wf(),
        ensures
            final(self).wf(),
            final(self)@ == (ConnectionView {
                teardown: resolved(old(self)@.teardown, survivor),
                ..old(self)@
            }),
    {
        self.teardown.resolve(survivor);
    }

    /// Whether a mount of the connection may be added.
    pub fn accepts_mount_registration(&self) -> (accepted: bool)
        ensures
            accepted == (!self@.dead && !self@.teardown.queued && self@.teardown.prepared is None),
    {
        !self.dead && !self.teardown.queued && self.teardown.prepared.is_none()
    }

    /// Take no part in the end of the connection after all.  If the file system has gone
    /// meanwhile, nothing is left that could end it: it is cut.
    pub fn cancel_destroy(&mut self, participant: u64)
        requires
            old(self).wf(),
        ensures
            final(self).wf(),
            final(self)@ == withdrawn(old(self)@, participant),
    {
        let ghost v = self@;
        if self.teardown.find_part(participant) >= self.teardown.participants.len() {
            return;
        }
        let abort = self.teardown.prepared.is_some() && self.teardown.final_unmount_seen;
        self.teardown.prepared = None;
        self.teardown.lazy_participant = None;
        self.teardown.participants.clear();
        assert(self@.teardown.participants =~= Seq::empty());
        if abort {
            self.abort();
        }
    }

    /// Whether the last packet is or was to be sent.
    pub fn destroy_queued(&self) -> (queued: bool)
        ensures
            queued == self@.teardown.queued,
    {
        self.teardown.queued
    }

    /// Note that the file system is gone.  The result says whether the last packet is on
    /// its way or can still be sent.
    pub fn activate_lazy_destroy_on_final_unmount(&mut self, survivor: bool) -> (armed: bool)
        requires
            old(self).wf(),
        ensures
            final(self).wf(),
            (armed, final(self)@) == unmounted(old(self)@, survivor),
    {
        let armed = self.teardown.prepared.is_some() || self.teardown.queued;
        self.teardown.final_unmount_seen = true;
        match self.teardown.lazy_participant {
            Some(participant) => {
                self.commit_destroy(participant);
                self.activate_destroy_if_resolved(survivor);
                true
            },
            None => armed,
        }
    }

    /// End the connection of a file system that is gone, unless its last packet does.
    pub fn unmount(&mut self, survivor: bool)
        requires
            old(self).wf(),
        ensures
            final(self).wf(),
            final(self)@ == ({
                let (armed, after) = unmounted(old(self)@, survivor);
                if armed || after.teardown.queued {
                    after
                } else {
                    aborted(after)
                }
            }),
    {
        if !self.activate_lazy_destroy_on_final_unmount(survivor) && !self.destroy_queued() {
            self.abort();
        }
    }
}

impl Teardown {
    fn find_part(&self, participant: u64) -> (at: usize)
        ensures
            at == part_at(self@.participants, participant),
            at <= self.participants@.len(),
    {
        let mut i: usize = 0;
        while i < self.participants.len()
            invariant
                i <= self.participants@.len(),
                forall|j: int| 0 <= j < i ==> (#[trigger] self.participants@[j]).0 != participant,
            decreases self.participants@.len() - i,
        {
            if self.participants[i].0 == participant {
                proof {
                    part_at_is(self.participants@, participant, i as int);
                }
                return i;
            }
            i = i + 1;
        }
        proof {
            part_at_is(self.participants@, participant, i as int);
        }
        i
    }

    fn finish_part(&mut self, participant: u64) -> (found: bool)
        ensures
            found == has_part(old(self)@, participant),
            final(self)@ == part_done(old(self)@, participant),
    {
        let at: usize = self.find_part(participant);
        if at < self.participants.len() {
            self.participants.set(at, (participant, true));
            true
        } else {
            false
        }
    }

    fn everyone_is_done(&self) -> (done: bool)
        ensures
            done == all_done(self@.participants),
    {
        let mut i: usize = 0;
        while i < self.participants.len()
            invariant
                i <= self.participants@.len(),
                forall|j: int| 0 <= j < i ==> (#[trigger] self.participants@[j]).1,
            decreases self.participants@.len() - i,
        {
            if !self.participants[i].1 {
                return false;
            }
            i = i + 1;
        }
        true
    }

    fn resolve(&mut self, survivor: bool)
        ensures
            final(self)@ == resolved(old(self)@, survivor),
    {
        let ready = self.prepared.is_some() && self.participants.len() > 0 && self.everyone_is_done()
            && (self.lazy_participant.is_none() || self.final_unmount_seen);
        if !ready || survivor {
            return;
        }
        if let Some((_, request)) = self.prepared.take() {
            self.packet = Some(request);
            self.queued = true;
            self.lazy_participant = None;
        }
    }
}

/// The last packet is the last: once the daemon has it, nothing more is read.
pub proof fn law_the_last_packet_is_the_last(v: ConnectionView, room: nat, caller: Caller)
    requires
        v.teardown.packet is Some,
    ensures
        delivered(v, Source::Destroy).dead,
        planned(delivered(v, Source::Destroy), room, caller).0 == Err::<(Seq<u8>, Source), Error>(
            Error::NoSuchDevice,
        ),
{
}

/// The last packet goes before everything else that waits.
pub proof fn law_the_last_packet_goes_first(v: ConnectionView, room: nat, caller: Caller)
    requires
        !v.dead,
        v.teardown.packet is Some,
        room >= v.teardown.packet->0.bytes.len(),
    ensures
        planned(v, room, caller).0 == Ok::<(Seq<u8>, Source), Error>(
            (v.teardown.packet->0.bytes, Source::Destroy),
        ),
{
}

} // verus!
