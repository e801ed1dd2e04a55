//! The connection to a daemon: its queues and the state of its requests.
//!
//! Every operation of a mounted file system is one request that is kept until the
//! daemon's reply, an interrupt or the end of the connection ends it.

use vstd::prelude::*;
use std::collections::{BTreeMap, VecDeque};
use crate::bytes::{le32, le64, push_u32, push_u64};
use crate::error::Error;
use crate::fuse::notice::{Notices, NoticesView};
use crate::fuse::poll::{hang_up, hung_up, PollEntry};
use crate::fuse::request::{all_cancelled, awaited, cancel_all, find_held, find_numbered,
    find_waiting, first, fresh, held, keep_awaited, numbered, packet_of, request_views, waiting,
    FuseReply, ReplyView, Request, RequestState, RequestView};
use crate::fuse::teardown::{Teardown, TeardownView};
use crate::fuse::wire::{agreed, build_request, packet, read_init, Caller, FuseInit,
    FUSE_BATCH_FORGET, FUSE_FORGET, FUSE_INTERRUPT, FUSE_INT_REQ_BIT, MAX_REQUEST_BYTES};

verus! {

/// Requests that are kept at a time, and slots that are set aside.
pub const MAX_PENDING_REQUESTS: usize = 4096;

/// Nodes whose references wait to be given back in one packet.
pub const MAX_FORGET_NODES: usize = 256;

/// What is shared by the daemon's descriptor, the mounted file system and its open
/// files.
pub struct Connection {
    pub next_unique: u64,
    pub requests: Vec<Request>,
    /// The requests whose interrupts the daemon is to be told of, ahead of requests
    /// and forgets, but never ahead of the last packet.
    pub interrupts: VecDeque<u64>,
    /// Whether the daemon has declined interrupts for good.
    pub no_interrupt: bool,
    /// Slots set aside for last packets before an operation is sent.
    pub terminal_reservations: usize,
    pub notices: Notices,
    pub init: Option<FuseInit>,
    pub dead: bool,
    pub teardown: Teardown,
    pub forget_nodes: Vec<u64>,
    /// How much longer forgets go before requests, or how long since they did not.
    pub forget_batch: i32,
    pub polls: Vec<PollEntry>,
    pub next_poll_key: u64,
    pub known_nodes: BTreeMap<u64, u32>,
}

/// What is said of a connection.
#[verifier::ext_equal]
pub struct ConnectionView {
    pub next_unique: u64,
    pub requests: Seq<RequestView>,
    pub interrupts: Seq<u64>,
    pub no_interrupt: bool,
    pub terminal_reservations: usize,
    pub notices: NoticesView,
    pub init: Option<FuseInit>,
    pub dead: bool,
    pub teardown: TeardownView,
    pub forget_nodes: Seq<u64>,
    pub forget_batch: i32,
    pub polls: Seq<PollEntry>,
    pub next_poll_key: u64,
    pub known_nodes: Map<u64, u32>,
}

/// The connection that a descriptor starts with.
pub open spec fn idle() -> ConnectionView {
    ConnectionView {
        next_unique: 1,
        requests: Seq::empty(),
        interrupts: Seq::empty(),
        no_interrupt: false,
        terminal_reservations: 0,
        notices: NoticesView {
            queue: Seq::empty(),
            bytes: 0,
            deferred: None,
            processing: None,
        },
        init: None,
        dead: false,
        teardown: TeardownView {
            queued: false,
            prepared: None,
            lazy_participant: None,
            participants: Seq::empty(),
            final_unmount_seen: false,
            packet: None,
        },
        forget_nodes: Seq::empty(),
        forget_batch: 16,
        polls: Seq::empty(),
        next_poll_key: 1,
        known_nodes: Map::empty(),
    }
}

/// The number that the next request gets.  Zero is never one.
pub open spec fn number_of(next: u64) -> u64 {
    if next == 0 {
        1
    } else {
        next
    }
}

pub open spec fn after(next: u64) -> u64 {
    if next == u64::MAX {
        0
    } else {
        (next + 1) as u64
    }
}

pub fn number(next: u64) -> (pair: (u64, u64))
    ensures
        pair == (number_of(next), after(next)),
{
    (
        if next == 0 {
            1
        } else {
            next
        },
        if next == u64::MAX {
            0
        } else {
            next + 1
        },
    )
}

impl ConnectionView {
    /// What every operation keeps: the slots that are set aside are free, the node
    /// references that wait fit a packet, and the preference for forgets is in its
    /// cycle.
    pub open spec fn bounded(self) -> bool {
        &&& self.requests.len() + self.terminal_reservations <= MAX_PENDING_REQUESTS
        &&& self.forget_nodes.len() <= MAX_FORGET_NODES
        &&& -8 < self.forget_batch <= 16
        &&& self.interrupts.no_duplicates()
        &&& self.notices.balanced()
    }

    /// The connection after a number was taken.
    pub open spec fn advanced(self) -> ConnectionView {
        ConnectionView { next_unique: after(self.next_unique), ..self }
    }

    pub open spec fn is_full(self) -> bool {
        self.requests.len() + self.terminal_reservations >= MAX_PENDING_REQUESTS
    }

    /// Why the connection takes no request.
    pub open spec fn refusal(self) -> Option<Error> {
        if self.dead || self.teardown.queued {
            Some(Error::NoSuchDevice)
        } else if self.is_full() {
            Some(Error::WouldBlock)
        } else {
            None
        }
    }

    pub open spec fn with_request(self, request: RequestView) -> ConnectionView {
        ConnectionView { requests: self.requests.push(request), ..self }
    }
}

/// Why a request is refused.
pub open spec fn request_error(v: ConnectionView, body: nat) -> Option<Error> {
    if body + 40 > MAX_REQUEST_BYTES {
        Some(Error::InvalidInput)
    } else {
        v.refusal()
    }
}

/// The connection after a request that it takes.
pub open spec fn submitted(
    v: ConnectionView,
    opcode: u32,
    nodeid: u64,
    body: Seq<u8>,
    caller: Caller,
    delivery: Option<u64>,
) -> ConnectionView {
    let unique = number_of(v.next_unique);
    v.advanced().with_request(
        fresh(unique, opcode, packet(unique, opcode, nodeid, body, caller), true, delivery),
    )
}

/// Whether a waiter that is interrupted goes away.
pub open spec fn may_interrupt(v: ConnectionView, target: u64, fatal: bool) -> bool {
    let at = first(v.requests, numbered(target));
    !v.dead && at < v.requests.len() && match v.requests[at].state {
        RequestState::Queued => !v.no_interrupt || fatal,
        RequestState::Delivered => !v.no_interrupt,
        _ => false,
    }
}

/// The connection after a waiter was interrupted.  A request that the daemon has not
/// seen is gone; one that it has stays until it is answered, and the daemon is told
/// once.
pub open spec fn interrupted(v: ConnectionView, target: u64) -> ConnectionView {
    let at = first(v.requests, numbered(target));
    if v.requests[at].state == RequestState::Queued {
        ConnectionView { requests: v.requests.remove(at), ..v }
    } else {
        ConnectionView {
            requests: v.requests.update(
                at,
                RequestView { waiter_interrupted: true, ..v.requests[at] },
            ),
            ..v
        }.with_interrupt(target)
    }
}

impl ConnectionView {
    pub open spec fn with_interrupt(self, target: u64) -> ConnectionView {
        if self.interrupts.contains(target) {
            self
        } else {
            ConnectionView { interrupts: self.interrupts.push(target), ..self }
        }
    }
}

/// What a waiter is told, and the connection after it was.
pub open spec fn taken(v: ConnectionView, unique: u64) -> (Result<ReplyView, Error>, ConnectionView) {
    let at = first(v.requests, numbered(unique));
    if at >= v.requests.len() {
        (Err(Error::NoSuchDevice), v)
    } else {
        let rest = ConnectionView { requests: v.requests.remove(at), ..v };
        match v.requests[at].state {
            RequestState::Replied => (Ok(v.requests[at].reply->0), rest),
            RequestState::Cancelled => (Ok(ReplyView::Cancelled), rest),
            _ => if v.dead {
                (Ok(ReplyView::Cancelled), rest)
            } else {
                (Err(Error::WouldBlock), v)
            },
        }
    }
}

/// Whether every request that counts as answered has its answer.
pub open spec fn answers_kept(requests: Seq<RequestView>) -> bool {
    forall|i: int|
        0 <= i < requests.len() && (#[trigger] requests[i]).state == RequestState::Replied
            ==> requests[i].reply is Some
}

/// The interrupts without the stale ones in front.
pub open spec fn live_interrupts(interrupts: Seq<u64>, requests: Seq<RequestView>) -> Seq<u64>
    decreases interrupts.len(),
{
    if interrupts.len() == 0 || first(requests, held(interrupts[0])) < requests.len() {
        interrupts
    } else {
        live_interrupts(interrupts.drop_first(), requests)
    }
}

/// What is left of the interrupts is their end.
pub proof fn live_interrupts_suffix(interrupts: Seq<u64>, requests: Seq<RequestView>)
    ensures
        live_interrupts(interrupts, requests).len() <= interrupts.len(),
        live_interrupts(interrupts, requests) == interrupts.skip(
            interrupts.len() - live_interrupts(interrupts, requests).len(),
        ),
    decreases interrupts.len(),
{
    if interrupts.len() == 0 || first(requests, held(interrupts[0])) < requests.len() {
        assert(interrupts.skip(0) =~= interrupts);
    } else {
        let rest = interrupts.drop_first();
        live_interrupts_suffix(rest, requests);
        let kept = live_interrupts(rest, requests).len();
        assert(rest.skip(rest.len() - kept) =~= interrupts.skip(interrupts.len() - kept));
    }
}

/// The packet that tells a daemon of an interrupt.
pub open spec fn interrupt_packet(target: u64) -> Seq<u8> {
    packet(
        target | FUSE_INT_REQ_BIT,
        FUSE_INTERRUPT,
        0,
        le64(target),
        Caller { uid: 0, gid: 0, pid: 0 },
    )
}

/// Whether references are given back before a request is sent.
pub open spec fn prefers_forgets(v: ConnectionView) -> bool {
    v.forget_nodes.len() > 0 && (first(v.requests, waiting()) >= v.requests.len() || v.forget_batch
        > 0)
}

/// How the preference goes on.
pub open spec fn next_batch(v: ConnectionView) -> i32 {
    if v.forget_nodes.len() == 0 || first(v.requests, waiting()) >= v.requests.len() {
        v.forget_batch
    } else if v.forget_batch <= -7 {
        16
    } else {
        (v.forget_batch - 1) as i32
    }
}

/// The references of the first `count` nodes.
pub open spec fn forget_entries(nodes: Seq<u64>, count: nat) -> Seq<u8>
    decreases count,
{
    if count == 0 {
        Seq::empty()
    } else {
        forget_entries(nodes, (count - 1) as nat) + le64(nodes[count - 1]) + le64(1)
    }
}

pub open spec fn forget_body(nodes: Seq<u64>, count: nat) -> Seq<u8> {
    le32(count as u32) + le32(0) + forget_entries(nodes, count)
}

pub proof fn forget_entries_len(nodes: Seq<u64>, count: nat)
    ensures
        forget_entries(nodes, count).len() == 16 * count,
    decreases count,
{
    if count > 0 {
        forget_entries_len(nodes, (count - 1) as nat);
    }
}

/// How many references fit a buffer.
pub open spec fn forget_room(room: nat) -> nat {
    if room < 48 {
        0
    } else {
        ((room - 48) / 16) as nat
    }
}

/// Where a packet for the daemon comes from.
#[derive(Clone, Copy, Debug, PartialEq, Eq, Structural)]
pub enum Source {
    /// The last packet of the connection.
    Destroy,
    /// The first of the interrupts.
    Interrupt,
    /// So many of the node references.
    Forget(usize),
    /// A request.
    Request(usize),
}

/// A packet for the daemon.
pub struct Outgoing {
    pub bytes: Vec<u8>,
    pub source: Source,
}

/// What goes to a daemon that reads with `room` bytes, and the connection before that
/// is in its hands.
pub open spec fn planned(v: ConnectionView, room: nat, caller: Caller) -> (
    Result<(Seq<u8>, Source), Error>,
    ConnectionView,
) {
    let fresh_interrupts = live_interrupts(v.interrupts, v.requests);
    let pruned = ConnectionView { interrupts: fresh_interrupts, ..v };
    let yielding = ConnectionView { forget_batch: next_batch(v), ..pruned };
    let at = first(v.requests, waiting());
    if v.dead {
        (Err(Error::NoSuchDevice), v)
    } else if v.teardown.packet is Some {
        if room < v.teardown.packet->0.bytes.len() {
            (Err(Error::InvalidInput), v)
        } else {
            (Ok((v.teardown.packet->0.bytes, Source::Destroy)), v)
        }
    } else if fresh_interrupts.len() > 0 {
        if room < 48 {
            (Err(Error::InvalidInput), pruned)
        } else {
            (Ok((interrupt_packet(fresh_interrupts[0]), Source::Interrupt)), pruned)
        }
    } else if prefers_forgets(v) {
        let most = forget_room(room);
        let count = if v.forget_nodes.len() <= most {
            v.forget_nodes.len()
        } else {
            most
        };
        if most == 0 {
            (Err(Error::InvalidInput), yielding)
        } else {
            (
                Ok(
                    (
                        packet(
                            number_of(v.next_unique),
                            FUSE_BATCH_FORGET,
                            0,
                            forget_body(v.forget_nodes, count),
                            caller,
                        ),
                        Source::Forget(count as usize),
                    ),
                ),
                yielding.advanced(),
            )
        }
    } else if at >= v.requests.len() {
        (Err(Error::WouldBlock), yielding)
    } else if room < v.requests[at].bytes.len() {
        (Err(Error::InvalidInput), yielding)
    } else {
        (Ok((v.requests[at].bytes, Source::Request(at as usize))), yielding)
    }
}

/// Whether a packet may come from there.
pub open spec fn has_source(v: ConnectionView, source: Source) -> bool {
    match source {
        Source::Destroy => v.teardown.packet is Some,
        Source::Interrupt => v.interrupts.len() > 0,
        Source::Forget(count) => count <= v.forget_nodes.len(),
        Source::Request(at) => at < v.requests.len() && v.requests[at as int].state
            == RequestState::Queued,
    }
}

/// The connection after the daemon has a packet.  After the last one it is dead.
pub open spec fn delivered(v: ConnectionView, source: Source) -> ConnectionView {
    match source {
        Source::Destroy => ConnectionView {
            teardown: TeardownView { packet: None, ..v.teardown },
            dead: true,
            interrupts: Seq::empty(),
            requests: all_cancelled(v.requests),
            ..v
        },
        Source::Interrupt => ConnectionView { interrupts: v.interrupts.drop_first(), ..v },
        Source::Forget(count) => ConnectionView {
            forget_nodes: v.forget_nodes.skip(count as int),
            ..v
        },
        Source::Request(at) => ConnectionView {
            requests: if v.requests[at as int].expects_reply {
                v.requests.update(
                    at as int,
                    RequestView { state: RequestState::Delivered, ..v.requests[at as int] },
                )
            } else {
                v.requests.remove(at as int)
            },
            ..v
        },
    }
}

/// The connection after it was cut.
pub open spec fn aborted(v: ConnectionView) -> ConnectionView {
    if v.dead {
        v
    } else {
        ConnectionView {
            dead: true,
            teardown: TeardownView {
                prepared: None,
                lazy_participant: None,
                participants: Seq::empty(),
                packet: None,
                ..v.teardown
            },
            interrupts: Seq::empty(),
            notices: NoticesView {
                queue: Seq::empty(),
                bytes: 0,
                deferred: None,
                processing: None,
            },
            polls: hung_up(v.polls, true),
            requests: awaited(all_cancelled(v.requests)),
            ..v
        }
    }
}

/// What may be done with the daemon's descriptor at once.
#[derive(Clone, Copy, Debug, PartialEq, Eq, Structural)]
pub struct DaemonReadiness {
    pub readable: bool,
    pub writable: bool,
    pub hangup: bool,
    pub error: bool,
}

/// What may be done with the daemon's descriptor at once.
pub open spec fn readiness(v: ConnectionView) -> DaemonReadiness {
    DaemonReadiness {
        readable: !v.dead && (v.teardown.packet is Some || v.interrupts.len() > 0
            || v.forget_nodes.len() > 0 || first(v.requests, waiting()) < v.requests.len()),
        writable: !v.dead,
        hangup: v.dead,
        error: v.dead,
    }
}

impl Connection {
    pub open spec fn view(&self) -> ConnectionView {
        ConnectionView {
            next_unique: self.next_unique,
            requests: request_views(self.requests@),
            interrupts: self.interrupts@,
            no_interrupt: self.no_interrupt,
            terminal_reservations: self.terminal_reservations,
            notices: self.notices@,
            init: self.init,
            dead: self.dead,
            teardown: self.teardown@,
            forget_nodes: self.forget_nodes@,
            forget_batch: self.forget_batch,
            polls: self.polls@,
            next_poll_key: self.next_poll_key,
            known_nodes: self.known_nodes@,
        }
    }

    /// What every operation keeps.
    pub open spec fn wf(self) -> bool {
        self@.bounded() && answers_kept(self@.requests)
    }

    pub fn new() -> (connection: Connection)
        ensures
            connection@ == idle(),
            connection.wf(),
    {
        let connection = Connection {
            next_unique: 1,
            requests: Vec::new(),
            interrupts: VecDeque::new(),
            no_interrupt: false,
            terminal_reservations: 0,
            notices: Notices::new(),
            init: None,
            dead: false,
            teardown: Teardown::new(),
            forget_nodes: Vec::new(),
            forget_batch: 16,
            polls: Vec::new(),
            next_poll_key: 1,
            known_nodes: BTreeMap::new(),
        };
        assert(connection@ =~= idle());
        connection
    }

    /// What the daemon agreed to, if it has.
    pub fn init(&self) -> (init: Option<FuseInit>)
        ensures
            init == self@.init,
    {
        self.init
    }

    pub fn is_dead(&self) -> (dead: bool)
        ensures
            dead == self@.dead,
    {
        self.dead
    }

    fn is_full(&self) -> (full: bool)
        requires
            self@.bounded(),
        ensures
            full == self@.is_full(),
    {
        self.requests.len() + self.terminal_reservations >= MAX_PENDING_REQUESTS
    }

    /// Whether a request that must not wait would be taken.
    pub fn nowait_request_admit(&self) -> (admitted: bool)
        requires
            self.wf(),
        ensures
            admitted == (self@.refusal() is None && self@.init is Some),
    {
        !self.dead && !self.teardown.queued && self.init.is_some() && !self.is_full()
    }

    fn refusal(&self) -> (error: Option<Error>)
        requires
            self@.bounded(),
        ensures
            error == self@.refusal(),
    {
        if self.dead || self.teardown.queued {
            Some(Error::NoSuchDevice)
        } else if self.is_full() {
            Some(Error::WouldBlock)
        } else {
            None
        }
    }

    /// Take a number for a packet.
    pub fn take_number(&mut self) -> (unique: u64)
        ensures
            unique == number_of(old(self)@.next_unique),
            final(self)@ == old(self)@.advanced(),
    {
        let (unique, next) = number(self.next_unique);
        self.next_unique = next;
        unique
    }

    fn push(&mut self, request: Request)
        requires
            old(self).wf(),
            !old(self)@.is_full(),
            request@.state == RequestState::Queued,
        ensures
            final(self)@ == old(self)@.with_request(request@),
            final(self).wf(),
    {
        self.requests.push(request);
        assert(self@ =~= old(self)@.with_request(request@));
    }

    /// Queue a packet.
    pub fn enqueue(&mut self, request: Request) -> (result: Result<(), Error>)
        requires
            old(self).wf(),
            request@.state == RequestState::Queued,
        ensures
            final(self).wf(),
            match old(self)@.refusal() {
                None => result == Ok::<(), Error>(()) && final(self)@ == old(self)@.with_request(
                    request@,
                ),
                Some(error) => result == Err::<(), Error>(error) && final(self)@ == old(self)@,
            },
    {
        if let Some(error) = self.refusal() {
            return Err(error);
        }
        self.push(request);
        Ok(())
    }

    /// Take a request out.
    pub fn remove_request(&mut self, at: usize) -> (request: Request)
        requires
            old(self).wf(),
            at < old(self)@.requests.len(),
        ensures
            final(self).wf(),
            request@ == old(self)@.requests[at as int],
            final(self)@ == (ConnectionView {
                requests: old(self)@.requests.remove(at as int),
                ..old(self)@
            }),
    {
        let ghost v = self@;
        let ghost kept = self.requests@;
        assert(v.requests[at as int] == self.requests@[at as int]@);
        let request = self.requests.remove(at);
        proof {
            removal_keeps_answers(v.requests, at as int);
            assert(self@.requests =~= v.requests.remove(at as int)) by {
                assert forall|i: int| 0 <= i < self.requests@.len() implies #[trigger] self@.requests[i]
                    == v.requests.remove(at as int)[i] by {
                    if i < at {
                        assert(self.requests@[i] == kept[i]);
                    } else {
                        assert(self.requests@[i] == kept[i + 1]);
                    }
                }
            }
        }
        request
    }

    /// Queue an operation.  The result is its number, under which the reply is to be
    /// asked for.
    pub fn submit(
        &mut self,
        opcode: u32,
        nodeid: u64,
        body: &[u8],
        caller: Caller,
        delivery: Option<u64>,
    ) -> (result: Result<u64, Error>)
        requires
            old(self).wf(),
        ensures
            final(self).wf(),
            match (request_error(old(self)@, body@.len()), result) {
                (None, Ok(unique)) => unique == number_of(old(self)@.next_unique) && final(self)@
                    == submitted(old(self)@, opcode, nodeid, body@, caller, delivery),
                (Some(error), Err(got)) => got == error && final(self)@ == old(self)@.advanced(),
                _ => false,
            },
    {
        let unique: u64 = self.take_number();
        let bytes: Vec<u8> = build_request(unique, opcode, nodeid, body, caller)?;
        self.enqueue(Request::queued(unique, opcode, bytes, true, delivery))?;
        Ok(unique)
    }

    /// Set a slot aside for a last packet, and make the packet, before an operation is
    /// sent.  To send it later takes no memory and cannot fail.
    pub fn prepare_create_teardown(
        &mut self,
        opcode: u32,
        nodeid: u64,
        body: &[u8],
        caller: Caller,
    ) -> (result: Result<Request, Error>)
        requires
            old(self).wf(),
        ensures
            final(self).wf(),
            match (request_error(old(self)@, body@.len()), result) {
                (None, Ok(request)) => {
                    let unique = number_of(old(self)@.next_unique);
                    &&& request@ == fresh(
                        unique,
                        opcode,
                        packet(unique, opcode, nodeid, body@, caller),
                        false,
                        None,
                    )
                    &&& final(self)@ == (ConnectionView {
                        terminal_reservations: (old(self)@.terminal_reservations + 1) as usize,
                        ..old(self)@.advanced()
                    })
                },
                (Some(error), Err(got)) => got == error && final(self)@ == old(self)@.advanced(),
                _ => false,
            },
    {
        let unique: u64 = self.take_number();
        let bytes: Vec<u8> = build_request(unique, opcode, nodeid, body, caller)?;
        if let Some(error) = self.refusal() {
            return Err(error);
        }
        self.terminal_reservations = self.terminal_reservations + 1;
        Ok(Request::queued(unique, opcode, bytes, false, None))
    }

    /// Give a slot back.
    pub fn discard_prepared_teardown(&mut self)
        requires
            old(self).wf(),
        ensures
            final(self).wf(),
            final(self)@ == given_back(old(self)@),
    {
        if self.terminal_reservations > 0 {
            self.terminal_reservations = self.terminal_reservations - 1;
        }
    }

    /// Send a last packet whose slot was already given back.
    pub fn activate_materialized_destroy(&mut self, request: Request)
        requires
            old(self).wf(),
        ensures
            final(self).wf(),
            final(self)@ == activated(old(self)@, request@),
    {
        if !self.dead && self.teardown.packet.is_none() {
            self.teardown.queued = true;
            self.teardown.packet = Some(request);
        }
    }

    /// Send a last packet, and give its slot back.
    pub fn activate_prepared_destroy(&mut self, request: Request)
        requires
            old(self).wf(),
        ensures
            final(self).wf(),
            final(self)@ == activated(given_back(old(self)@), request@),
    {
        self.discard_prepared_teardown();
        self.activate_materialized_destroy(request);
    }

    fn interrupts_contain(&self, target: u64) -> (found: bool)
        ensures
            found == self@.interrupts.contains(target),
    {
        let mut i: usize = 0;
        while i < self.interrupts.len()
            invariant
                i <= self.interrupts@.len(),
                forall|j: int| 0 <= j < i ==> self.interrupts@[j] != target,
            decreases self.interrupts@.len() - i,
        {
            if self.interrupts[i] == target {
                return true;
            }
            i = i + 1;
        }
        false
    }

    /// Have the daemon told, once, that a request was interrupted.
    pub fn push_interrupt(&mut self, target: u64)
        requires
            old(self).wf(),
        ensures
            final(self).wf(),
            final(self)@ == old(self)@.with_interrupt(target),
    {
        if !self.interrupts_contain(target) {
            self.interrupts.push_back(target);
        }
    }

    /// Handle a signal to the task that waits for a request.  The result says whether
    /// the task goes away.
    ///
    /// A request that the daemon never saw is removed, and the daemon hears nothing.
    /// One that it has stays until it is answered.  Once the daemon has declined
    /// interrupts, such a request is waited for even under a fatal signal.
    pub fn interrupt_request(&mut self, target: u64, fatal_signal: bool) -> (gone: bool)
        requires
            old(self).wf(),
        ensures
            final(self).wf(),
            gone == may_interrupt(old(self)@, target, fatal_signal),
            final(self)@ == (if gone {
                interrupted(old(self)@, target)
            } else {
                old(self)@
            }),
    {
        if self.dead {
            return false;
        }
        let at: usize = find_numbered(&self.requests, target);
        if at >= self.requests.len() {
            return false;
        }
        let ghost before = self@;
        assert(before.requests[at as int] == self.requests@[at as int]@);
        match self.requests[at].state {
            RequestState::Queued => {
                if self.no_interrupt && !fatal_signal {
                    return false;
                }
                self.remove_request(at);
                true
            },
            RequestState::Delivered => {
                if self.no_interrupt {
                    return false;
                }
                self.requests[at].waiter_interrupted = true;
                assert(request_views(self.requests@) =~= before.requests.update(
                    at as int,
                    RequestView { waiter_interrupted: true, ..before.requests[at as int] },
                ));
                self.push_interrupt(target);
                true
            },
            _ => false,
        }
    }

    /// Interrupt a request as by a fatal signal.
    pub fn interrupt(&mut self, target: u64) -> (result: Result<(), Error>)
        requires
            old(self).wf(),
        ensures
            final(self).wf(),
            match result {
                Ok(()) => may_interrupt(old(self)@, target, true) && final(self)@ == interrupted(
                    old(self)@,
                    target,
                ),
                Err(error) => !may_interrupt(old(self)@, target, true) && error == Error::NotFound
                    && final(self)@ == old(self)@,
            },
    {
        if self.interrupt_request(target, true) {
            Ok(())
        } else {
            Err(Error::NotFound)
        }
    }

    /// Give a reference to a node back to the daemon.  The references are gathered;
    /// where too many wait, one goes in a packet of its own, and is lost if that finds
    /// no place either.
    pub fn queue_forget(&mut self, nodeid: u64, caller: Caller)
        requires
            old(self).wf(),
        ensures
            final(self).wf(),
            final(self)@ == forgotten(old(self)@, nodeid, caller),
    {
        if self.dead {
            return;
        }
        if self.forget_nodes.len() < MAX_FORGET_NODES {
            self.forget_nodes.push(nodeid);
            return;
        }
        let unique: u64 = self.take_number();
        let mut body: Vec<u8> = Vec::new();
        push_u64(&mut body, 1);
        assert(body@ =~= le64(1));
        let bytes: Vec<u8> = match build_request(
            unique,
            FUSE_FORGET,
            nodeid,
            body.as_slice(),
            caller,
        ) {
            Ok(bytes) => bytes,
            Err(_) => {
                return;
            },
        };
        if self.is_full() {
            return;
        }
        self.push(Request::queued(unique, FUSE_FORGET, bytes, false, None));
    }

    /// Ask for the reply to a request.
    pub fn take_reply(&mut self, unique: u64) -> (result: Result<FuseReply, Error>)
        requires
            old(self).wf(),
        ensures
            final(self).wf(),
            final(self)@ == taken(old(self)@, unique).1,
            match (taken(old(self)@, unique).0, result) {
                (Ok(want), Ok(got)) => got@ == want,
                (Err(want), Err(got)) => got == want,
                _ => false,
            },
    {
        let at: usize = find_numbered(&self.requests, unique);
        if at >= self.requests.len() {
            return Err(Error::NoSuchDevice);
        }
        assert(self@.requests[at as int] == self.requests@[at as int]@);
        let state = self.requests[at].state;
        if !self.dead && (state == RequestState::Queued || state == RequestState::Delivered) {
            return Err(Error::WouldBlock);
        }
        let request = self.remove_request(at);
        match state {
            RequestState::Replied => match request.reply {
                Some(reply) => Ok(reply),
                None => Ok(FuseReply::Cancelled),
            },
            _ => Ok(FuseReply::Cancelled),
        }
    }

    fn drop_stale_interrupts(&mut self)
        requires
            old(self).wf(),
        ensures
            final(self).wf(),
            final(self)@ == (ConnectionView {
                interrupts: live_interrupts(old(self)@.interrupts, old(self)@.requests),
                ..old(self)@
            }),
    {
        let ghost goal = live_interrupts(self@.interrupts, self@.requests);
        let ghost before = self@;
        loop
            invariant
                self.wf(),
                live_interrupts(self@.interrupts, self@.requests) == goal,
                self@ == (ConnectionView { interrupts: self@.interrupts, ..before }),
            ensures
                self.wf(),
                self@ == (ConnectionView { interrupts: goal, ..before }),
            decreases self.interrupts@.len(),
        {
            if self.interrupts.len() == 0 {
                break;
            }
            let target: u64 = self.interrupts[0];
            if find_held(&self.requests, target) < self.requests.len() {
                break;
            }
            let ghost kept = self.interrupts@;
            let _ = self.interrupts.pop_front();
            assert(self.interrupts@ =~= kept.drop_first());
        }
    }

    /// Whether references go before requests, and how that goes on.
    fn forget_preferred(&mut self) -> (preferred: bool)
        requires
            old(self).wf(),
        ensures
            final(self).wf(),
            preferred == prefers_forgets(old(self)@),
            final(self)@ == (ConnectionView { forget_batch: next_batch(old(self)@), ..old(self)@ }),
    {
        if self.forget_nodes.len() == 0 {
            return false;
        }
        if find_waiting(&self.requests) >= self.requests.len() {
            return true;
        }
        let send_forget = self.forget_batch > 0;
        self.forget_batch = self.forget_batch - 1;
        if !send_forget && self.forget_batch <= -8 {
            self.forget_batch = 16;
        }
        send_forget
    }

    fn forget_packet(&mut self, room: usize, caller: Caller) -> (result: Result<Outgoing, Error>)
        requires
            old(self).wf(),
            old(self)@.forget_nodes.len() > 0,
        ensures
            final(self).wf(),
            match result {
                Ok(outgoing) => {
                    let v = old(self)@;
                    let most = forget_room(room as nat);
                    let count = if v.forget_nodes.len() <= most {
                        v.forget_nodes.len()
                    } else {
                        most
                    };
                    &&& most > 0
                    &&& outgoing.source == Source::Forget(count as usize)
                    &&& outgoing.bytes@ == packet(
                        number_of(v.next_unique),
                        FUSE_BATCH_FORGET,
                        0,
                        forget_body(v.forget_nodes, count),
                        caller,
                    )
                    &&& final(self)@ == v.advanced()
                },
                Err(error) => forget_room(room as nat) == 0 && error == Error::InvalidInput
                    && final(self)@ == old(self)@,
            },
    {
        let most: usize = if room < 48 {
            0
        } else {
            (room - 48) / 16
        };
        if most == 0 {
            return Err(Error::InvalidInput);
        }
        let count: usize = if self.forget_nodes.len() <= most {
            self.forget_nodes.len()
        } else {
            most
        };
        let mut body: Vec<u8> = Vec::new();
        push_u32(&mut body, count as u32);
        push_u32(&mut body, 0);
        assert(body@ =~= le32(count as u32) + le32(0) + forget_entries(self.forget_nodes@, 0));
        let mut i: usize = 0;
        while i < count
            invariant
                i <= count <= self.forget_nodes@.len(),
                body@ == le32(count as u32) + le32(0) + forget_entries(
                    self.forget_nodes@,
                    i as nat,
                ),
            decreases count - i,
        {
            push_u64(&mut body, self.forget_nodes[i]);
            push_u64(&mut body, 1);
            i = i + 1;
            assert(body@ =~= le32(count as u32) + le32(0) + forget_entries(
                self.forget_nodes@,
                i as nat,
            ));
        }
        proof {
            forget_entries_len(self.forget_nodes@, count as nat);
        }
        let unique: u64 = self.take_number();
        let bytes: Vec<u8> = build_request(unique, FUSE_BATCH_FORGET, 0, body.as_slice(), caller)?;
        Ok(Outgoing { bytes, source: Source::Forget(count) })
    }

    /// Choose the packet that a daemon that reads with `room` bytes gets.  It counts as
    /// delivered only when [`Connection::delivered`] is told so.
    pub fn next_packet(&mut self, room: usize, caller: Caller) -> (result: Result<Outgoing, Error>)
        requires
            old(self).wf(),
        ensures
            final(self).wf(),
            final(self)@ == planned(old(self)@, room as nat, caller).1,
            match (planned(old(self)@, room as nat, caller).0, result) {
                (Ok(want), Ok(got)) => got.bytes@ == want.0 && got.source == want.1 && has_source(
                    final(self)@,
                    want.1,
                ) && got.bytes@.len() <= room,
                (Err(want), Err(got)) => got == want,
                _ => false,
            },
    {
        if self.dead {
            return Err(Error::NoSuchDevice);
        }
        let ghost v = self@;
        if let Some(request) = &self.teardown.packet {
            if room < request.bytes.len() {
                return Err(Error::InvalidInput);
            }
            return Ok(Outgoing { bytes: packet_of(request), source: Source::Destroy });
        }
        self.drop_stale_interrupts();
        if self.interrupts.len() > 0 {
            if room < 48 {
                return Err(Error::InvalidInput);
            }
            let target: u64 = self.interrupts[0];
            let mut body: Vec<u8> = Vec::new();
            push_u64(&mut body, target);
            assert(body@ =~= le64(target));
            let bytes: Vec<u8> = build_request(
                target | FUSE_INT_REQ_BIT,
                FUSE_INTERRUPT,
                0,
                body.as_slice(),
                Caller { uid: 0, gid: 0, pid: 0 },
            )?;
            return Ok(Outgoing { bytes, source: Source::Interrupt });
        }
        if self.forget_preferred() {
            proof {
                let most = forget_room(room as nat);
                let count = if v.forget_nodes.len() <= most {
                    v.forget_nodes.len()
                } else {
                    most
                };
                forget_entries_len(v.forget_nodes, count);
            }
            return self.forget_packet(room, caller);
        }
        let at: usize = find_waiting(&self.requests);
        if at >= self.requests.len() {
            return Err(Error::WouldBlock);
        }
        assert(v.requests[at as int] == self.requests@[at as int]@);
        if room < self.requests[at].bytes.len() {
            return Err(Error::InvalidInput);
        }
        Ok(Outgoing { bytes: packet_of(&self.requests[at]), source: Source::Request(at) })
    }

    /// Note that the daemon has a packet.  The result is the ticket of the one who is to
    /// know.
    pub fn delivered(&mut self, source: Source) -> (ticket: Option<u64>)
        requires
            old(self).wf(),
            has_source(old(self)@, source),
        ensures
            final(self).wf(),
            final(self)@ == delivered(old(self)@, source),
            ticket == (match source {
                Source::Request(at) => old(self)@.requests[at as int].delivery,
                _ => None,
            }),
    {
        let ghost v = self@;
        match source {
            Source::Destroy => {
                self.teardown.packet = None;
                self.dead = true;
                self.interrupts.clear();
                cancel_all(&mut self.requests);
                assert(self@ =~= delivered(v, source));
                None
            },
            Source::Interrupt => {
                let _ = self.interrupts.pop_front();
                assert(self@.interrupts =~= v.interrupts.drop_first());
                None
            },
            Source::Forget(count) => {
                let mut i: usize = 0;
                assert(self.forget_nodes@ =~= v.forget_nodes.skip(0));
                while i < count
                    invariant
                        i <= count <= v.forget_nodes.len(),
                        self.forget_nodes@ == v.forget_nodes.skip(i as int),
                        self@ == (ConnectionView { forget_nodes: self.forget_nodes@, ..v }),
                    decreases count - i,
                {
                    self.forget_nodes.remove(0);
                    i = i + 1;
                    assert(self.forget_nodes@ =~= v.forget_nodes.skip(i as int));
                }
                None
            },
            Source::Request(at) => {
                assert(v.requests[at as int] == self.requests@[at as int]@);
                let ticket: Option<u64> = self.requests[at].delivery;
                if self.requests[at].expects_reply {
                    self.requests[at].state = RequestState::Delivered;
                    assert(self@.requests =~= delivered(v, source).requests);
                } else {
                    self.remove_request(at);
                }
                ticket
            },
        }
    }

    /// Cut the connection.  Everyone who waits is told; packets that nobody waits for
    /// are dropped, so that a dead file system keeps none of a daemon's bytes.
    pub fn abort(&mut self)
        requires
            old(self).wf(),
        ensures
            final(self).wf(),
            final(self)@ == aborted(old(self)@),
    {
        if self.dead {
            return;
        }
        let ghost v = self@;
        self.dead = true;
        self.teardown.abandon();
        self.interrupts.clear();
        self.notices = Notices::new();
        hang_up(&mut self.polls, true);
        cancel_all(&mut self.requests);
        keep_awaited(&mut self.requests);
        proof {
            awaited_keeps_answers(all_cancelled(v.requests));
            assert(self@ =~= aborted(v));
        }
    }

    /// Take the daemon's answer to the first request.
    pub fn finish_negotiation(&mut self, reply: &[u8]) -> (result: Result<FuseInit, Error>)
        requires
            old(self).wf(),
        ensures
            final(self).wf(),
            result == (match agreed(reply@) {
                Ok(init) => if old(self)@.dead {
                    Err(Error::NoSuchDevice)
                } else {
                    Ok(init)
                },
                Err(error) => Err(error),
            }),
            final(self)@ == (match result {
                Ok(init) => ConnectionView { init: Some(init), ..old(self)@ },
                Err(_) => old(self)@,
            }),
    {
        let init = read_init(reply)?;
        if self.dead {
            return Err(Error::NoSuchDevice);
        }
        self.init = Some(init);
        Ok(init)
    }

    /// What may be done with the daemon's descriptor at once.
    pub fn poll(&self) -> (ready: DaemonReadiness)
        ensures
            ready == readiness(self@),
    {
        let readable = !self.dead && (self.teardown.packet.is_some() || self.interrupts.len() > 0
            || self.forget_nodes.len() > 0 || find_waiting(&self.requests) < self.requests.len());
        DaemonReadiness {
            readable,
            writable: !self.dead,
            hangup: self.dead,
            error: self.dead,
        }
    }

    /// Count a node that the kernel knows of.
    pub fn register_node(&mut self, nodeid: u64)
        requires
            old(self).wf(),
            old(self)@.known_nodes.contains_key(nodeid) ==> old(self)@.known_nodes[nodeid]
                < u32::MAX,
        ensures
            final(self).wf(),
            final(self)@ == (ConnectionView {
                known_nodes: old(self)@.known_nodes.insert(
                    nodeid,
                    if old(self)@.known_nodes.contains_key(nodeid) {
                        (old(self)@.known_nodes[nodeid] + 1) as u32
                    } else {
                        1
                    },
                ),
                ..old(self)@
            }),
    {
        let count: u32 = match self.known_nodes.get(&nodeid) {
            Some(count) => *count,
            None => 0,
        };
        self.known_nodes.insert(nodeid, count + 1);
    }

    /// Uncount a node.  The last one makes it unknown.
    pub fn unregister_node(&mut self, nodeid: u64)
        requires
            old(self).wf(),
            old(self)@.known_nodes.contains_key(nodeid) ==> old(self)@.known_nodes[nodeid] > 0,
        ensures
            final(self).wf(),
            final(self)@ == unregistered(old(self)@, nodeid),
    {
        let count: u32 = match self.known_nodes.get(&nodeid) {
            Some(count) => *count,
            None => {
                return;
            },
        };
        if count == 1 {
            self.known_nodes.remove(&nodeid);
        } else {
            self.known_nodes.insert(nodeid, count - 1);
        }
    }
}

/// The connection after a node was uncounted.
pub open spec fn unregistered(v: ConnectionView, nodeid: u64) -> ConnectionView {
    ConnectionView {
        known_nodes: if !v.known_nodes.contains_key(nodeid) {
            v.known_nodes
        } else if v.known_nodes[nodeid] == 1 {
            v.known_nodes.remove(nodeid)
        } else {
            v.known_nodes.insert(nodeid, (v.known_nodes[nodeid] - 1) as u32)
        },
        ..v
    }
}

/// The connection after a slot was given back.
pub open spec fn given_back(v: ConnectionView) -> ConnectionView {
    ConnectionView {
        terminal_reservations: if v.terminal_reservations > 0 {
            (v.terminal_reservations - 1) as usize
        } else {
            0
        },
        ..v
    }
}

/// The connection after a last packet was to be sent.  There is only one, and none for
/// a dead connection.
pub open spec fn activated(v: ConnectionView, request: RequestView) -> ConnectionView {
    if v.dead || v.teardown.packet is Some {
        v
    } else {
        ConnectionView {
            teardown: TeardownView { queued: true, packet: Some(request), ..v.teardown },
            ..v
        }
    }
}

/// The connection after a reference to a node was given back.
pub open spec fn forgotten(v: ConnectionView, nodeid: u64, caller: Caller) -> ConnectionView {
    let unique = number_of(v.next_unique);
    if v.dead {
        v
    } else if v.forget_nodes.len() < MAX_FORGET_NODES {
        ConnectionView { forget_nodes: v.forget_nodes.push(nodeid), ..v }
    } else if v.is_full() {
        v.advanced()
    } else {
        v.advanced().with_request(
            fresh(
                unique,
                FUSE_FORGET,
                packet(unique, FUSE_FORGET, nodeid, le64(1), caller),
                false,
                None,
            ),
        )
    }
}

proof fn removal_keeps_answers(requests: Seq<RequestView>, at: int)
    requires
        answers_kept(requests),
        0 <= at < requests.len(),
    ensures
        answers_kept(requests.remove(at)),
{
    let rest = requests.remove(at);
    assert forall|i: int| 0 <= i < rest.len() && (#[trigger] rest[i]).state
        == RequestState::Replied implies rest[i].reply is Some by {
        if i < at {
            assert(rest[i] == requests[i]);
        } else {
            assert(rest[i] == requests[i + 1]);
        }
    }
}

proof fn awaited_keeps_answers(requests: Seq<RequestView>)
    requires
        answers_kept(requests),
    ensures
        answers_kept(awaited(requests)),
        awaited(requests).len() <= requests.len(),
    decreases requests.len(),
{
    if requests.len() > 0 {
        let rest = requests.drop_last();
        assert forall|i: int| 0 <= i < rest.len() && (#[trigger] rest[i]).state
            == RequestState::Replied implies rest[i].reply is Some by {
            assert(rest[i] == requests[i]);
        }
        awaited_keeps_answers(rest);
    }
}

} // verus!
