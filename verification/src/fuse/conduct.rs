//! How a connection and its daemon deal with each other, told by what each side sees.

use vstd::prelude::*;
use crate::bytes::{le64, u32_at, u64_at, word64};
use crate::error::Error;
use crate::fuse::cache::CacheView;
use crate::fuse::closing::dropped;
use crate::fuse::connection::{activated, after, forgotten, given_back, idle, live_interrupts,
    number_of, planned, readiness, request_error, submitted, taken, unregistered, ConnectionView,
    Source};
use crate::fuse::creation::looked_up;
use crate::fuse::errno::{error_of, is_errno};
use crate::fuse::layout::law_a_packet_has_its_header;
use crate::fuse::metadata::EntryOut;
use crate::fuse::notice::{requeued, taken_up, NoticesView};
use crate::fuse::opening::{open_opcode, opened, released, reserved, OpenStepView, OpenedView};
use crate::fuse::poll::{entry_at, events_of, gone, hung_up, known_events, linked, nothing,
    published, unasked, without_entry, PollEntry, ReadyEvents};
use crate::fuse::replies::{answered_unique, interrupt_answered, reply_of, request_answered,
    retrieved, well_formed, written};
use crate::fuse::request::{all_cancelled, awaited, data_of, first, first_holds, held, numbered,
    waiting, ReplyView, RequestState, RequestView};
use crate::fuse::superblock::SuperblockView;
use crate::fuse::wire::{out_header, packet, Caller, OutHeader};

verus! {

/// Requests are numbered one after the other, and zero is no number.
pub proof fn law_requests_are_numbered_in_turn(next: u64)
    ensures
        number_of(next) > 0,
        next > 0 ==> number_of(next) == next,
        0 < next < u64::MAX ==> number_of(after(next)) == number_of(next) + 1,
        after(u64::MAX) == 0,
        number_of(idle().next_unique) == 1,
{
}

/// A request is found by its number: the first that has it, or none.
pub proof fn law_a_request_is_found_by_its_number(requests: Seq<RequestView>, unique: u64)
    ensures
        ({
            let at = first(requests, numbered(unique));
            &&& 0 <= at <= requests.len()
            &&& at < requests.len() ==> requests[at].unique == unique
            &&& forall|j: int| 0 <= j < at ==> (#[trigger] requests[j]).unique != unique
        }),
        ({
            let at = first(requests, waiting());
            &&& 0 <= at <= requests.len()
            &&& at < requests.len() ==> requests[at].state == RequestState::Queued
            &&& forall|j: int|
                0 <= j < at ==> (#[trigger] requests[j]).state != RequestState::Queued
        }),
        ({
            let at = first(requests, held(unique));
            &&& 0 <= at <= requests.len()
            &&& at < requests.len() ==> requests[at].unique == unique && requests[at].state
                == RequestState::Delivered && requests[at].reply is None
        }),
{
    first_holds(requests, numbered(unique));
    first_holds(requests, waiting());
    first_holds(requests, held(unique));
    let at = first(requests, numbered(unique));
    assert forall|j: int| 0 <= j < at implies (#[trigger] requests[j]).unique != unique by {
        assert(!numbered(unique)(requests[j]));
    }
    let queued = first(requests, waiting());
    assert forall|j: int| 0 <= j < queued implies (#[trigger] requests[j]).state
        != RequestState::Queued by {
        assert(!waiting()(requests[j]));
    }
}

/// When a request is taken: its packet is no longer than a packet may be, the connection
/// is alive and not at its end, and a slot is free that nobody has set aside.
pub proof fn law_when_a_request_is_taken(v: ConnectionView, body: nat)
    ensures
        (request_error(v, body) is None) == (40 + body <= 1024 * 1024 && !v.dead
            && !v.teardown.queued && v.requests.len() + v.terminal_reservations < 4096),
        40 + body > 1024 * 1024 ==> request_error(v, body) == Some(Error::InvalidInput),
        40 + body <= 1024 * 1024 && (v.dead || v.teardown.queued) ==> request_error(v, body)
            == Some(Error::NoSuchDevice),
        40 + body <= 1024 * 1024 && !v.dead && !v.teardown.queued ==> request_error(v, body)
            is None || request_error(v, body) == Some(Error::WouldBlock),
{
}

/// A request that is taken stands behind all others, which stay, and waits: with its
/// number, its packet, a reply that is owed and none that came.
pub proof fn law_a_request_stands_last(
    v: ConnectionView,
    opcode: u32,
    nodeid: u64,
    body: Seq<u8>,
    caller: Caller,
    delivery: Option<u64>,
)
    requires
        body.len() + 40 <= u32::MAX,
    ensures
        ({
            let then = submitted(v, opcode, nodeid, body, caller, delivery);
            let new = then.requests.last();
            &&& then.requests.len() == v.requests.len() + 1
            &&& then.requests.drop_last() == v.requests
            &&& new.unique == number_of(v.next_unique)
            &&& new.opcode == opcode
            &&& new.state == RequestState::Queued
            &&& new.reply is None
            &&& new.expects_reply
            &&& !new.waiter_interrupted
            &&& new.delivery == delivery
            &&& u32_at(new.bytes, 4) == opcode
            &&& u64_at(new.bytes, 8) == new.unique
            &&& u64_at(new.bytes, 16) == nodeid
            &&& new.bytes.subrange(40, new.bytes.len() as int) == body
        }),
{
    law_a_packet_has_its_header(number_of(v.next_unique), opcode, nodeid, body, caller);
    let then = submitted(v, opcode, nodeid, body, caller, delivery);
    assert(then.requests.drop_last() =~= v.requests);
}

/// What a waiter is told of its request: the reply that came, that it was cancelled, or
/// to wait.  What was told is gone, and nothing else is.
pub proof fn law_what_a_waiter_is_told(v: ConnectionView, i: int)
    requires
        0 <= i < v.requests.len(),
        forall|j: int| 0 <= j < i ==> (#[trigger] v.requests[j]).unique != v.requests[i].unique,
    ensures
        ({
            let one = v.requests[i];
            let (told, then) = taken(v, one.unique);
            &&& one.state == RequestState::Replied && one.reply is Some ==> told == Ok::<
                ReplyView,
                Error,
            >(one.reply->0)
            &&& one.state == RequestState::Cancelled ==> told == Ok::<ReplyView, Error>(
                ReplyView::Cancelled,
            )
            &&& (one.state == RequestState::Queued || one.state == RequestState::Delivered)
                && !v.dead ==> told == Err::<ReplyView, Error>(Error::WouldBlock) && then == v
            &&& told is Ok ==> then.requests == v.requests.remove(i)
            &&& then.interrupts == v.interrupts
            &&& then.notices == v.notices
        }),
{
    crate::fuse::request::first_is(v.requests, numbered(v.requests[i].unique), i);
}

/// The interrupts that are not told are those in front whose request the daemon does not
/// have; the one that is told next is of a request that it has and has not answered.
pub proof fn law_stale_interrupts_are_passed_over(interrupts: Seq<u64>, requests: Seq<RequestView>)
    ensures
        ({
            let left = live_interrupts(interrupts, requests);
            &&& left.len() <= interrupts.len()
            &&& left == interrupts.skip(interrupts.len() - left.len())
            &&& left.len() > 0 ==> exists|i: int|
                0 <= i < requests.len() && (#[trigger] requests[i]).unique == left[0]
                    && requests[i].state == RequestState::Delivered && requests[i].reply is None
            &&& forall|k: int, i: int|
                0 <= k < interrupts.len() - left.len() && 0 <= i < requests.len() ==> !(
                (#[trigger] requests[i]).unique == #[trigger] interrupts[k] && requests[i].state
                    == RequestState::Delivered && requests[i].reply is None)
        }),
    decreases interrupts.len(),
{
    let left = live_interrupts(interrupts, requests);
    if interrupts.len() > 0 {
        let rest = interrupts.drop_first();
        first_holds(requests, held(interrupts[0]));
        let at = first(requests, held(interrupts[0]));
        if at < requests.len() {
            assert(requests[at].unique == left[0]);
            assert(interrupts.skip(0) =~= interrupts);
        } else {
            law_stale_interrupts_are_passed_over(rest, requests);
            assert(rest.skip(rest.len() - left.len()) =~= interrupts.skip(
                interrupts.len() - left.len(),
            ));
            assert forall|k: int, i: int|
                0 <= k < interrupts.len() - left.len() && 0 <= i < requests.len() implies !(
            (#[trigger] requests[i]).unique == #[trigger] interrupts[k] && requests[i].state
                == RequestState::Delivered && requests[i].reply is None) by {
                if k == 0 {
                    assert(!held(interrupts[0])(requests[i]));
                } else {
                    assert(rest[k - 1] == interrupts[k]);
                }
            }
        }
    } else {
        assert(interrupts.skip(0) =~= interrupts);
    }
}

/// What a daemon may do at once: read if it would be given a packet, write as long as the
/// connection lives.
pub proof fn law_a_daemon_can_read_what_waits(v: ConnectionView, room: nat, caller: Caller)
    ensures
        planned(v, room, caller).0 is Ok ==> readiness(v).readable,
        !v.dead && !readiness(v).readable ==> planned(v, room, caller).0 == Err::<
            (Seq<u8>, Source),
            Error,
        >(Error::WouldBlock),
        readiness(v).readable ==> !v.dead,
        readiness(v).writable == !v.dead,
        readiness(v).hangup == v.dead,
        readiness(v).error == v.dead,
{
    law_stale_interrupts_are_passed_over(v.interrupts, v.requests);
    first_holds(v.requests, waiting());
}

/// A request that waits, or something that the daemon is to be told, makes its descriptor
/// readable.
pub proof fn law_a_waiting_request_makes_readable(v: ConnectionView, i: int)
    requires
        !v.dead,
    ensures
        0 <= i < v.requests.len() && v.requests[i].state == RequestState::Queued ==> readiness(
            v,
        ).readable,
        v.interrupts.len() > 0 ==> readiness(v).readable,
        v.forget_nodes.len() > 0 ==> readiness(v).readable,
        v.teardown.packet is Some ==> readiness(v).readable,
{
    first_holds(v.requests, waiting());
    if 0 <= i < v.requests.len() && v.requests[i].state == RequestState::Queued {
        if first(v.requests, waiting()) >= v.requests.len() {
            assert(!waiting()(v.requests[i]));
        }
    }
}

/// When a connection is cut every request that nothing answered is cancelled, one that was
/// answered keeps its answer, and those that nobody waits for are dropped.
pub proof fn law_a_cut_seals_every_request(requests: Seq<RequestView>, i: int)
    requires
        0 <= i < requests.len(),
    ensures
        all_cancelled(requests).len() == requests.len(),
        requests[i].reply is Some ==> all_cancelled(requests)[i] == requests[i],
        requests[i].reply is None ==> all_cancelled(requests)[i].state == RequestState::Cancelled
            && all_cancelled(requests)[i].reply == Some(ReplyView::Cancelled),
        all_cancelled(requests)[i].unique == requests[i].unique,
        all_cancelled(requests)[i].expects_reply == requests[i].expects_reply,
        awaited(requests).contains(requests[i]) == requests[i].expects_reply,
{
    awaited_holds(requests, requests[i]);
}

proof fn awaited_holds(requests: Seq<RequestView>, one: RequestView)
    ensures
        awaited(requests).contains(one) == (requests.contains(one) && one.expects_reply),
    decreases requests.len(),
{
    if requests.len() > 0 {
        let rest = requests.drop_last();
        let last = requests.last();
        awaited_holds(rest, one);
        let left = awaited(rest);
        let all = awaited(requests);
        if rest.contains(one) {
            let i = rest.index_of(one);
            assert(requests[i] == one);
        }
        if last == one {
            assert(requests[requests.len() - 1] == one);
        }
        if requests.contains(one) && last != one {
            let i = requests.index_of(one);
            assert(rest[i] == one);
        }
        if last.expects_reply {
            if left.contains(one) {
                let i = left.index_of(one);
                assert(all[i] == one);
            }
            if last == one {
                assert(all[all.len() - 1] == one);
            }
            if all.contains(one) && last != one {
                let i = all.index_of(one);
                assert(left[i] == one);
            }
        }
    }
}

/// A node is known as long as it was looked up more often than it was dropped: to look it
/// up and to drop it leaves the counts as they were.
pub proof fn law_a_lookup_is_undone_by_a_drop(
    s: SuperblockView,
    v: ConnectionView,
    at: int,
    name: Seq<u8>,
    epoch: u64,
    entry: EntryOut,
)
    requires
        v.known_nodes.contains_key(entry.nodeid) ==> 0 < v.known_nodes[entry.nodeid] < u32::MAX,
    ensures
        ({
            let known = looked_up(s, v, at, name, epoch, entry).1;
            &&& known.known_nodes.contains_key(entry.nodeid)
            &&& known.known_nodes[entry.nodeid] == 1 + (if v.known_nodes.contains_key(
                entry.nodeid,
            ) {
                v.known_nodes[entry.nodeid] as int
            } else {
                0
            })
            &&& unregistered(known, entry.nodeid).known_nodes == v.known_nodes
        }),
{
    let known = looked_up(s, v, at, name, epoch, entry).1;
    assert(unregistered(known, entry.nodeid).known_nodes =~= v.known_nodes);
}

/// To drop one node changes no other's count, and the last drop forgets it.
pub proof fn law_a_drop_counts_one_node(v: ConnectionView, nodeid: u64, other: u64)
    requires
        other != nodeid,
    ensures
        unregistered(v, nodeid).known_nodes.contains_key(other) == v.known_nodes.contains_key(
            other,
        ),
        v.known_nodes.contains_key(other) ==> unregistered(v, nodeid).known_nodes[other]
            == v.known_nodes[other],
        v.known_nodes.contains_key(nodeid) && v.known_nodes[nodeid] == 1 ==> !unregistered(
            v,
            nodeid,
        ).known_nodes.contains_key(nodeid),
        v.known_nodes.contains_key(nodeid) && v.known_nodes[nodeid] > 1 ==> unregistered(
            v,
            nodeid,
        ).known_nodes[nodeid] == v.known_nodes[nodeid] - 1,
{
}

/// A reference that is given back waits for a batch of at most so many; where the batch is
/// full it goes by itself, in a request that nobody waits for, with its count of one, if a
/// slot is free.
pub proof fn law_no_reference_is_given_back_twice(v: ConnectionView, nodeid: u64, caller: Caller)
    requires
        !v.dead,
    ensures
        ({
            let then = forgotten(v, nodeid, caller);
            &&& v.forget_nodes.len() < 256 ==> then.forget_nodes == v.forget_nodes.push(nodeid)
                && then.requests == v.requests
            &&& v.forget_nodes.len() >= 256 ==> then.forget_nodes == v.forget_nodes
            &&& v.forget_nodes.len() >= 256 && v.requests.len() + v.terminal_reservations >= 4096
                ==> then.requests == v.requests
            &&& v.forget_nodes.len() >= 256 && v.requests.len() + v.terminal_reservations < 4096
                ==> {
                let new = then.requests.last();
                &&& then.requests.len() == v.requests.len() + 1
                &&& !new.expects_reply
                &&& new.state == RequestState::Queued
                &&& u32_at(new.bytes, 4) == 2
                &&& u64_at(new.bytes, 16) == nodeid
                &&& u64_at(new.bytes, 40) == 1
                &&& new.bytes.len() == 48
            }
        }),
{
    let unique = number_of(v.next_unique);
    law_a_packet_has_its_header(unique, 2, nodeid, le64(1), caller);
    let sent = packet(unique, 2, nodeid, le64(1), caller);
    assert forall|i: int| 0 <= i < 8 implies sent[40 + i] == #[trigger] le64(1)[i] by {
        assert(sent.subrange(40, 48)[i] == sent[40 + i]);
    }
    word64(sent, 40, 1);
}

/// A slot that is given back is one less that is set aside, and none below none.
pub proof fn law_a_slot_is_given_back_once(v: ConnectionView)
    ensures
        v.terminal_reservations > 0 ==> given_back(v).terminal_reservations
            == v.terminal_reservations - 1,
        v.terminal_reservations == 0 ==> given_back(v).terminal_reservations == 0,
        given_back(v).requests == v.requests,
{
}

/// There is one last packet: the first that was to be sent, and none for a connection that
/// is dead.
pub proof fn law_there_is_one_last_packet(v: ConnectionView, one: RequestView, other: RequestView)
    ensures
        v.dead ==> activated(v, one) == v,
        !v.dead && v.teardown.packet is None ==> activated(v, one).teardown.packet == Some(one)
            && activated(v, one).teardown.queued,
        activated(activated(v, one), other) == activated(v, one),
{
}

/// What a reply gives: its bytes, the error of its number, or that the daemon is gone.
pub proof fn law_what_a_reply_gives(data: Seq<u8>, errno: i32)
    ensures
        data_of(ReplyView::Data(data)) == Ok::<Seq<u8>, Error>(data),
        data_of(ReplyView::Error(errno)) == Err::<Seq<u8>, Error>(error_of(errno)),
        data_of(ReplyView::Cancelled) == Err::<Seq<u8>, Error>(Error::NoSuchDevice),
{
}

/// The number of an error that has a name.
pub open spec fn number_of_error(error: Error) -> int {
    match error {
        Error::OperationNotPermitted => 1,
        Error::NotFound => 2,
        Error::Io => 5,
        Error::BadFileDescriptor => 9,
        Error::WouldBlock => 11,
        Error::NoMemory => 12,
        Error::PermissionDenied => 13,
        Error::BadAddress => 14,
        Error::ResourceBusy => 16,
        Error::AlreadyExists => 17,
        Error::CrossesDevices => 18,
        Error::NoSuchDevice => 19,
        Error::NotADirectory => 20,
        Error::IsADirectory => 21,
        Error::InvalidInput => 22,
        Error::NotATty => 25,
        Error::StorageFull => 28,
        Error::NameTooLong => 36,
        Error::Unsupported => 38,
        Error::DirectoryNotEmpty => 39,
        Error::FilesystemLoop => 40,
        Error::OperationNotSupported => 95,
        Error::BadState => 0,
        Error::Errno(number) => number as int,
    }
}

/// The error that a daemon chose keeps its number.  What is no error's number is an I/O
/// error.
pub proof fn law_an_error_keeps_its_number(number: i32)
    ensures
        1 <= number <= 133 && number != 41 && number != 58 ==> number_of_error(error_of(number))
            == number && is_errno(number),
        !(1 <= number <= 133) || number == 41 || number == 58 ==> error_of(number) == Error::Io,
{
}

/// Each readiness is one bit of what the daemon says.
pub proof fn law_each_readiness_is_a_bit(bits: u32)
    ensures
        ({
            let events = events_of(bits);
            &&& events.readable == ((bits / 0x1) % 2 == 1)
            &&& events.priority == ((bits / 0x2) % 2 == 1)
            &&& events.writable == ((bits / 0x4) % 2 == 1)
            &&& events.error == ((bits / 0x8) % 2 == 1)
            &&& events.hangup == ((bits / 0x10) % 2 == 1)
            &&& events.invalid == ((bits / 0x20) % 2 == 1)
            &&& events.read_normal == ((bits / 0x40) % 2 == 1)
            &&& events.read_band == ((bits / 0x80) % 2 == 1)
            &&& events.write_normal == ((bits / 0x100) % 2 == 1)
            &&& events.write_band == ((bits / 0x200) % 2 == 1)
            &&& events.message == ((bits / 0x400) % 2 == 1)
            &&& events.read_hangup == ((bits / 0x2000) % 2 == 1)
        }),
{
    assert((bits & 0x1 != 0) == ((bits / 0x1) % 2 == 1) && (bits & 0x2 != 0) == ((bits / 0x2) % 2
        == 1) && (bits & 0x4 != 0) == ((bits / 0x4) % 2 == 1) && (bits & 0x8 != 0) == ((bits / 0x8)
        % 2 == 1) && (bits & 0x10 != 0) == ((bits / 0x10) % 2 == 1) && (bits & 0x20 != 0) == ((bits
        / 0x20) % 2 == 1) && (bits & 0x40 != 0) == ((bits / 0x40) % 2 == 1) && (bits & 0x80 != 0)
        == ((bits / 0x80) % 2 == 1) && (bits & 0x100 != 0) == ((bits / 0x100) % 2 == 1) && (bits
        & 0x200 != 0) == ((bits / 0x200) % 2 == 1) && (bits & 0x400 != 0) == ((bits / 0x400) % 2
        == 1) && (bits & 0x2000 != 0) == ((bits / 0x2000) % 2 == 1)) by (bit_vector);
}

proof fn entry_is_first(polls: Seq<PollEntry>, key: u64)
    ensures
        0 <= entry_at(polls, key) <= polls.len(),
        entry_at(polls, key) < polls.len() ==> polls[entry_at(polls, key)].key == key,
        forall|j: int| 0 <= j < entry_at(polls, key) ==> (#[trigger] polls[j]).key != key,
    decreases polls.len(),
{
    if polls.len() > 0 && polls[0].key != key {
        let rest = polls.drop_first();
        entry_is_first(rest, key);
        let at = entry_at(polls, key);
        assert forall|j: int| 0 <= j < at implies (#[trigger] polls[j]).key != key by {
            if j > 0 {
                assert(rest[j - 1] == polls[j]);
            }
        }
        if at < polls.len() {
            assert(rest[at - 1] == polls[at]);
        }
    }
}

/// What the daemon says of a file is known of that file, which need not be asked about
/// again, and of no other.
pub proof fn law_an_answer_is_known_of_its_file(
    polls: Seq<PollEntry>,
    key: u64,
    events: ReadyEvents,
    i: int,
)
    requires
        0 <= i < polls.len(),
        forall|a: int, b: int|
            0 <= a < b < polls.len() ==> (#[trigger] polls[a]).key != (#[trigger] polls[b]).key,
    ensures
        published(polls, key, events).len() == polls.len(),
        polls[i].key == key ==> published(polls, key, events)[i].events == events && !published(
            polls,
            key,
            events,
        )[i].needs_query && published(polls, key, events)[i].linked == polls[i].linked,
        polls[i].key != key ==> published(polls, key, events)[i] == polls[i],
        entry_at(polls, polls[i].key) == i,
{
    entry_is_first(polls, key);
    entry_is_first(polls, polls[i].key);
    let at = entry_at(polls, polls[i].key);
    if at < i {
        assert(polls[at].key != polls[i].key);
    }
}

/// A notice is about the files of its key that notices reach, and changes nothing but that
/// they are asked about.  At the end of a connection every file shows its loss and
/// nothing else; where it was cut no notice reaches one any more.
pub proof fn law_notices_reach_their_files(polls: Seq<PollEntry>, key: u64, cut: bool, i: int)
    requires
        0 <= i < polls.len(),
    ensures
        linked(polls, key).len() == polls.len(),
        linked(polls, key)[i].needs_query == (polls[i].needs_query || (polls[i].linked
            && polls[i].key == key)),
        linked(polls, key)[i].events == polls[i].events,
        linked(polls, key)[i].linked == polls[i].linked,
        linked(polls, key)[i].key == polls[i].key,
        hung_up(polls, cut).len() == polls.len(),
        hung_up(polls, cut)[i].key == polls[i].key,
        hung_up(polls, cut)[i].needs_query,
        hung_up(polls, cut)[i].linked == (polls[i].linked && !cut),
        hung_up(polls, cut)[i].events == gone(),
        gone().error && gone().hangup,
        gone() == (ReadyEvents { error: true, hangup: true, ..nothing() }),
        !nothing().readable && !nothing().writable && !nothing().priority && !nothing().error
            && !nothing().hangup && !nothing().invalid && !nothing().read_normal
            && !nothing().read_band && !nothing().write_normal && !nothing().write_band
            && !nothing().message && !nothing().read_hangup,
{
}

/// What is opened and how it is answered: a reply of the right length names the handle and
/// its flags; one that only names a handle has it given back; one that names none ends the
/// connection; and an error gives the slot back.
pub proof fn law_an_open_reply_is_read(
    v: ConnectionView,
    directory: bool,
    packet: RequestView,
    data: Seq<u8>,
    errno: i32,
    lost: bool,
)
    requires
        !v.dead,
        v.teardown.packet is None,
        v.terminal_reservations > 0,
    ensures
        ({
            let (step, then) = opened(v, directory, packet, Ok(ReplyView::Data(data)), lost);
            &&& data.len() == 16 ==> {
                &&& step is Opened
                &&& step->Opened_0.fh == u64_at(data, 0)
                &&& step->Opened_0.open_flags == u32_at(data, 8)
                &&& step->Opened_0.directory == directory
                &&& step->Opened_0.teardown == Some(packet)
                &&& step->Opened_0.armed
                &&& step->Opened_0.reservation
                &&& then == v
            }
            &&& data.len() != 16 && data.len() >= 8 ==> step == OpenStepView::Release(
                u64_at(data, 0),
                packet,
            ) && then == v
            &&& data.len() < 8 ==> step == OpenStepView::Failed(Error::Io)
                && then.teardown.packet == Some(packet) && then.terminal_reservations
                == v.terminal_reservations - 1
        }),
        ({
            let (step, then) = opened(v, directory, packet, Ok(ReplyView::Error(errno)), lost);
            &&& step == OpenStepView::Failed(error_of(errno))
            &&& then.terminal_reservations == v.terminal_reservations - 1
            &&& then.teardown.packet is None
        }),
        open_opcode(false) == 14,
        open_opcode(true) == 27,
{
}

/// A handle that was never armed, or that was given back, changes nothing.
pub proof fn law_a_handle_is_released_once(v: ConnectionView, h: OpenedView, failed: bool)
    requires
        !h.armed,
    ensures
        released(v, h, failed) == v,
        reserved(v).requests == v.requests,
        v.terminal_reservations < usize::MAX ==> reserved(v).terminal_reservations
            == v.terminal_reservations + 1,
{
}

/// Notices are taken up in the order in which they came, one at a time, and one that was
/// put off goes first.
pub proof fn law_notices_are_taken_up_in_order(v: NoticesView)
    ensures
        ({
            let (notice, then) = taken_up(v);
            &&& v.processing is Some ==> notice is None && then == v
            &&& v.processing is None && v.deferred is Some ==> notice == Some((v.deferred->0).0)
                && then.queue == v.queue && then.deferred is None
            &&& v.processing is None && v.deferred is None && v.queue.len() > 0 ==> notice == Some(
                v.queue[0],
            ) && seq![v.queue[0]] + then.queue == v.queue
            &&& notice is Some ==> then.processing is Some && (then.processing->0).0 == notice->0
            &&& then.bytes == v.bytes
        }),
{
    if v.queue.len() > 0 {
        assert(seq![v.queue[0]] + v.queue.drop_first() =~= v.queue);
    }
}

/// A notice that comes in so many bytes is taken up to so many notices and bytes, and not
/// while another is being applied or put off.
pub proof fn law_notices_have_their_limits(v: NoticesView, bytes: nat, dead: bool)
    ensures
        v.has_room(bytes) == (v.deferred is None && v.processing is None && v.queue.len() < 1024
            && v.bytes + bytes <= 8 * 1024 * 1024),
        v.processing is Some && !dead && v.queue.len() >= 1024 ==> requeued(v, dead).queue
            == v.queue,
        v.processing is Some && !dead && v.queue.len() >= 1024 && v.deferred is None
            && (v.processing->0).1 <= 1024 * 1024 ==> requeued(v, dead).deferred == v.processing
            && requeued(v, dead).processing is None,
        v.processing is Some && !dead && v.queue.len() >= 1024 && (v.deferred is Some
            || (v.processing->0).1 > 1024 * 1024) ==> requeued(v, dead) == v,
{
}

/// The answer to an interrupt has the number of its request with the highest bit set.
pub proof fn law_an_interrupt_has_the_number_of_its_request(unique: u64)
    ensures
        answered_unique(unique) < 0x8000_0000_0000_0000,
        unique < 0x8000_0000_0000_0000 ==> answered_unique(unique) == unique,
        unique >= 0x8000_0000_0000_0000 ==> answered_unique(unique) == unique
            - 0x8000_0000_0000_0000,
{
    assert(unique & 0x7fff_ffff_ffff_ffff < 0x8000_0000_0000_0000u64 && (unique
        < 0x8000_0000_0000_0000u64 ==> unique & 0x7fff_ffff_ffff_ffff == unique) && (unique
        >= 0x8000_0000_0000_0000u64 ==> unique & 0x7fff_ffff_ffff_ffff == unique
        - 0x8000_0000_0000_0000u64)) by (bit_vector);
}

/// An answer is allowed if it is a success, or an error below the reserved numbers that
/// comes without data.
pub proof fn law_which_answers_are_allowed(header: OutHeader, payload: nat)
    ensures
        header.error == 0 ==> well_formed(header, payload),
        header.error > 0 || header.error <= -512 ==> !well_formed(header, payload),
        header.error < 0 && payload > 0 ==> !well_formed(header, payload),
        -512 < header.error < 0 && payload == 0 ==> well_formed(header, payload),
{
}

/// An answer is what the waiter gets: the data where it succeeded, and the number of the
/// error, without its sign, where not.
pub proof fn law_an_answer_is_a_reply(header: OutHeader, payload: Seq<u8>)
    requires
        well_formed(header, payload.len()),
    ensures
        header.error == 0 ==> reply_of(header, payload) == ReplyView::Data(payload),
        header.error != 0 ==> reply_of(header, payload) == ReplyView::Error(
            (0 - header.error) as i32,
        ) && 0 < reply_of(header, payload)->Error_0 < 512,
{
}

/// An answer reaches the one request of its number, which the daemon must have; nobody's
/// else changes.  A task that went away gets nothing.
pub proof fn law_an_answer_reaches_one_request(
    v: ConnectionView,
    header: OutHeader,
    payload: Seq<u8>,
    i: int,
)
    requires
        0 <= i < v.requests.len(),
        v.requests[i].unique == answered_unique(header.unique),
        forall|j: int| 0 <= j < i ==> (#[trigger] v.requests[j]).unique != v.requests[i].unique,
    ensures
        ({
            let one = v.requests[i];
            let (result, then) = request_answered(v, header, payload);
            let theirs = one.state == RequestState::Delivered && one.reply is None;
            &&& !theirs ==> result == Err::<(), Error>(Error::NotFound) && then == v
            &&& theirs ==> result is Ok
            &&& theirs && one.waiter_interrupted ==> then.requests == v.requests.remove(i)
            &&& theirs && !one.waiter_interrupted ==> {
                &&& then.requests.len() == v.requests.len()
                &&& then.requests[i].reply == Some(reply_of(header, payload))
                &&& then.requests[i].state == RequestState::Replied
                &&& then.requests[i].unique == one.unique
                &&& then.requests[i].expects_reply == one.expects_reply
                &&& forall|j: int|
                    0 <= j < v.requests.len() && j != i ==> then.requests[j] == v.requests[j]
            }
        }),
{
    crate::fuse::request::first_is(v.requests, numbered(v.requests[i].unique), i);
}

/// A daemon that does not know interrupts is sent none any more; one that is to be told
/// again is; and any other answer changes nothing.
pub proof fn law_how_an_interrupt_is_answered(v: ConnectionView, header: OutHeader, i: int)
    requires
        0 <= i < v.requests.len(),
        v.requests[i].unique == answered_unique(header.unique),
        forall|j: int| 0 <= j < i ==> (#[trigger] v.requests[j]).unique != v.requests[i].unique,
        v.requests[i].state == RequestState::Delivered,
        v.requests[i].reply is None,
    ensures
        ({
            let (result, then) = interrupt_answered(v, header, 0);
            &&& result is Ok
            &&& header.error == -38 ==> then.no_interrupt && then.interrupts == v.interrupts
            &&& header.error != -38 ==> then.no_interrupt == v.no_interrupt
            &&& header.error == -11 && !v.no_interrupt ==> then.interrupts.contains(
                v.requests[i].unique,
            )
            &&& header.error != -11 ==> then.interrupts == v.interrupts
            &&& then.requests == v.requests
        }),
        interrupt_answered(v, header, 1).0 == Err::<(), Error>(Error::InvalidInput),
{
    crate::fuse::request::first_is(v.requests, numbered(v.requests[i].unique), i);
    let then = interrupt_answered(v, header, 0).1;
    let target = v.requests[i].unique;
    if header.error == -11 && !v.no_interrupt && !v.interrupts.contains(target) {
        assert(then.interrupts[v.interrupts.len() as int] == target);
    }
}

/// A packet whose length is not the one that it names, or that is too short or too long,
/// is refused and changes nothing.
pub proof fn law_a_packet_is_as_long_as_it_says(
    v: ConnectionView,
    bytes: Seq<u8>,
    cache: Option<CacheView>,
    caller: Caller,
)
    ensures
        bytes.len() < 16 || u32_at(bytes, 0) != bytes.len() || bytes.len() > 1024 * 1024
            ==> written(v, bytes, cache, caller) == (
            Err::<(), Error>(Error::InvalidInput),
            v,
        ),
        bytes.len() >= 16 && u32_at(bytes, 0) == bytes.len() && bytes.len() <= 1024 * 1024
            && out_header(bytes).unique != 0 && well_formed(
            out_header(bytes),
            (bytes.len() - 16) as nat,
        ) && v.dead ==> written(v, bytes, cache, caller) == (
            Err::<(), Error>(Error::NoSuchDevice),
            v,
        ),
{
}

/// What a daemon gets back of a file is what is kept of each position, or nothing at all.
pub proof fn law_all_or_nothing_is_given_back(
    cache: Option<CacheView>,
    nodeid: u64,
    offset: u64,
    size: nat,
    i: int,
)
    ensures
        ({
            let data = retrieved(cache, nodeid, offset, size);
            &&& data.len() == size || data.len() == 0
            &&& cache is None ==> data.len() == 0
            &&& 0 <= i < data.len() ==> crate::fuse::ranges::byte_at(
                cache->0.ranges(nodeid),
                offset + i,
            ) == Some(data[i])
        }),
{
    let data = retrieved(cache, nodeid, offset, size);
    if 0 <= i < data.len() {
        crate::fuse::keeping::law_a_read_gives_each_position(
            cache->0.ranges(nodeid),
            offset as int,
            size,
            offset + i,
        );
    }
}

/// A node that is dropped counts one less, whether or not it is the root.
pub proof fn law_a_dropped_node_counts_less(v: ConnectionView, nodeid: u64, caller: Caller)
    requires
        v.known_nodes.contains_key(nodeid),
        v.known_nodes[nodeid] > 1,
    ensures
        dropped(v, nodeid, caller).known_nodes == v.known_nodes.insert(
            nodeid,
            (v.known_nodes[nodeid] - 1) as u32,
        ),
{
}

/// Whether no two files have one key.
pub open spec fn keyed_apart(polls: Seq<PollEntry>) -> bool {
    forall|a: int, b: int|
        0 <= a < b < polls.len() ==> (#[trigger] polls[a]).key != (#[trigger] polls[b]).key
}

/// What the daemon said of a file is known until it says that the file changed; of a file that was
/// just noted nothing is known, and a file that was forgotten is not there.
pub proof fn law_readiness_is_known_until_it_changes(
    polls: Seq<PollEntry>,
    key: u64,
    events: ReadyEvents,
    i: int,
)
    requires
        keyed_apart(polls),
        0 <= i < polls.len(),
    ensures
        polls[i].key == key ==> known_events(published(polls, key, events), key) == Some(events),
        polls[i].key == key && polls[i].linked ==> known_events(linked(polls, key), key) is None,
        polls[i].key != key ==> known_events(published(polls, key, events), polls[i].key)
            == known_events(polls, polls[i].key),
        known_events(hung_up(polls, true), polls[i].key) is None,
        unasked(key).needs_query && unasked(key).linked && unasked(key).key == key
            && unasked(key).events == nothing(),
        polls[i].key == key ==> without_entry(polls, key) == polls.remove(i),
        forall|j: int|
            0 <= j < without_entry(polls, key).len() ==> (#[trigger] without_entry(
                polls,
                key,
            )[j]).key != key,
{
    let one = polls[i].key;
    law_an_answer_is_known_of_its_file(polls, key, events, i);
    entry_is_first(polls, key);
    entry_is_first(polls, one);
    let then = published(polls, key, events);
    assert(keyed_apart(then)) by {
        assert forall|a: int, b: int| 0 <= a < b < then.len() implies (#[trigger] then[a]).key != (
        #[trigger] then[b]).key by {
            assert(polls[a].key != polls[b].key);
            assert(then[a].key == polls[a].key && then[b].key == polls[b].key);
        }
    }
    law_an_answer_is_known_of_its_file(then, key, events, i);
    let told = linked(polls, key);
    assert(keyed_apart(told)) by {
        assert forall|a: int, b: int| 0 <= a < b < told.len() implies (#[trigger] told[a]).key != (
        #[trigger] told[b]).key by {
            assert(polls[a].key != polls[b].key);
        }
    }
    law_an_answer_is_known_of_its_file(told, key, events, i);
    let lost = hung_up(polls, true);
    entry_is_first(lost, one);
    let left = without_entry(polls, key);
    let at = entry_at(polls, key);
    assert forall|j: int| 0 <= j < left.len() implies (#[trigger] left[j]).key != key by {
        if at < polls.len() && j >= at {
            assert(left[j] == polls[j + 1]);
            assert(polls[at].key != polls[j + 1].key);
        } else {
            assert(left[j] == polls[j]);
        }
    }
}

} // verus!
