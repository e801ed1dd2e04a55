//! What holds of a connection as a whole.

use vstd::prelude::*;
use crate::error::Error;
use crate::fuse::connection::{aborted, delivered, interrupt_packet, interrupted, live_interrupts,
    may_interrupt, number_of, planned, submitted, taken, ConnectionView, Source};
use crate::fuse::request::{all_cancelled, awaited, cancelled, first, first_holds, first_is,
    numbered, waiting, RequestState, RequestView};
use crate::fuse::wire::{packet, Caller};

verus! {

proof fn awaited_are_kept(requests: Seq<RequestView>, i: int)
    requires
        0 <= i < requests.len(),
        requests[i].expects_reply,
    ensures
        awaited(requests).contains(requests[i]),
    decreases requests.len(),
{
    let rest = requests.drop_last();
    let all = awaited(requests);
    if i == requests.len() - 1 {
        assert(all[all.len() - 1] == requests[i]);
    } else {
        assert(rest[i] == requests[i]);
        awaited_are_kept(rest, i);
        let k = choose|k: int| 0 <= k < awaited(rest).len() && awaited(rest)[k] == requests[i];
        assert(all[k] == requests[i]);
    }
}

/// Everyone who waits when a connection is cut is answered at once.
pub proof fn law_a_cut_connection_answers_everyone(v: ConnectionView, i: int)
    requires
        !v.dead,
        0 <= i < v.requests.len(),
        v.requests[i].expects_reply,
    ensures
        taken(aborted(v), v.requests[i].unique).0 is Ok,
{
    let unique = v.requests[i].unique;
    let sealed = all_cancelled(v.requests);
    let left = awaited(sealed);
    assert(sealed[i] == cancelled(v.requests[i]));
    awaited_are_kept(sealed, i);
    let k = choose|k: int| 0 <= k < left.len() && left[k] == sealed[i];
    assert(numbered(unique)(left[k]));
    first_holds(left, numbered(unique));
}

/// A dead connection takes no request, and its daemon reads nothing.
pub proof fn law_a_dead_connection_is_silent(v: ConnectionView, room: nat, caller: Caller)
    requires
        v.dead,
    ensures
        v.refusal() == Some(Error::NoSuchDevice),
        planned(v, room, caller).0 == Err::<(Seq<u8>, Source), Error>(Error::NoSuchDevice),
{
}

/// A request that is taken reaches the daemon as it was made, once nothing else waits.
pub proof fn law_a_request_reaches_the_daemon(
    v: ConnectionView,
    opcode: u32,
    nodeid: u64,
    body: Seq<u8>,
    caller: Caller,
    delivery: Option<u64>,
    room: nat,
    reader: Caller,
)
    requires
        v.refusal() is None,
        v.teardown.packet is None,
        v.interrupts.len() == 0,
        v.forget_nodes.len() == 0,
        first(v.requests, waiting()) >= v.requests.len(),
        room >= 40 + body.len(),
        v.requests.len() <= usize::MAX,
    ensures
        planned(submitted(v, opcode, nodeid, body, caller, delivery), room, reader).0 == Ok::<
            (Seq<u8>, Source),
            Error,
        >(
            (
                packet(number_of(v.next_unique), opcode, nodeid, body, caller),
                Source::Request(v.requests.len() as usize),
            ),
        ),
{
    let after = submitted(v, opcode, nodeid, body, caller, delivery);
    let at = v.requests.len() as int;
    first_holds(v.requests, waiting());
    assert forall|j: int| 0 <= j < at implies !waiting()(#[trigger] after.requests[j]) by {
        assert(after.requests[j] == v.requests[j]);
    }
    first_is(after.requests, waiting(), at);
    assert(after.interrupts == v.interrupts);
}

/// A packet that the daemon has is not read again.
pub proof fn law_a_request_is_delivered_once(v: ConnectionView, at: usize)
    requires
        at < v.requests.len(),
        v.requests[at as int].expects_reply,
    ensures
        !waiting()(delivered(v, Source::Request(at)).requests[at as int]),
{
}

/// A task that goes away before the daemon has its request leaves nothing behind: the
/// daemon never hears of it.
pub proof fn law_an_unsent_request_vanishes(v: ConnectionView, target: u64, fatal: bool)
    requires
        may_interrupt(v, target, fatal),
        v.requests[first(v.requests, numbered(target))].state == RequestState::Queued,
    ensures
        interrupted(v, target).requests == v.requests.remove(first(v.requests, numbered(target))),
        interrupted(v, target).interrupts == v.interrupts,
{
}

/// A task that goes away after the daemon has its request leaves the request there until it
/// is answered, and has the daemon told.
pub proof fn law_a_sent_request_stays(v: ConnectionView, target: u64, fatal: bool)
    requires
        may_interrupt(v, target, fatal),
        v.requests[first(v.requests, numbered(target))].state == RequestState::Delivered,
    ensures
        interrupted(v, target).requests.len() == v.requests.len(),
        interrupted(v, target).interrupts.contains(target),
{
    first_holds(v.requests, numbered(target));
    if !v.interrupts.contains(target) {
        let told = v.interrupts.push(target);
        assert(told[told.len() - 1] == target);
    }
}

/// Once the daemon has declined interrupts, a request that it has is waited for to the
/// end, whatever the signal.
pub proof fn law_a_declined_interrupt_waits(v: ConnectionView, target: u64, fatal: bool)
    requires
        v.no_interrupt,
        first(v.requests, numbered(target)) < v.requests.len(),
        v.requests[first(v.requests, numbered(target))].state == RequestState::Delivered,
    ensures
        !may_interrupt(v, target, fatal),
{
}

/// Interrupts go before everything else, but for the last packet.
pub proof fn law_interrupts_go_first(v: ConnectionView, room: nat, caller: Caller)
    requires
        !v.dead,
        v.teardown.packet is None,
        live_interrupts(v.interrupts, v.requests).len() > 0,
        room >= 48,
    ensures
        planned(v, room, caller).0 == Ok::<(Seq<u8>, Source), Error>(
            (
                interrupt_packet(live_interrupts(v.interrupts, v.requests)[0]),
                Source::Interrupt,
            ),
        ),
{
}

/// References are given back at once where no request waits, and otherwise in short runs:
/// a run ends with its last turn, and then the requests have theirs.
pub proof fn law_forgets_yield_to_requests(v: ConnectionView, room: nat, caller: Caller)
    requires
        !v.dead,
        v.teardown.packet is None,
        live_interrupts(v.interrupts, v.requests).len() == 0,
        0 < v.forget_nodes.len() <= usize::MAX,
        room >= 64,
        v.requests.len() <= usize::MAX,
    ensures
        ({
            let at = first(v.requests, waiting());
            let (sent, after) = planned(v, room, caller);
            if at >= v.requests.len() {
                sent is Ok && (sent->Ok_0).1 is Forget && after.forget_batch == v.forget_batch
            } else {
                &&& v.forget_batch > 0 ==> sent is Ok && (sent->Ok_0).1 is Forget
                    && after.forget_batch == v.forget_batch - 1
                &&& v.forget_batch <= 0 && room >= v.requests[at].bytes.len() ==> sent == Ok::<
                    (Seq<u8>, Source),
                    Error,
                >((v.requests[at].bytes, Source::Request(at as usize)))
                &&& v.forget_batch <= 16 ==> after.forget_batch <= 16
            }
        }),
{
}

} // verus!
