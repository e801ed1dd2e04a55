//! What is known of the readiness of open files.

use vstd::prelude::*;
use crate::error::Error;
use crate::fuse::bodies::{count_of, read_count};
use crate::fuse::connection::{after, number, number_of, Connection, ConnectionView};

verus! {

/// What an open file is ready for.
#[derive(Clone, Copy, Debug, PartialEq, Eq, Structural)]
pub struct ReadyEvents {
    pub readable: bool,
    pub priority: bool,
    pub writable: bool,
    pub error: bool,
    pub hangup: bool,
    pub invalid: bool,
    pub read_normal: bool,
    pub read_band: bool,
    pub write_normal: bool,
    pub write_band: bool,
    pub message: bool,
    pub read_hangup: bool,
}

pub open spec fn nothing() -> ReadyEvents {
    ReadyEvents {
        readable: false,
        priority: false,
        writable: false,
        error: false,
        hangup: false,
        invalid: false,
        read_normal: false,
        read_band: false,
        write_normal: false,
        write_band: false,
        message: false,
        read_hangup: false,
    }
}

pub open spec fn gone() -> ReadyEvents {
    ReadyEvents { error: true, hangup: true, ..nothing() }
}

/// What is known of the readiness of an open file.
#[derive(Clone, Copy, Debug, PartialEq, Eq, Structural)]
pub struct PollEntry {
    pub key: u64,
    pub events: ReadyEvents,
    /// Whether the daemon is to be asked again.
    pub needs_query: bool,
    /// Whether the daemon's notices reach it.
    pub linked: bool,
}

/// An entry that the daemon is to be asked about, if notices reach it.
pub open spec fn stale(entry: PollEntry, key: u64) -> PollEntry {
    if entry.key == key && entry.linked {
        PollEntry { needs_query: true, ..entry }
    } else {
        entry
    }
}

/// The entries after the daemon said that a file changed.
pub open spec fn linked(polls: Seq<PollEntry>, key: u64) -> Seq<PollEntry> {
    Seq::new(polls.len(), |i: int| stale(polls[i], key))
}

/// The entries after the connection ended, and whether notices no longer reach them.
pub open spec fn hung_up(polls: Seq<PollEntry>, cut: bool) -> Seq<PollEntry> {
    Seq::new(
        polls.len(),
        |i: int|
            PollEntry {
                events: gone(),
                needs_query: true,
                linked: polls[i].linked && !cut,
                ..polls[i]
            },
    )
}

/// Mark the entries as of a connection that ended.
pub fn hang_up(polls: &mut Vec<PollEntry>, cut: bool)
    ensures
        final(polls)@ == hung_up(old(polls)@, cut),
{
    let mut i: usize = 0;
    while i < polls.len()
        invariant
            i <= polls@.len(),
            polls@.len() == old(polls)@.len(),
            forall|j: int| 0 <= j < i ==> #[trigger] polls@[j] == hung_up(old(polls)@, cut)[j],
            forall|j: int| i <= j < polls@.len() ==> #[trigger] polls@[j] == old(polls)@[j],
        decreases polls@.len() - i,
    {
        let entry: PollEntry = polls[i];
        polls.set(
            i,
            PollEntry {
                key: entry.key,
                events: ReadyEvents {
                    readable: false,
                    priority: false,
                    writable: false,
                    error: true,
                    hangup: true,
                    invalid: false,
                    read_normal: false,
                    read_band: false,
                    write_normal: false,
                    write_band: false,
                    message: false,
                    read_hangup: false,
                },
                needs_query: true,
                linked: entry.linked && !cut,
            },
        );
        i = i + 1;
    }
    assert(polls@ =~= hung_up(old(polls)@, cut));
}

/// Mark the entry of a key as one that the daemon is to be asked about.
pub fn invalidate(polls: &mut Vec<PollEntry>, key: u64)
    ensures
        final(polls)@ == linked(old(polls)@, key),
{
    let mut i: usize = 0;
    while i < polls.len()
        invariant
            i <= polls@.len(),
            polls@.len() == old(polls)@.len(),
            forall|j: int| 0 <= j < i ==> #[trigger] polls@[j] == stale(old(polls)@[j], key),
            forall|j: int| i <= j < polls@.len() ==> #[trigger] polls@[j] == old(polls)@[j],
        decreases polls@.len() - i,
    {
        let entry: PollEntry = polls[i];
        if entry.key == key && entry.linked {
            polls.set(
                i,
                PollEntry {
                    key: entry.key,
                    events: entry.events,
                    needs_query: true,
                    linked: entry.linked,
                },
            );
        }
        i = i + 1;
    }
    assert(polls@ =~= linked(old(polls)@, key));
}

pub const POLLIN: u32 = 0x1;

pub const POLLPRI: u32 = 0x2;

pub const POLLOUT: u32 = 0x4;

pub const POLLERR: u32 = 0x8;

pub const POLLHUP: u32 = 0x10;

pub const POLLNVAL: u32 = 0x20;

pub const POLLRDNORM: u32 = 0x40;

pub const POLLRDBAND: u32 = 0x80;

pub const POLLWRNORM: u32 = 0x100;

pub const POLLWRBAND: u32 = 0x200;

pub const POLLMSG: u32 = 0x400;

pub const POLLRDHUP: u32 = 0x2000;

/// What the poll bits of a daemon say.
pub open spec fn events_of(bits: u32) -> ReadyEvents {
    ReadyEvents {
        readable: bits & POLLIN != 0,
        priority: bits & POLLPRI != 0,
        writable: bits & POLLOUT != 0,
        error: bits & POLLERR != 0,
        hangup: bits & POLLHUP != 0,
        invalid: bits & POLLNVAL != 0,
        read_normal: bits & POLLRDNORM != 0,
        read_band: bits & POLLRDBAND != 0,
        write_normal: bits & POLLWRNORM != 0,
        write_band: bits & POLLWRBAND != 0,
        message: bits & POLLMSG != 0,
        read_hangup: bits & POLLRDHUP != 0,
    }
}

/// Read the poll bits of a daemon.
pub fn read_events(bits: u32) -> (events: ReadyEvents)
    ensures
        events == events_of(bits),
{
    ReadyEvents {
        readable: bits & POLLIN != 0,
        priority: bits & POLLPRI != 0,
        writable: bits & POLLOUT != 0,
        error: bits & POLLERR != 0,
        hangup: bits & POLLHUP != 0,
        invalid: bits & POLLNVAL != 0,
        read_normal: bits & POLLRDNORM != 0,
        read_band: bits & POLLRDBAND != 0,
        write_normal: bits & POLLWRNORM != 0,
        write_band: bits & POLLWRBAND != 0,
        message: bits & POLLMSG != 0,
        read_hangup: bits & POLLRDHUP != 0,
    }
}

/// Where the entry of a key stands, or the length where there is none.
pub open spec fn entry_at(polls: Seq<PollEntry>, key: u64) -> int
    decreases polls.len(),
{
    if polls.len() == 0 {
        0
    } else if polls[0].key == key {
        0
    } else {
        1 + entry_at(polls.drop_first(), key)
    }
}

proof fn entry_at_is(polls: Seq<PollEntry>, key: u64, i: int)
    requires
        0 <= i <= polls.len(),
        forall|j: int| 0 <= j < i ==> (#[trigger] polls[j]).key != key,
        i < polls.len() ==> polls[i].key == key,
    ensures
        entry_at(polls, key) == i,
    decreases polls.len(),
{
    if i > 0 {
        let rest = polls.drop_first();
        assert(polls[0].key != key);
        assert forall|j: int| 0 <= j < i - 1 implies (#[trigger] rest[j]).key != key by {
            assert(rest[j] == polls[j + 1]);
        }
        if i < polls.len() {
            assert(rest[i - 1] == polls[i]);
        }
        entry_at_is(rest, key, i - 1);
    }
}

fn find_entry(polls: &Vec<PollEntry>, key: u64) -> (at: usize)
    ensures
        at == entry_at(polls@, key),
        at <= polls@.len(),
        at < polls@.len() ==> polls@[at as int].key == key,
{
    let mut i: usize = 0;
    while i < polls.len()
        invariant
            i <= polls@.len(),
            forall|j: int| 0 <= j < i ==> (#[trigger] polls@[j]).key != key,
        decreases polls@.len() - i,
    {
        if polls[i].key == key {
            proof {
                entry_at_is(polls@, key, i as int);
            }
            return i;
        }
        i = i + 1;
    }
    proof {
        entry_at_is(polls@, key, i as int);
    }
    i
}

/// The entries after what is known of a key's has changed.
pub open spec fn published(polls: Seq<PollEntry>, key: u64, events: ReadyEvents) -> Seq<PollEntry> {
    let at = entry_at(polls, key);
    if at < polls.len() {
        polls.update(at, PollEntry { events, needs_query: false, ..polls[at] })
    } else {
        polls
    }
}

/// The entry that a file starts with.
pub open spec fn unasked(key: u64) -> PollEntry {
    PollEntry { key, events: nothing(), needs_query: true, linked: true }
}

/// The entries without that of a key.
pub open spec fn without_entry(polls: Seq<PollEntry>, key: u64) -> Seq<PollEntry> {
    if entry_at(polls, key) < polls.len() {
        polls.remove(entry_at(polls, key))
    } else {
        polls
    }
}

/// What is known of a key's readiness without asking.
pub open spec fn known_events(polls: Seq<PollEntry>, key: u64) -> Option<ReadyEvents> {
    let at = entry_at(polls, key);
    if at < polls.len() && !polls[at].needs_query {
        Some(polls[at].events)
    } else {
        None
    }
}

impl Connection {
    /// Note an open file that may be polled.  The result is its key.
    pub fn register_poll(&mut self) -> (key: u64)
        requires
            old(self).wf(),
        ensures
            final(self).wf(),
            key == number_of(old(self)@.next_poll_key),
            final(self)@ == (ConnectionView {
                polls: old(self)@.polls.push(unasked(key)),
                next_poll_key: after(old(self)@.next_poll_key),
                ..old(self)@
            }),
    {
        let (key, next) = number(self.next_poll_key);
        self.next_poll_key = next;
        self.polls.push(
            PollEntry { key, events: read_events(0), needs_query: true, linked: true },
        );
        proof {
            no_events();
        }
        key
    }

    /// Forget an open file.
    pub fn unregister_poll(&mut self, key: u64)
        requires
            old(self).wf(),
        ensures
            final(self).wf(),
            final(self)@ == (ConnectionView {
                polls: without_entry(old(self)@.polls, key),
                ..old(self)@
            }),
    {
        let at: usize = find_entry(&self.polls, key);
        if at < self.polls.len() {
            self.polls.remove(at);
        }
    }

    /// What is known of the readiness of an open file, if the daemon need not be asked.
    pub fn known_readiness(&self, key: u64) -> (events: Option<ReadyEvents>)
        ensures
            events == known_events(self@.polls, key),
    {
        let at: usize = find_entry(&self.polls, key);
        if at < self.polls.len() && !self.polls[at].needs_query {
            Some(self.polls[at].events)
        } else {
            None
        }
    }

    /// Take the daemon's answer about the readiness of an open file.
    pub fn finish_poll(&mut self, key: u64, reply: &[u8]) -> (result: Result<ReadyEvents, Error>)
        requires
            old(self).wf(),
        ensures
            final(self).wf(),
            match count_of(reply@) {
                Ok(bits) => result == Ok::<ReadyEvents, Error>(events_of(bits)) && final(self)@ == (
                ConnectionView {
                    polls: published(old(self)@.polls, key, events_of(bits)),
                    ..old(self)@
                }),
                Err(error) => result == Err::<ReadyEvents, Error>(error) && final(self)@
                    == old(self)@,
            },
    {
        let bits: u32 = read_count(reply)?;
        let events = read_events(bits);
        let at: usize = find_entry(&self.polls, key);
        if at < self.polls.len() {
            let mut entry: PollEntry = self.polls[at];
            entry.events = events;
            entry.needs_query = false;
            self.polls.set(at, entry);
        }
        Ok(events)
    }
}

proof fn no_events()
    ensures
        events_of(0) == nothing(),
{
    assert(0u32 & 0x1 == 0 && 0u32 & 0x2 == 0 && 0u32 & 0x4 == 0 && 0u32 & 0x8 == 0 && 0u32 & 0x10 == 0 && 0u32 & 0x20 == 0 && 0u32 & 0x40 == 0 && 0u32 & 0x80 == 0 && 0u32 & 0x100 == 0 && 0u32 & 0x200 == 0 && 0u32 & 0x400 == 0 && 0u32 & 0x2000 == 0) by (bit_vector);
}

/// After a daemon says that a file changed, it is asked again.
pub proof fn law_a_change_is_asked_about(polls: Seq<PollEntry>, key: u64, i: int)
    requires
        0 <= i < polls.len(),
        polls[i].key == key,
        polls[i].linked,
    ensures
        linked(polls, key)[i].needs_query,
{
}

} // verus!
