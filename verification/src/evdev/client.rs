//! The state of one open event file: its queue, its masks and its clock.

use vstd::prelude::*;
use std::collections::{BTreeMap, VecDeque};
use crate::error::Error;
use crate::evdev::bits::{bit_is_set, has_bit};
use crate::evdev::event::{codes_of, input_event, numbered_type, push_input_event, EvdevClock,
    EvdevRecord, Event, EventType, EV_SYN, INPUT_EVENT_SIZE, SYN_DROPPED};

verus! {

/// Records that a queue holds.
pub const EVDEV_CLIENT_QUEUE_EVENTS: usize = 256;

/// What a client goes by of its device.
#[derive(Clone, Copy, Debug, PartialEq, Eq, Structural)]
pub struct DeviceStatus {
    pub disconnected: bool,
    pub paused: bool,
    pub lease: u64,
}

/// The state of an open file.  It is apart from the device's, so that masks, clock,
/// readiness, overflow and grabs last as long as the open file and not the node.
pub struct EvdevClient {
    pub id: u64,
    /// The session in which it was opened.
    pub lease: u64,
    pub revoked: bool,
    pub queue: VecDeque<EvdevRecord>,
    pub clock: EvdevClock,
    pub masks: BTreeMap<u16, Vec<u8>>,
    /// Whether records were lost since the last one that was queued.
    pub overflowed: bool,
}

/// What is said of an open file.
#[verifier::ext_equal]
pub struct ClientView {
    pub id: u64,
    pub lease: u64,
    pub revoked: bool,
    pub queue: Seq<EvdevRecord>,
    pub clock: EvdevClock,
    pub masks: Map<u16, Seq<u8>>,
    pub overflowed: bool,
}

/// Whether a mask lets an event through.  A class without a mask is let through
/// whole.
pub open spec fn accepts(masks: Map<u16, Seq<u8>>, event: Event) -> bool {
    event.event_type == EV_SYN || !masks.contains_key(event.event_type) || has_bit(
        masks[event.event_type],
        event.code as int,
    )
}

/// The records of the first `n` of a frame that the masks let through.
pub open spec fn accepted(masks: Map<u16, Seq<u8>>, frame: Seq<EvdevRecord>, n: nat) -> Seq<
    EvdevRecord,
>
    decreases n,
{
    if n == 0 {
        Seq::empty()
    } else {
        let rest = accepted(masks, frame, (n - 1) as nat);
        if accepts(masks, frame[n - 1].event) {
            rest.push(frame[n - 1])
        } else {
            rest
        }
    }
}

/// The record that tells a reader of lost ones, with the times of `at`.
pub open spec fn dropped(at: EvdevRecord) -> EvdevRecord {
    EvdevRecord { event: Event { event_type: EV_SYN, code: SYN_DROPPED, value: 0 }, ..at }
}

/// A client after a frame was handed to it.
pub open spec fn enqueued(c: ClientView, frame: Seq<EvdevRecord>) -> ClientView {
    let kept = accepted(c.masks, frame, frame.len());
    let needed = kept.len() + if c.overflowed {
        1nat
    } else {
        0nat
    };
    if kept.len() == 0 {
        c
    } else if c.queue.len() + needed > EVDEV_CLIENT_QUEUE_EVENTS {
        lost(c)
    } else {
        ClientView {
            queue: c.queue + (if c.overflowed {
                seq![dropped(frame[0])]
            } else {
                Seq::empty()
            }) + kept,
            overflowed: false,
            ..c
        }
    }
}

/// A client whose queue could not take a frame.
pub open spec fn lost(c: ClientView) -> ClientView {
    ClientView { queue: Seq::empty(), overflowed: true, ..c }
}

/// A client that lost its device.
pub open spec fn revoked(c: ClientView) -> ClientView {
    ClientView { queue: Seq::empty(), revoked: true, ..c }
}

/// Whether a client may still use its device.
pub open spec fn has_lease(c: ClientView, status: DeviceStatus) -> bool {
    !status.paused && c.lease == status.lease && !status.disconnected
}

/// The images of the first `n` records.
pub open spec fn images(queue: Seq<EvdevRecord>, clock: EvdevClock, n: nat) -> Seq<u8>
    decreases n,
{
    if n == 0 {
        Seq::empty()
    } else {
        images(queue, clock, (n - 1) as nat) + input_event(queue[n - 1], clock)
    }
}

/// The records that a read into `len` bytes takes.
pub open spec fn records_read(queue: Seq<EvdevRecord>, len: nat) -> nat {
    if queue.len() <= len / 24 {
        queue.len()
    } else {
        len / 24
    }
}

/// Why a read into `len` bytes fails.
pub open spec fn read_error(c: ClientView, status: DeviceStatus, len: nat) -> Option<Error> {
    if c.revoked || !has_lease(c, status) {
        Some(Error::NoSuchDevice)
    } else if len == 0 {
        None
    } else if len < INPUT_EVENT_SIZE {
        Some(Error::InvalidInput)
    } else if c.queue.len() == 0 {
        Some(Error::WouldBlock)
    } else {
        None
    }
}

/// The clock of a clock number.
pub open spec fn clock_of(id: i32) -> Option<EvdevClock> {
    if id == 0 {
        Some(EvdevClock::Realtime)
    } else if id == 1 {
        Some(EvdevClock::Monotonic)
    } else if id == 7 {
        Some(EvdevClock::Boottime)
    } else {
        None
    }
}

/// The class of a mask, where its number is one of a class.
pub open spec fn mask_type(event_type: u16) -> Option<EventType> {
    if event_type <= 0xff {
        numbered_type(event_type as u8)
    } else {
        None
    }
}

/// The class of a mask, where its number is one of a class.
pub(crate) fn known_mask_type(event_type: u16) -> (class: Option<EventType>)
    ensures
        class == mask_type(event_type),
{
    if event_type <= 0xff {
        EventType::from_repr(event_type as u8)
    } else {
        None
    }
}

/// The mask of a class, in a buffer of `len` bytes.  Without one every code of a
/// class that is known is enabled, and none of a class that is not.
pub open spec fn mask_image(masks: Map<u16, Seq<u8>>, event_type: u16, len: nat) -> Seq<u8> {
    if masks.contains_key(event_type) {
        let mask = masks[event_type];
        Seq::new(
            len,
            |i: int|
                if i < mask.len() {
                    mask[i]
                } else {
                    0
                },
        )
    } else {
        match mask_type(event_type) {
            Some(t) => Seq::new(len, |i: int| all_codes(codes_of(t), i)),
            None => Seq::new(len, |i: int| 0u8),
        }
    }
}

/// Byte `i` of a bitmap whose first `codes` bits are set.
pub open spec fn all_codes(codes: nat, i: int) -> u8 {
    if 8 * (i + 1) <= codes {
        255
    } else if 8 * i < codes {
        low_bits((codes % 8) as int)
    } else {
        0
    }
}

/// A byte whose lowest `n` bits are set.
pub open spec fn low_bits(n: int) -> u8 {
    if n == 1 {
        1
    } else if n == 2 {
        3
    } else if n == 3 {
        7
    } else if n == 4 {
        15
    } else if n == 5 {
        31
    } else if n == 6 {
        63
    } else if n == 7 {
        127
    } else {
        255
    }
}

fn low_byte(n: usize) -> (byte: u8)
    requires
        n < 8,
    ensures
        byte == low_bits(n as int),
{
    match n {
        1 => 1,
        2 => 3,
        3 => 7,
        4 => 15,
        5 => 31,
        6 => 63,
        7 => 127,
        _ => 255,
    }
}

impl EvdevClient {
    pub open spec fn view(&self) -> ClientView {
        ClientView {
            id: self.id,
            lease: self.lease,
            revoked: self.revoked,
            queue: self.queue@,
            clock: self.clock,
            masks: self.masks@.map_values(|m: Vec<u8>| m@),
            overflowed: self.overflowed,
        }
    }

    /// The queue is bounded.
    pub open spec fn wf(self) -> bool {
        self.queue@.len() <= EVDEV_CLIENT_QUEUE_EVENTS
    }

    pub fn new(id: u64, lease: u64, is_revoked: bool) -> (client: EvdevClient)
        ensures
            client@ == (ClientView {
                id,
                lease,
                revoked: is_revoked,
                queue: Seq::empty(),
                clock: EvdevClock::Realtime,
                masks: Map::empty(),
                overflowed: false,
            }),
            client.wf(),
    {
        let client = EvdevClient {
            id,
            lease,
            revoked: is_revoked,
            queue: VecDeque::new(),
            clock: EvdevClock::Realtime,
            masks: BTreeMap::new(),
            overflowed: false,
        };
        assert(client@.masks =~= Map::empty());
        client
    }

    pub fn valid_lease(&self, status: DeviceStatus) -> (valid: bool)
        ensures
            valid == has_lease(self@, status),
    {
        !status.paused && self.lease == status.lease && !status.disconnected
    }

    pub fn set_clock(&mut self, clock: EvdevClock)
        ensures
            final(self)@ == (ClientView { clock, ..old(self)@ }),
    {
        self.clock = clock;
    }

    /// Select a clock by its number.
    pub fn set_clock_id(&mut self, clock_id: i32) -> (result: Result<(), Error>)
        ensures
            match (clock_of(clock_id), result) {
                (Some(clock), Ok(())) => final(self)@ == (ClientView { clock, ..old(self)@ }),
                (None, Err(error)) => error == Error::InvalidInput && final(self)@ == old(self)@,
                _ => false,
            },
    {
        let clock: EvdevClock = match clock_id {
            0 => EvdevClock::Realtime,
            1 => EvdevClock::Monotonic,
            7 => EvdevClock::Boottime,
            _ => {
                return Err(Error::InvalidInput);
            },
        };
        self.set_clock(clock);
        Ok(())
    }

    pub fn clock(&self) -> (clock: EvdevClock)
        ensures
            clock == self@.clock,
    {
        self.clock
    }

    /// Replace the mask of a class.
    pub fn set_mask(&mut self, event_type: u16, bitmap: Vec<u8>)
        ensures
            final(self)@ == (ClientView {
                masks: old(self)@.masks.insert(event_type, bitmap@),
                ..old(self)@
            }),
    {
        let ghost bytes = bitmap@;
        self.masks.insert(event_type, bitmap);
        assert(self@.masks =~= old(self)@.masks.insert(event_type, bytes));
    }

    /// Let a class through whole.
    pub fn clear_mask(&mut self, event_type: u16)
        ensures
            final(self)@ == (ClientView {
                masks: old(self)@.masks.remove(event_type),
                ..old(self)@
            }),
    {
        self.masks.remove(&event_type);
        assert(self@.masks =~= old(self)@.masks.remove(event_type));
    }

    /// The mask of a class, in a buffer of `len` bytes.
    pub fn mask_bits(&self, event_type: u16, len: usize) -> (bits: Vec<u8>)
        ensures
            bits@ == mask_image(self@.masks, event_type, len as nat),
    {
        let mut bits: Vec<u8> = Vec::new();
        if let Some(mask) = self.masks.get(&event_type) {
            assert(self@.masks.contains_key(event_type) && self@.masks[event_type] == mask@);
            let mut i: usize = 0;
            while i < len
                invariant
                    i <= len,
                    bits@.len() == i,
                    forall|j: int|
                        0 <= j < i ==> #[trigger] bits@[j] == (if j < mask@.len() {
                            mask@[j]
                        } else {
                            0
                        }),
                decreases len - i,
            {
                bits.push(
                    if i < mask.len() {
                        mask[i]
                    } else {
                        0
                    },
                );
                i = i + 1;
            }
            assert(bits@ =~= mask_image(self@.masks, event_type, len as nat));
            return bits;
        }
        assert(!self@.masks.contains_key(event_type));
        let codes: usize = match known_mask_type(event_type) {
            Some(t) => t.bits_count(),
            None => 0,
        };
        let mut i: usize = 0;
        while i < len
            invariant
                i <= len,
                codes <= 0x300,
                bits@.len() == i,
                forall|j: int| 0 <= j < i ==> #[trigger] bits@[j] == all_codes(codes as nat, j),
            decreases len - i,
        {
            let byte: u8 = if i < codes / 8 {
                255
            } else if i < (codes + 7) / 8 {
                low_byte(codes % 8)
            } else {
                0
            };
            bits.push(byte);
            i = i + 1;
        }
        assert(bits@ =~= mask_image(self@.masks, event_type, len as nat));
        bits
    }

    /// The open file lost its device, for good.
    pub fn revoke(&mut self)
        ensures
            final(self)@ == revoked(old(self)@),
            final(self).wf(),
    {
        self.revoked = true;
        self.queue.clear();
        assert(self@ =~= revoked(old(self)@));
    }

    /// Whether a read would give something at once.
    pub fn poll_ready(&self, status: DeviceStatus) -> (ready: bool)
        ensures
            ready == (!self@.revoked && has_lease(self@, status) && self@.queue.len() > 0),
    {
        if self.revoked || !self.valid_lease(status) {
            return false;
        }
        self.queue.len() > 0
    }

    /// Take the oldest record.
    pub fn pop(&mut self) -> (record: Option<EvdevRecord>)
        ensures
            match record {
                Some(r) => {
                    &&& old(self)@.queue.len() > 0
                    &&& r == old(self)@.queue[0]
                    &&& final(self)@ == (ClientView {
                        queue: old(self)@.queue.subrange(1, old(self)@.queue.len() as int),
                        ..old(self)@
                    })
                },
                None => old(self)@.queue.len() == 0 && final(self)@ == old(self)@,
            },
            old(self).wf() ==> final(self).wf(),
    {
        let record = self.queue.pop_front();
        assert(record is Some ==> self@.queue =~= old(self)@.queue.subrange(
            1,
            old(self)@.queue.len() as int,
        ));
        record
    }

    fn lets_through(&self, event: Event) -> (through: bool)
        ensures
            through == accepts(self@.masks, event),
    {
        if event.event_type == EV_SYN {
            return true;
        }
        match self.masks.get(&event.event_type) {
            Some(mask) => {
                assert(self@.masks.contains_key(event.event_type));
                bit_is_set(mask.as_slice(), event.code as usize)
            },
            None => true,
        }
    }

    /// Queue a whole frame, or none of it.  The result says whether readers are to
    /// be woken.
    pub fn enqueue_frame(&mut self, frame: &Vec<EvdevRecord>) -> (wake: bool)
        requires
            old(self).wf(),
        ensures
            final(self)@ == enqueued(old(self)@, frame@),
            final(self).wf(),
            wake == (final(self)@.queue.len() > old(self)@.queue.len()),
    {
        let ghost masks = self@.masks;
        let mut count: usize = 0;
        let mut i: usize = 0;
        while i < frame.len()
            invariant
                i <= frame@.len(),
                masks == self@.masks,
                count <= i,
                count == accepted(masks, frame@, i as nat).len(),
            decreases frame@.len() - i,
        {
            if self.lets_through(frame[i].event) {
                count = count + 1;
            }
            i = i + 1;
        }
        if count == 0 {
            return false;
        }
        let extra: usize = if self.overflowed {
            1
        } else {
            0
        };
        let room: usize = EVDEV_CLIENT_QUEUE_EVENTS - self.queue.len();
        if count > EVDEV_CLIENT_QUEUE_EVENTS || count + extra > room {
            self.queue.clear();
            self.overflowed = true;
            assert(self@ =~= lost(old(self)@));
            return false;
        }
        let ghost start = self@.queue;
        let ghost head: Seq<EvdevRecord> = if self.overflowed {
            seq![dropped(frame@[0])]
        } else {
            Seq::empty()
        };
        if self.overflowed {
            let first: EvdevRecord = frame[0];
            self.queue.push_back(
                EvdevRecord {
                    event: Event { event_type: EV_SYN, code: SYN_DROPPED, value: 0 },
                    realtime_arrival: first.realtime_arrival,
                    monotonic_arrival: first.monotonic_arrival,
                },
            );
            self.overflowed = false;
        }
        assert(self@.queue =~= start + head);
        let mut n: usize = 0;
        assert(self@.queue =~= start + head + accepted(masks, frame@, 0));
        while n < frame.len()
            invariant
                n <= frame@.len(),
                masks == self@.masks,
                masks == old(self)@.masks,
                !self.overflowed,
                self@ == (ClientView {
                    queue: self@.queue,
                    overflowed: false,
                    ..old(self)@
                }),
                self@.queue == start + head + accepted(masks, frame@, n as nat),
            decreases frame@.len() - n,
        {
            let record: EvdevRecord = frame[n];
            let ghost before = self@.queue;
            if self.lets_through(record.event) {
                self.queue.push_back(record);
                assert(self@.queue =~= start + head + accepted(masks, frame@, (n + 1) as nat));
            }
            n = n + 1;
        }
        assert(self@ =~= enqueued(old(self)@, frame@));
        true
    }

    /// Take note of a frame that the device lost.
    pub fn mark_overflow(&mut self)
        ensures
            final(self)@ == lost(old(self)@),
            final(self).wf(),
    {
        self.queue.clear();
        self.overflowed = true;
        assert(self@ =~= lost(old(self)@));
    }

    /// Read whole records into a buffer of `len` bytes.  A short rest of it stays
    /// unused, so that every read keeps record and frame boundaries.
    pub fn read_at(&mut self, status: DeviceStatus, len: usize) -> (result: Result<Vec<u8>, Error>)
        requires
            old(self).wf(),
        ensures
            final(self).wf(),
            match (read_error(old(self)@, status, len as nat), result) {
                (Some(expected), Err(error)) => error == expected && final(self)@ == old(self)@,
                (None, Ok(bytes)) => {
                    let n = if len == 0 {
                        0
                    } else {
                        records_read(old(self)@.queue, len as nat)
                    };
                    &&& bytes@ == images(old(self)@.queue, old(self)@.clock, n)
                    &&& bytes@.len() == 24 * n
                    &&& final(self)@ == (ClientView {
                        queue: old(self)@.queue.subrange(
                            n as int,
                            old(self)@.queue.len() as int,
                        ),
                        ..old(self)@
                    })
                },
                _ => false,
            },
    {
        if self.revoked || !self.valid_lease(status) {
            return Err(Error::NoSuchDevice);
        }
        let mut bytes: Vec<u8> = Vec::new();
        if len == 0 {
            assert(self@.queue.subrange(0, self@.queue.len() as int) =~= self@.queue);
            assert(bytes@ =~= Seq::empty());
            return Ok(bytes);
        }
        if len < INPUT_EVENT_SIZE {
            return Err(Error::InvalidInput);
        }
        if self.queue.len() == 0 {
            return Err(Error::WouldBlock);
        }
        let ghost queue = self@.queue;
        let ghost clock = self@.clock;
        let wanted: usize = if self.queue.len() <= len / INPUT_EVENT_SIZE {
            self.queue.len()
        } else {
            len / INPUT_EVENT_SIZE
        };
        let mut n: usize = 0;
        assert(queue.subrange(0, queue.len() as int) =~= queue);
        assert(bytes@ =~= Seq::empty());
        while n < wanted
            invariant
                n <= wanted,
                wanted <= queue.len(),
                queue.len() <= EVDEV_CLIENT_QUEUE_EVENTS,
                queue == old(self)@.queue,
                clock == old(self)@.clock,
                self@ == (ClientView {
                    queue: queue.subrange(n as int, queue.len() as int),
                    ..old(self)@
                }),
                bytes@ == images(queue, clock, n as nat),
                bytes@.len() == 24 * n,
            decreases wanted - n,
        {
            let ghost before = self@.queue;
            if let Some(record) = self.pop() {
                assert(record == queue[n as int]);
                assert(before.subrange(1, before.len() as int) =~= queue.subrange(
                    n as int + 1,
                    queue.len() as int,
                ));
                push_input_event(&mut bytes, record, self.clock);
            }
            n = n + 1;
        }
        Ok(bytes)
    }
}

/// A queue never holds more than it is made for.
pub proof fn law_a_queue_stays_bounded(c: ClientView, frame: Seq<EvdevRecord>)
    requires
        c.queue.len() <= EVDEV_CLIENT_QUEUE_EVENTS,
    ensures
        enqueued(c, frame).queue.len() <= EVDEV_CLIENT_QUEUE_EVENTS,
{
}

/// After a loss the next frame that is queued comes after a record that tells of
/// it.
pub proof fn law_a_loss_is_told_before_the_next_frame(c: ClientView, frame: Seq<EvdevRecord>)
    requires
        c.overflowed,
        c.queue.len() == 0,
        0 < accepted(c.masks, frame, frame.len()).len() < EVDEV_CLIENT_QUEUE_EVENTS,
    ensures
        ({
            let after = enqueued(c, frame);
            &&& after.queue.len() > 1
            &&& after.queue[0].event == (Event { event_type: EV_SYN, code: SYN_DROPPED, value: 0 })
            &&& after.queue.subrange(1, after.queue.len() as int) == accepted(
                c.masks,
                frame,
                frame.len(),
            )
            &&& !after.overflowed
        }),
{
    let after = enqueued(c, frame);
    assert(after.queue.subrange(1, after.queue.len() as int) =~= accepted(
        c.masks,
        frame,
        frame.len(),
    ));
}

/// What was queued before a frame stays in front of it, or all of it is lost.
pub proof fn law_a_frame_comes_whole_or_not_at_all(c: ClientView, frame: Seq<EvdevRecord>)
    requires
        !c.overflowed,
    ensures
        ({
            let after = enqueued(c, frame);
            ||| after.queue == c.queue + accepted(c.masks, frame, frame.len())
            ||| after.queue.len() == 0 && after.overflowed
        }),
{
    let after = enqueued(c, frame);
    if accepted(c.masks, frame, frame.len()).len() == 0 {
        assert(c.queue + accepted(c.masks, frame, frame.len()) =~= c.queue);
    } else if !after.overflowed {
        assert(after.queue =~= c.queue + accepted(c.masks, frame, frame.len()));
    }
}

/// A synchronization record passes every mask.
pub proof fn law_masks_keep_synchronization(masks: Map<u16, Seq<u8>>, event: Event)
    requires
        event.event_type == EV_SYN,
    ensures
        accepts(masks, event),
{
}

} // verus!
