//! The one owner of an input controller.
//!
//! Open files never read the driver directly, so that competing readers lose no
//! events: the device takes what the driver has and hands complete frames to them.

use vstd::prelude::*;
use std::collections::BTreeMap;
use crate::error::Error;
use crate::evdev::bits::{bitmap_bytes, byte_at, key_bits, led_bits, packed, switch_bits, KeyBitmap,
    LedBitmap, SwitchBitmap, KEY_CNT, LED_CNT, SWITCH_CNT};
use crate::evdev::client::{enqueued, has_lease, lost, read_error, revoked, ClientView, DeviceStatus,
    EvdevClient};
use crate::evdev::event::{EvdevClock, EvdevRecord, Event, EV_SYN, SYN_REPORT};

verus! {

/// Records that a frame holds before its report.
pub const EVDEV_DEVICE_FRAME_EVENTS: usize = 256;

/// Events that one pass takes from the driver.
pub const EVDEV_PUMP_EVENTS: usize = 256;

/// The access mode of an event node.
pub const EVENT_NODE_MODE: u16 = 0o660;

/// The axis that selects a slot; those after it are slotted.
pub const ABS_MT_SLOT: u16 = 0x2f;

/// Why a driver gave nothing more.
#[derive(Clone, Copy, Debug, PartialEq, Eq, Structural)]
pub enum DevError {
    AlreadyExists,
    Again,
    BadState,
    InvalidParam,
    Io,
    NoMemory,
    ResourceBusy,
    Unsupported,
}

/// The error that a reader gets for one of the driver's.
pub open spec fn reader_error(error: DevError) -> Error {
    match error {
        DevError::AlreadyExists => Error::AlreadyExists,
        DevError::Again => Error::WouldBlock,
        DevError::BadState => Error::BadState,
        DevError::InvalidParam => Error::InvalidInput,
        DevError::Io => Error::Io,
        DevError::NoMemory => Error::NoMemory,
        DevError::ResourceBusy => Error::ResourceBusy,
        DevError::Unsupported => Error::OperationNotSupported,
    }
}

pub fn map_dev_error(error: DevError) -> (mapped: Error)
    ensures
        mapped == reader_error(error),
{
    match error {
        DevError::AlreadyExists => Error::AlreadyExists,
        DevError::Again => Error::WouldBlock,
        DevError::BadState => Error::BadState,
        DevError::InvalidParam => Error::InvalidInput,
        DevError::Io => Error::Io,
        DevError::NoMemory => Error::NoMemory,
        DevError::ResourceBusy => Error::ResourceBusy,
        DevError::Unsupported => Error::OperationNotSupported,
    }
}

pub struct EvdevDevice {
    pub key_state: KeyBitmap,
    pub led_state: LedBitmap,
    pub switch_state: SwitchBitmap,
    pub abs_values: BTreeMap<u8, i32>,
    pub msc_values: BTreeMap<u8, i32>,
    pub mt_slots: BTreeMap<u8, Vec<i32>>,
    pub mt_current_slot: u32,
    pub repeat: (u32, u32),
    pub frame: Vec<EvdevRecord>,
    pub frame_overflowed: bool,
    /// In the order in which they were opened.
    pub clients: Vec<EvdevClient>,
    pub grab_owner: Option<u64>,
    pub next_client: u64,
    /// Whether the driver may have more.
    pub pending: bool,
    pub disconnected: bool,
    pub paused: bool,
    /// Counts the sessions that had the device.  A client that was opened in an
    /// earlier one is revoked for good.
    pub session_lease: u64,
}

/// What is said of a device.
#[verifier::ext_equal]
pub struct DeviceView {
    pub keys: Set<usize>,
    pub leds: Set<usize>,
    pub switches: Set<usize>,
    pub abs: Map<u8, i32>,
    pub msc: Map<u8, i32>,
    pub slots: Map<u8, Seq<i32>>,
    pub slot: u32,
    pub repeat: (u32, u32),
    pub frame: Seq<EvdevRecord>,
    pub frame_overflowed: bool,
    pub clients: Seq<ClientView>,
    pub grab_owner: Option<u64>,
    pub next_client: u64,
    pub pending: bool,
    pub disconnected: bool,
    pub paused: bool,
    pub session_lease: u64,
}

/// A set after a bit was set or cleared.
pub open spec fn flagged(bits: Set<usize>, bit: usize, value: bool) -> Set<usize> {
    if value {
        bits.insert(bit)
    } else {
        bits.remove(bit)
    }
}

/// The values of a slotted axis after one of them was set.
pub open spec fn slotted(values: Seq<i32>, slot: int, value: i32) -> Seq<i32> {
    if slot < values.len() {
        values.update(slot, value)
    } else {
        (values + Seq::new((slot - values.len()) as nat, |i: int| 0i32)).push(value)
    }
}

/// A device after it took note of an event.
pub open spec fn absorbed(v: DeviceView, e: Event) -> DeviceView {
    let low = (e.code % 256) as u8;
    if e.event_type == 0x01 {
        if e.code < KEY_CNT && e.value <= 1 {
            DeviceView { keys: flagged(v.keys, e.code as usize, e.value == 1), ..v }
        } else {
            v
        }
    } else if e.event_type == 0x11 {
        if e.code < LED_CNT {
            DeviceView { leds: flagged(v.leds, e.code as usize, e.value != 0), ..v }
        } else {
            v
        }
    } else if e.event_type == 0x05 {
        if e.code < SWITCH_CNT {
            DeviceView { switches: flagged(v.switches, e.code as usize, e.value != 0), ..v }
        } else {
            v
        }
    } else if e.event_type == 0x04 {
        DeviceView { msc: v.msc.insert(low, e.value as i32), ..v }
    } else if e.event_type == 0x03 {
        let values = if v.slots.contains_key(low) {
            v.slots[low]
        } else {
            Seq::empty()
        };
        DeviceView {
            abs: v.abs.insert(low, e.value as i32),
            slot: if e.code == ABS_MT_SLOT {
                e.value
            } else {
                v.slot
            },
            slots: if e.code > ABS_MT_SLOT {
                v.slots.insert(low, slotted(values, v.slot as int, e.value as i32))
            } else {
                v.slots
            },
            ..v
        }
    } else {
        v
    }
}

/// A device after a record was added to its frame.
pub open spec fn framed(v: DeviceView, r: EvdevRecord) -> DeviceView {
    if v.frame_overflowed {
        v
    } else if v.frame.len() == EVDEV_DEVICE_FRAME_EVENTS {
        DeviceView { frame: Seq::empty(), frame_overflowed: true, ..v }
    } else {
        DeviceView { frame: v.frame.push(r), ..v }
    }
}

/// A client after a device's frame ended.
pub open spec fn told(
    c: ClientView,
    owner: Option<u64>,
    overflowed: bool,
    frame: Seq<EvdevRecord>,
) -> ClientView {
    if owner is None || owner == Some(c.id) {
        if overflowed {
            lost(c)
        } else {
            enqueued(c, frame)
        }
    } else {
        c
    }
}

/// A device after its frame ended.
pub open spec fn reported(v: DeviceView) -> DeviceView {
    DeviceView {
        clients: v.clients.map_values(
            |c: ClientView| told(c, v.grab_owner, v.frame_overflowed, v.frame),
        ),
        frame: Seq::empty(),
        frame_overflowed: false,
        ..v
    }
}

/// A device after an event arrived.
pub open spec fn arrived(v: DeviceView, r: EvdevRecord) -> DeviceView {
    let next = framed(absorbed(v, r.event), r);
    if r.event.event_type == EV_SYN && r.event.code == SYN_REPORT {
        reported(next)
    } else {
        next
    }
}

/// A device after the first `n` of some events arrived.
pub open spec fn pumped(v: DeviceView, arrivals: Seq<EvdevRecord>, n: nat) -> DeviceView
    decreases n,
{
    if n == 0 {
        v
    } else {
        arrived(pumped(v, arrivals, (n - 1) as nat), arrivals[n - 1])
    }
}

/// The position of the client with this number, from `i` on.
pub open spec fn client_from(clients: Seq<ClientView>, id: u64, i: nat) -> Option<int>
    decreases clients.len() - i,
{
    if i >= clients.len() {
        None
    } else if clients[i as int].id == id {
        Some(i as int)
    } else {
        client_from(clients, id, i + 1)
    }
}

/// The clients without one.
pub open spec fn clients_without(clients: Seq<ClientView>, id: u64) -> Seq<ClientView> {
    match client_from(clients, id, 0) {
        Some(i) => clients.remove(i),
        None => clients,
    }
}

/// A device that was just found.
pub open spec fn fresh_device() -> DeviceView {
    DeviceView {
        keys: Set::empty(),
        leds: Set::empty(),
        switches: Set::empty(),
        abs: Map::empty(),
        msc: Map::empty(),
        slots: Map::empty(),
        slot: 0,
        repeat: (250, 33),
        frame: Seq::empty(),
        frame_overflowed: false,
        clients: Seq::empty(),
        grab_owner: None,
        next_client: 1,
        pending: false,
        disconnected: false,
        paused: false,
        session_lease: 1,
    }
}

/// A device after its removal.
pub open spec fn disconnected(v: DeviceView) -> DeviceView {
    if v.disconnected {
        v
    } else {
        DeviceView { disconnected: true, grab_owner: None, ..v }
    }
}

/// What an open file is ready for.
#[derive(Clone, Copy, Debug, PartialEq, Eq, Structural)]
pub struct FileEvents {
    pub readable: bool,
    pub hangup: bool,
    pub error: bool,
}

/// What an open file is ready for: one that lost its device hangs up, with an error.
pub open spec fn file_events(c: ClientView, status: DeviceStatus) -> FileEvents {
    let gone = c.revoked || !has_lease(c, status);
    FileEvents { readable: !gone && c.queue.len() > 0, hangup: gone, error: gone }
}

/// A device after its session lost it: the leases that were given out have ended.
pub open spec fn paused(v: DeviceView) -> DeviceView {
    if v.disconnected || v.paused {
        v
    } else {
        DeviceView {
            paused: true,
            session_lease: if v.session_lease == u64::MAX {
                0
            } else {
                (v.session_lease + 1) as u64
            },
            frame: Seq::empty(),
            frame_overflowed: false,
            clients: v.clients.map_values(|c: ClientView| revoked(c)),
            ..v
        }
    }
}

impl EvdevDevice {
    pub open spec fn view(&self) -> DeviceView {
        DeviceView {
            keys: key_bits(self.key_state),
            leds: led_bits(self.led_state),
            switches: switch_bits(self.switch_state),
            abs: self.abs_values@,
            msc: self.msc_values@,
            slots: self.mt_slots@.map_values(|s: Vec<i32>| s@),
            slot: self.mt_current_slot,
            repeat: self.repeat,
            frame: self.frame@,
            frame_overflowed: self.frame_overflowed,
            clients: self.clients@.map_values(|c: EvdevClient| c@),
            grab_owner: self.grab_owner,
            next_client: self.next_client,
            pending: self.pending,
            disconnected: self.disconnected,
            paused: self.paused,
            session_lease: self.session_lease,
        }
    }

    /// Every queue and the frame are bounded.
    pub open spec fn wf(self) -> bool {
        &&& self.frame@.len() <= EVDEV_DEVICE_FRAME_EVENTS
        &&& forall|i: int| 0 <= i < self.clients@.len() ==> (#[trigger] self.clients@[i]).wf()
    }

    pub fn new() -> (device: EvdevDevice)
        ensures
            device@ == fresh_device(),
            device.wf(),
    {
        let device = EvdevDevice {
            key_state: KeyBitmap::new(),
            led_state: LedBitmap::new(),
            switch_state: SwitchBitmap::new(),
            abs_values: BTreeMap::new(),
            msc_values: BTreeMap::new(),
            mt_slots: BTreeMap::new(),
            mt_current_slot: 0,
            repeat: (250, 33),
            frame: Vec::new(),
            frame_overflowed: false,
            clients: Vec::new(),
            grab_owner: None,
            next_client: 1,
            pending: false,
            disconnected: false,
            paused: false,
            session_lease: 1,
        };
        assert(device@.slots =~= Map::empty());
        assert(device@.clients =~= Seq::empty());
        assert(device@.frame =~= Seq::empty());
        device
    }

    /// What clients go by.
    pub fn status(&self) -> (status: DeviceStatus)
        ensures
            status == (DeviceStatus {
                disconnected: self@.disconnected,
                paused: self@.paused,
                lease: self@.session_lease,
            }),
    {
        DeviceStatus {
            disconnected: self.disconnected,
            paused: self.paused,
            lease: self.session_lease,
        }
    }

    /// Open the device, and give the number of the client.  A client that was
    /// opened while the device is paused is never usable.
    pub fn open_client(&mut self) -> (id: u64)
        requires
            old(self).wf(),
        ensures
            id == old(self)@.next_client,
            final(self)@ == (DeviceView {
                clients: old(self)@.clients.push(
                    ClientView {
                        id,
                        lease: old(self)@.session_lease,
                        revoked: old(self)@.paused,
                        queue: Seq::empty(),
                        clock: EvdevClock::Realtime,
                        masks: Map::empty(),
                        overflowed: false,
                    },
                ),
                next_client: if id == u64::MAX {
                    0
                } else {
                    (id + 1) as u64
                },
                ..old(self)@
            }),
            final(self).wf(),
    {
        let id: u64 = self.next_client;
        self.next_client = if id == u64::MAX {
            0
        } else {
            id + 1
        };
        let client = EvdevClient::new(id, self.session_lease, self.paused);
        let ghost view = client@;
        self.clients.push(client);
        assert(self@.clients =~= old(self)@.clients.push(view));
        id
    }

    /// The number of open files.
    pub fn live_client_count(&self) -> (count: u64)
        requires
            self@.clients.len() <= u64::MAX,
        ensures
            count == self@.clients.len(),
    {
        self.clients.len() as u64
    }

    /// What an open file is ready for.
    pub fn poll(&self, client: usize) -> (events: FileEvents)
        requires
            client < self@.clients.len(),
        ensures
            events == file_events(
                self@.clients[client as int],
                DeviceStatus {
                    disconnected: self@.disconnected,
                    paused: self@.paused,
                    lease: self@.session_lease,
                },
            ),
    {
        let status = self.status();
        let gone = self.clients[client].revoked || !self.clients[client].valid_lease(status);
        FileEvents {
            readable: self.clients[client].poll_ready(status),
            hangup: gone,
            error: gone,
        }
    }

    /// The device was removed: every open file has lost it for good.  The result
    /// says whether it was there before.
    pub fn disconnect(&mut self) -> (changed: bool)
        ensures
            changed == !old(self)@.disconnected,
            final(self)@ == disconnected(old(self)@),
            old(self).wf() ==> final(self).wf(),
    {
        if self.disconnected {
            return false;
        }
        self.disconnected = true;
        self.grab_owner = None;
        assert(self@ =~= (DeviceView { disconnected: true, grab_owner: None, ..old(self)@ }));
        true
    }

    /// The session lost the device: its open files have lost it for good.  Unlike a
    /// removal, a later session can open it anew.  The result says whether anything
    /// changed.
    pub fn pause(&mut self) -> (changed: bool)
        requires
            old(self).wf(),
        ensures
            changed == (!old(self)@.disconnected && !old(self)@.paused),
            final(self)@ == paused(old(self)@),
            final(self).wf(),
    {
        if self.disconnected || self.paused {
            return false;
        }
        self.paused = true;
        self.session_lease = if self.session_lease == u64::MAX {
            0
        } else {
            self.session_lease + 1
        };
        self.frame.clear();
        self.frame_overflowed = false;
        let ghost clients = self@.clients;
        let ghost before = self@;
        let mut i: usize = 0;
        while i < self.clients.len()
            invariant
                i <= self.clients@.len(),
                self.frame@.len() == 0,
                clients.len() == self.clients@.len(),
                self@ == (DeviceView { clients: self@.clients, ..before }),
                forall|j: int| 0 <= j < self.clients@.len() ==> (#[trigger] self.clients@[j]).wf(),
                forall|j: int|
                    0 <= j < i ==> (#[trigger] self.clients@[j])@ == revoked(clients[j]),
                forall|j: int|
                    i <= j < clients.len() ==> (#[trigger] self.clients@[j])@ == clients[j],
            decreases self.clients@.len() - i,
        {
            self.clients[i].revoke();
            assert(self@ =~= (DeviceView { clients: self@.clients, ..before }));
            i = i + 1;
        }
        assert(self@.clients =~= clients.map_values(|c: ClientView| revoked(c)));
        true
    }

    /// A session has the device.  The result says whether anything changed.
    pub fn resume(&mut self) -> (changed: bool)
        ensures
            changed == (!old(self)@.disconnected && old(self)@.paused),
            final(self)@ == (if changed {
                DeviceView { paused: false, ..old(self)@ }
            } else {
                old(self)@
            }),
            old(self).wf() ==> final(self).wf(),
    {
        if self.disconnected || !self.paused {
            return false;
        }
        self.paused = false;
        assert(self@ =~= (DeviceView { paused: false, ..old(self)@ }));
        true
    }

    /// Whether the driver may be read.
    pub fn pump_admitted(&self) -> (result: Result<bool, Error>)
        ensures
            result == (if self@.disconnected {
                Err(Error::NoSuchDevice)
            } else {
                Ok(!self@.paused)
            }),
    {
        if self.disconnected {
            Err(Error::NoSuchDevice)
        } else {
            Ok(!self.paused)
        }
    }

    fn set_slot(&mut self, axis: u8, slot: u32, value: i32)
        ensures
            final(self)@ == (DeviceView {
                slots: old(self)@.slots.insert(
                    axis,
                    slotted(
                        if old(self)@.slots.contains_key(axis) {
                            old(self)@.slots[axis]
                        } else {
                            Seq::empty()
                        },
                        slot as int,
                        value,
                    ),
                ),
                ..old(self)@
            }),
            final(self).frame == old(self).frame,
            final(self).clients == old(self).clients,
    {
        let mut values: Vec<i32> = match self.mt_slots.remove(&axis) {
            Some(values) => values,
            None => Vec::new(),
        };
        let ghost known = if old(self)@.slots.contains_key(axis) {
            old(self)@.slots[axis]
        } else {
            Seq::empty()
        };
        assert(values@ =~= known);
        let at: usize = slot as usize;
        if at < values.len() {
            values.set(at, value);
        } else {
            while values.len() < at
                invariant
                    known.len() <= values@.len() <= at,
                    at == slot,
                    values@ == known + Seq::new(
                        (values@.len() - known.len()) as nat,
                        |i: int| 0i32,
                    ),
                decreases at - values@.len(),
            {
                let ghost before = values@;
                values.push(0);
                assert(values@ =~= known + Seq::new(
                    (values@.len() - known.len()) as nat,
                    |i: int| 0i32,
                ));
            }
            values.push(value);
        }
        assert(values@ =~= slotted(known, slot as int, value));
        let ghost after = values@;
        self.mt_slots.insert(axis, values);
        assert(self@.slots =~= old(self)@.slots.insert(axis, after));
        assert(self@ =~= (DeviceView {
            slots: old(self)@.slots.insert(axis, after),
            ..old(self)@
        }));
    }

    /// Take note of an event.
    fn absorb(&mut self, event: Event)
        ensures
            final(self)@ == absorbed(old(self)@, event),
            final(self).frame == old(self).frame,
            final(self).clients == old(self).clients,
    {
        let low: u8 = (event.code % 256) as u8;
        let value: i32 = #[verifier::truncate] (event.value as i32);
        if event.event_type == 0x01 {
            if (event.code as usize) < KEY_CNT && event.value <= 1 {
                self.key_state.set(event.code as usize, event.value == 1);
            }
        } else if event.event_type == 0x11 {
            if (event.code as usize) < LED_CNT {
                self.led_state.set(event.code as usize, event.value != 0);
            }
        } else if event.event_type == 0x05 {
            if (event.code as usize) < SWITCH_CNT {
                self.switch_state.set(event.code as usize, event.value != 0);
            }
        } else if event.event_type == 0x04 {
            self.msc_values.insert(low, value);
        } else if event.event_type == 0x03 {
            if event.code == ABS_MT_SLOT {
                self.mt_current_slot = event.value;
            } else if event.code > ABS_MT_SLOT {
                let slot: u32 = self.mt_current_slot;
                self.set_slot(low, slot, value);
            }
            self.abs_values.insert(low, value);
        }
        assert(self@ =~= absorbed(old(self)@, event));
    }

    /// End the frame: hand it to the clients, or tell them that it was lost.
    fn report(&mut self)
        requires
            old(self).wf(),
        ensures
            final(self)@ == reported(old(self)@),
            final(self).wf(),
    {
        let ghost start = self@;
        let ghost clients = self@.clients;
        let owner: Option<u64> = self.grab_owner;
        let overflowed: bool = self.frame_overflowed;
        let mut frame: Vec<EvdevRecord> = Vec::new();
        std::mem::swap(&mut frame, &mut self.frame);
        self.frame_overflowed = false;
        let ghost before = self@;
        let mut i: usize = 0;
        while i < self.clients.len()
            invariant
                i <= self.clients@.len(),
                self.frame@.len() == 0,
                clients.len() == self.clients@.len(),
                self@ == (DeviceView { clients: self@.clients, ..before }),
                forall|j: int| 0 <= j < self.clients@.len() ==> (#[trigger] self.clients@[j]).wf(),
                forall|j: int|
                    0 <= j < i ==> (#[trigger] self.clients@[j])@ == told(
                        clients[j],
                        owner,
                        overflowed,
                        frame@,
                    ),
                forall|j: int|
                    i <= j < clients.len() ==> (#[trigger] self.clients@[j])@ == clients[j],
            decreases self.clients@.len() - i,
        {
            let id: u64 = self.clients[i].id;
            assert(self.clients@[i as int]@ == clients[i as int]);
            let addressed: bool = match owner {
                Some(owner) => owner == id,
                None => true,
            };
            if addressed {
                if overflowed {
                    self.clients[i].mark_overflow();
                } else {
                    let _ = self.clients[i].enqueue_frame(&frame);
                }
            }
            assert(self@ =~= (DeviceView { clients: self@.clients, ..before }));
            i = i + 1;
        }
        assert(self@.clients =~= reported(start).clients);
        assert(self@ =~= reported(start));
    }

    /// Take what the driver had: at most as many events as one pass may take, and
    /// the reason for which it gave no more.  Only complete frames go to the open
    /// files.  The result says whether the driver may have more.
    pub fn pump(&mut self, arrivals: &Vec<EvdevRecord>, end: DevError) -> (result: Result<bool, Error>)
        requires
            old(self).wf(),
            arrivals@.len() <= EVDEV_PUMP_EVENTS,
        ensures
            final(self).wf(),
            if old(self)@.disconnected {
                &&& result == Err::<bool, Error>(Error::NoSuchDevice)
                &&& final(self)@ == old(self)@
            } else if old(self)@.paused {
                &&& result == Ok::<bool, Error>(false)
                &&& final(self)@ == old(self)@
            } else {
                let full = arrivals@.len() == EVDEV_PUMP_EVENTS;
                &&& result == (if full || end == DevError::Again {
                    Ok(full)
                } else {
                    Err(reader_error(end))
                })
                &&& final(self)@ == (DeviceView {
                    pending: full,
                    ..pumped(old(self)@, arrivals@, arrivals@.len())
                })
            },
    {
        if self.disconnected {
            return Err(Error::NoSuchDevice);
        }
        if self.paused {
            return Ok(false);
        }
        let ghost start = self@;
        let mut n: usize = 0;
        while n < arrivals.len()
            invariant
                n <= arrivals@.len(),
                self.wf(),
                self@ == pumped(start, arrivals@, n as nat),
            decreases arrivals@.len() - n,
        {
            let record: EvdevRecord = arrivals[n];
            self.absorb(record.event);
            let ghost noted = self@;
            if !self.frame_overflowed {
                if self.frame.len() == EVDEV_DEVICE_FRAME_EVENTS {
                    self.frame.clear();
                    self.frame_overflowed = true;
                } else {
                    self.frame.push(record);
                }
            }
            assert(self@ =~= framed(noted, record));
            if record.event.event_type == EV_SYN && record.event.code == SYN_REPORT {
                self.report();
            }
            n = n + 1;
        }
        let full: bool = arrivals.len() == EVDEV_PUMP_EVENTS;
        self.pending = full;
        assert(self@ =~= (DeviceView {
            pending: full,
            ..pumped(start, arrivals@, arrivals@.len())
        }));
        if full || end == DevError::Again {
            Ok(full)
        } else {
            Err(map_dev_error(end))
        }
    }

    /// The last value of an axis.
    pub fn abs_value(&self, axis: u8) -> (value: i32)
        ensures
            value == (if self@.abs.contains_key(axis) {
                self@.abs[axis]
            } else {
                0
            }),
    {
        match self.abs_values.get(&axis) {
            Some(value) => *value,
            None => 0,
        }
    }

    /// The keys that are down, in a buffer of `size` bytes.
    pub fn key_state(&self, size: usize) -> (bytes: Vec<u8>)
        ensures
            bytes@ == bitmap_bytes(self@.keys, 768, size as nat),
    {
        let ghost bits = Set::new(|bit: usize| bit < 768 && self@.keys.contains(bit));
        let mut bytes: Vec<u8> = Vec::new();
        let mut i: usize = 0;
        while i < size
            invariant
                i <= size,
                bytes@.len() == i,
                bits == Set::new(|bit: usize| bit < 768 && self@.keys.contains(bit)),
                forall|j: int|
                    0 <= j < i ==> #[trigger] bytes@[j] == (if 8 * j < 768 {
                        byte_at(bits, 8 * j)
                    } else {
                        0
                    }),
            decreases size - i,
        {
            let byte: u8 = if i < KEY_CNT / 8 {
                let b: usize = 8 * i;
                packed(
                    [
                        self.key_state.get(b),
                        self.key_state.get(b + 1),
                        self.key_state.get(b + 2),
                        self.key_state.get(b + 3),
                        self.key_state.get(b + 4),
                        self.key_state.get(b + 5),
                        self.key_state.get(b + 6),
                        self.key_state.get(b + 7),
                    ],
                )
            } else {
                0
            };
            bytes.push(byte);
            i = i + 1;
        }
        assert(bytes@ =~= bitmap_bytes(self@.keys, 768, size as nat));
        bytes
    }

    fn led(&self, index: usize) -> (bit: bool)
        ensures
            bit == (index < 16 && self@.leds.contains(index)),
    {
        index < LED_CNT && self.led_state.get(index)
    }

    fn switch(&self, index: usize) -> (bit: bool)
        ensures
            bit == (index < 18 && self@.switches.contains(index)),
    {
        index < SWITCH_CNT && self.switch_state.get(index)
    }

    /// The lights that are on, in a buffer of `size` bytes.
    pub fn led_state(&self, size: usize) -> (bytes: Vec<u8>)
        ensures
            bytes@ == bitmap_bytes(self@.leds, 16, size as nat),
    {
        let ghost bits = Set::new(|bit: usize| bit < 16 && self@.leds.contains(bit));
        let mut bytes: Vec<u8> = Vec::new();
        let mut i: usize = 0;
        while i < size
            invariant
                i <= size,
                bytes@.len() == i,
                bits == Set::new(|bit: usize| bit < 16 && self@.leds.contains(bit)),
                forall|j: int|
                    0 <= j < i ==> #[trigger] bytes@[j] == (if 8 * j < 16 {
                        byte_at(bits, 8 * j)
                    } else {
                        0
                    }),
            decreases size - i,
        {
            let byte: u8 = if i < 2 {
                let b: usize = 8 * i;
                packed(
                    [
                        self.led(b),
                        self.led(b + 1),
                        self.led(b + 2),
                        self.led(b + 3),
                        self.led(b + 4),
                        self.led(b + 5),
                        self.led(b + 6),
                        self.led(b + 7),
                    ],
                )
            } else {
                0
            };
            bytes.push(byte);
            i = i + 1;
        }
        assert(bytes@ =~= bitmap_bytes(self@.leds, 16, size as nat));
        bytes
    }

    /// The switches that are closed, in a buffer of `size` bytes.
    pub fn switch_state(&self, size: usize) -> (bytes: Vec<u8>)
        ensures
            bytes@ == bitmap_bytes(self@.switches, 18, size as nat),
    {
        let ghost bits = Set::new(|bit: usize| bit < 18 && self@.switches.contains(bit));
        let mut bytes: Vec<u8> = Vec::new();
        let mut i: usize = 0;
        while i < size
            invariant
                i <= size,
                bytes@.len() == i,
                bits == Set::new(|bit: usize| bit < 18 && self@.switches.contains(bit)),
                forall|j: int|
                    0 <= j < i ==> #[trigger] bytes@[j] == (if 8 * j < 18 {
                        byte_at(bits, 8 * j)
                    } else {
                        0
                    }),
            decreases size - i,
        {
            let byte: u8 = if i < 3 {
                let b: usize = 8 * i;
                packed(
                    [
                        self.switch(b),
                        self.switch(b + 1),
                        self.switch(b + 2),
                        self.switch(b + 3),
                        self.switch(b + 4),
                        self.switch(b + 5),
                        self.switch(b + 6),
                        self.switch(b + 7),
                    ],
                )
            } else {
                0
            };
            bytes.push(byte);
            i = i + 1;
        }
        assert(bytes@ =~= bitmap_bytes(self@.switches, 18, size as nat));
        bytes
    }

    /// Set the delay and the period of repeats, where the device has them.
    pub fn set_repeat(&mut self, supported: bool, repeat: (u32, u32)) -> (result: Result<(), Error>)
        ensures
            result == (if supported {
                Ok(())
            } else {
                Err(Error::InvalidInput)
            }),
            final(self)@ == (if supported {
                DeviceView { repeat, ..old(self)@ }
            } else {
                old(self)@
            }),
            old(self).wf() ==> final(self).wf(),
    {
        if !supported {
            return Err(Error::InvalidInput);
        }
        self.repeat = repeat;
        assert(self@ =~= (DeviceView { repeat, ..old(self)@ }));
        Ok(())
    }

    /// Give a client all events, or let every client have them again.
    pub fn set_grab(&mut self, client: u64, grab: bool) -> (result: Result<(), Error>)
        ensures
            ({
                let owner = old(self)@.grab_owner;
                if grab && owner is Some && owner != Some(client) {
                    &&& result == Err::<(), Error>(Error::ResourceBusy)
                    &&& final(self)@ == old(self)@
                } else {
                    &&& result == Ok::<(), Error>(())
                    &&& final(self)@ == (DeviceView {
                        grab_owner: if grab {
                            Some(client)
                        } else if owner == Some(client) {
                            None
                        } else {
                            owner
                        },
                        ..old(self)@
                    })
                }
            }),
            old(self).wf() ==> final(self).wf(),
    {
        if grab {
            if let Some(owner) = self.grab_owner {
                if owner != client {
                    return Err(Error::ResourceBusy);
                }
            }
            self.grab_owner = Some(client);
            assert(self@ =~= (DeviceView { grab_owner: Some(client), ..old(self)@ }));
        } else if let Some(owner) = self.grab_owner {
            if owner == client {
                self.grab_owner = None;
                assert(self@ =~= (DeviceView { grab_owner: None, ..old(self)@ }));
            }
        }
        Ok(())
    }

    /// The position of a client.
    pub fn client_index(&self, id: u64) -> (index: Option<usize>)
        ensures
            match index {
                Some(i) => client_from(self@.clients, id, 0) == Some(i as int) && i
                    < self.clients@.len(),
                None => client_from(self@.clients, id, 0) is None,
            },
    {
        let mut i: usize = 0;
        while i < self.clients.len()
            invariant
                i <= self.clients@.len(),
                client_from(self@.clients, id, 0) == client_from(self@.clients, id, i as nat),
            decreases self.clients@.len() - i,
        {
            assert(self@.clients[i as int] == self.clients@[i as int]@);
            if self.clients[i].id == id {
                return Some(i);
            }
            i = i + 1;
        }
        None
    }

    /// A client takes or gives back all events.
    pub fn grab(&mut self, client: usize, grab: bool) -> (result: Result<(), Error>)
        requires
            client < old(self).clients@.len(),
        ensures
            ({
                let c = old(self)@.clients[client as int];
                let owner = old(self)@.grab_owner;
                if c.revoked || !has_lease(
                    c,
                    DeviceStatus {
                        disconnected: old(self)@.disconnected,
                        paused: old(self)@.paused,
                        lease: old(self)@.session_lease,
                    },
                ) {
                    &&& result == Err::<(), Error>(Error::NoSuchDevice)
                    &&& final(self)@ == old(self)@
                } else if grab && owner is Some && owner != Some(c.id) {
                    &&& result == Err::<(), Error>(Error::ResourceBusy)
                    &&& final(self)@ == old(self)@
                } else {
                    &&& result == Ok::<(), Error>(())
                    &&& final(self)@ == (DeviceView {
                        grab_owner: if grab {
                            Some(c.id)
                        } else if owner == Some(c.id) {
                            None
                        } else {
                            owner
                        },
                        ..old(self)@
                    })
                }
            }),
            old(self).wf() ==> final(self).wf(),
    {
        assert(self@.clients[client as int] == self.clients@[client as int]@);
        let status: DeviceStatus = self.status();
        if self.clients[client].revoked || !self.clients[client].valid_lease(status) {
            return Err(Error::NoSuchDevice);
        }
        let id: u64 = self.clients[client].id;
        self.set_grab(id, grab)
    }

    /// An open file was closed.
    pub fn close_client(&mut self, id: u64)
        ensures
            final(self)@ == (DeviceView {
                clients: clients_without(old(self)@.clients, id),
                grab_owner: if old(self)@.grab_owner == Some(id) {
                    None
                } else {
                    old(self)@.grab_owner
                },
                ..old(self)@
            }),
            old(self).wf() ==> final(self).wf(),
    {
        let ghost before = self@;
        if let Some(i) = self.client_index(id) {
            let ghost clients = self.clients@;
            let _ = self.clients.remove(i);
            assert(self@.clients =~= before.clients.remove(i as int));
            assert forall|j: int| 0 <= j < self.clients@.len() && old(self).wf() implies (
            #[trigger] self.clients@[j]).wf() by {
                if j < i {
                    assert(clients[j].wf());
                } else {
                    assert(clients[j + 1].wf());
                }
            }
        }
        if let Some(owner) = self.grab_owner {
            if owner == id {
                self.grab_owner = None;
            }
        }
        assert(self@ =~= (DeviceView {
            clients: clients_without(before.clients, id),
            grab_owner: if before.grab_owner == Some(id) {
                None
            } else {
                before.grab_owner
            },
            ..before
        }));
    }
}

/// A client of a device that was paused never becomes usable again, though the device
/// does: whatever becomes of the device, its reads fail and it hangs up.
pub proof fn law_a_pause_revokes_for_good(
    v: DeviceView,
    i: int,
    later: DeviceStatus,
    frame: Seq<EvdevRecord>,
    len: nat,
)
    requires
        0 <= i < v.clients.len(),
        !v.disconnected,
        !v.paused,
    ensures
        ({
            let c = paused(v).clients[i];
            &&& c.revoked
            &&& enqueued(c, frame).revoked
            &&& read_error(enqueued(c, frame), later, len) == Some(Error::NoSuchDevice)
            &&& file_events(enqueued(c, frame), later) == (FileEvents {
                readable: false,
                hangup: true,
                error: true,
            })
        }),
{
}

/// After a removal every read of an open file says that there is no such device, and a
/// poll says that it hung up, with an error.
pub proof fn law_a_removed_device_answers_no_one(v: DeviceView, i: int, len: nat)
    requires
        0 <= i < v.clients.len(),
    ensures
        ({
            let after = disconnected(v);
            let status = DeviceStatus {
                disconnected: after.disconnected,
                paused: after.paused,
                lease: after.session_lease,
            };
            &&& read_error(after.clients[i], status, len) == Some(Error::NoSuchDevice)
            &&& file_events(after.clients[i], status) == (FileEvents {
                readable: false,
                hangup: true,
                error: true,
            })
        }),
{
}

/// Events go to the client that took the device, and to no other.
pub proof fn law_a_grab_excludes_the_others(v: DeviceView, i: int)
    requires
        0 <= i < v.clients.len(),
        v.grab_owner is Some,
        v.grab_owner != Some(v.clients[i].id),
    ensures
        reported(v).clients[i] == v.clients[i],
{
}

} // verus!
