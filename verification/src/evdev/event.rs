//! Events, their classes and their images.

use vstd::prelude::*;
use crate::bytes::{le16, le32, le64, push_u16, push_u32, push_u64};

verus! {

/// The class of an event.
#[derive(Clone, Copy, Debug, PartialEq, Eq, Structural)]
pub enum EventType {
    Synchronization,
    Key,
    Relative,
    Absolute,
    Misc,
    Switch,
    Led,
    Sound,
    Repeat,
    ForceFeedback,
    Power,
    ForceFeedbackStatus,
}

/// The largest number of a class.
pub const EV_MAX: u8 = 0x1f;

/// The numbers that a class can have.
pub const EV_COUNT: u8 = 0x20;

pub const EV_SYN: u16 = 0;

pub const SYN_REPORT: u16 = 0;

pub const SYN_DROPPED: u16 = 3;

/// The number of a class.
pub open spec fn type_number(t: EventType) -> u8 {
    match t {
        EventType::Synchronization => 0x00,
        EventType::Key => 0x01,
        EventType::Relative => 0x02,
        EventType::Absolute => 0x03,
        EventType::Misc => 0x04,
        EventType::Switch => 0x05,
        EventType::Led => 0x11,
        EventType::Sound => 0x12,
        EventType::Repeat => 0x14,
        EventType::ForceFeedback => 0x15,
        EventType::Power => 0x16,
        EventType::ForceFeedbackStatus => 0x17,
    }
}

/// The class of a number.
pub open spec fn numbered_type(n: u8) -> Option<EventType> {
    if n == 0x00 {
        Some(EventType::Synchronization)
    } else if n == 0x01 {
        Some(EventType::Key)
    } else if n == 0x02 {
        Some(EventType::Relative)
    } else if n == 0x03 {
        Some(EventType::Absolute)
    } else if n == 0x04 {
        Some(EventType::Misc)
    } else if n == 0x05 {
        Some(EventType::Switch)
    } else if n == 0x11 {
        Some(EventType::Led)
    } else if n == 0x12 {
        Some(EventType::Sound)
    } else if n == 0x14 {
        Some(EventType::Repeat)
    } else if n == 0x15 {
        Some(EventType::ForceFeedback)
    } else if n == 0x16 {
        Some(EventType::Power)
    } else if n == 0x17 {
        Some(EventType::ForceFeedbackStatus)
    } else {
        None
    }
}

/// The codes of a class.
pub open spec fn codes_of(t: EventType) -> nat {
    match t {
        EventType::Synchronization => 0x10,
        EventType::Key => 0x300,
        EventType::Relative => 0x10,
        EventType::Absolute => 0x40,
        EventType::Misc => 0x08,
        EventType::Switch => 0x12,
        EventType::Led => 0x10,
        EventType::Sound => 0x08,
        EventType::Repeat => 0x02,
        EventType::ForceFeedback => 0x80,
        EventType::Power => 0x01,
        EventType::ForceFeedbackStatus => 0x02,
    }
}

impl EventType {
    pub fn number(self) -> (n: u8)
        ensures
            n == type_number(self),
    {
        match self {
            EventType::Synchronization => 0x00,
            EventType::Key => 0x01,
            EventType::Relative => 0x02,
            EventType::Absolute => 0x03,
            EventType::Misc => 0x04,
            EventType::Switch => 0x05,
            EventType::Led => 0x11,
            EventType::Sound => 0x12,
            EventType::Repeat => 0x14,
            EventType::ForceFeedback => 0x15,
            EventType::Power => 0x16,
            EventType::ForceFeedbackStatus => 0x17,
        }
    }

    pub fn from_repr(n: u8) -> (t: Option<EventType>)
        ensures
            t == numbered_type(n),
    {
        match n {
            0x00 => Some(EventType::Synchronization),
            0x01 => Some(EventType::Key),
            0x02 => Some(EventType::Relative),
            0x03 => Some(EventType::Absolute),
            0x04 => Some(EventType::Misc),
            0x05 => Some(EventType::Switch),
            0x11 => Some(EventType::Led),
            0x12 => Some(EventType::Sound),
            0x14 => Some(EventType::Repeat),
            0x15 => Some(EventType::ForceFeedback),
            0x16 => Some(EventType::Power),
            0x17 => Some(EventType::ForceFeedbackStatus),
            _ => None,
        }
    }

    /// The number of codes of the class.
    pub fn bits_count(self) -> (count: usize)
        ensures
            count == codes_of(self),
    {
        match self {
            EventType::Synchronization => 0x10,
            EventType::Key => 0x300,
            EventType::Relative => 0x10,
            EventType::Absolute => 0x40,
            EventType::Misc => 0x08,
            EventType::Switch => 0x12,
            EventType::Led => 0x10,
            EventType::Sound => 0x08,
            EventType::Repeat => 0x02,
            EventType::ForceFeedback => 0x80,
            EventType::Power => 0x01,
            EventType::ForceFeedbackStatus => 0x02,
        }
    }
}

/// A number of a class leads back to the class.
pub proof fn law_classes_and_numbers_agree(t: EventType, n: u8)
    ensures
        numbered_type(type_number(t)) == Some(t),
        numbered_type(n) is Some ==> type_number(numbered_type(n)->0) == n && n <= EV_MAX,
{
}

/// What a device reports.
#[derive(Clone, Copy, Debug, PartialEq, Eq, Structural)]
pub struct Event {
    pub event_type: u16,
    pub code: u16,
    pub value: u32,
}

/// A time since an epoch, in whole seconds and the nanoseconds after them.
#[derive(Clone, Copy, Debug, PartialEq, Eq, Structural)]
pub struct Timestamp {
    pub secs: u64,
    pub nanos: u32,
}

/// The clock that an open file reads times of.
#[derive(Clone, Copy, Debug, PartialEq, Eq, Structural)]
pub enum EvdevClock {
    Realtime,
    Monotonic,
    Boottime,
}

/// An event, stamped once when it arrives.
#[derive(Clone, Copy, Debug, PartialEq, Eq, Structural)]
pub struct EvdevRecord {
    pub event: Event,
    pub realtime_arrival: Timestamp,
    pub monotonic_arrival: Timestamp,
}

impl EvdevRecord {
    /// The arrival on a clock.  The monotonic clock starts at boot, so it is also
    /// the boot clock.
    pub open spec fn arrival(self, clock: EvdevClock) -> Timestamp {
        match clock {
            EvdevClock::Realtime => self.realtime_arrival,
            EvdevClock::Monotonic => self.monotonic_arrival,
            EvdevClock::Boottime => self.monotonic_arrival,
        }
    }

    pub fn timestamp(self, clock: EvdevClock) -> (time: Timestamp)
        ensures
            time == self.arrival(clock),
    {
        match clock {
            EvdevClock::Realtime => self.realtime_arrival,
            EvdevClock::Monotonic => self.monotonic_arrival,
            EvdevClock::Boottime => self.monotonic_arrival,
        }
    }
}

/// A time as an event image holds it.
#[derive(Clone, Copy, Debug, PartialEq, Eq, Structural)]
pub struct KernelTimeval {
    pub tv_sec: i64,
    pub tv_usec: i64,
}

impl KernelTimeval {
    pub fn new(time: Timestamp) -> (timeval: KernelTimeval)
        ensures
            timeval == (KernelTimeval {
                tv_sec: time.secs as i64,
                tv_usec: (time.nanos / 1000) as i64,
            }),
    {
        KernelTimeval {
            tv_sec: #[verifier::truncate] (time.secs as i64),
            tv_usec: (time.nanos / 1000) as i64,
        }
    }
}

/// The size of an event image.
pub const INPUT_EVENT_SIZE: usize = 24;

/// The image of a record, on a clock.
pub open spec fn input_event(record: EvdevRecord, clock: EvdevClock) -> Seq<u8> {
    let time = record.arrival(clock);
    le64((time.secs as i64) as u64) + le64(((time.nanos / 1000) as i64) as u64) + le16(
        record.event.event_type,
    ) + le16(record.event.code) + le32(record.event.value)
}

/// Append the image of a record.
pub fn push_input_event(out: &mut Vec<u8>, record: EvdevRecord, clock: EvdevClock)
    ensures
        final(out)@ == old(out)@ + input_event(record, clock),
        input_event(record, clock).len() == INPUT_EVENT_SIZE,
{
    let ghost before = out@;
    let time = KernelTimeval::new(record.timestamp(clock));
    push_u64(out, #[verifier::truncate] (time.tv_sec as u64));
    push_u64(out, #[verifier::truncate] (time.tv_usec as u64));
    push_u16(out, record.event.event_type);
    push_u16(out, record.event.code);
    push_u32(out, record.event.value);
    assert(out@ =~= before + input_event(record, clock));
}

} // verus!
