//! The control calls of an event file.
//!
//! A call is decoded, then the caller reads what the call takes from user memory
//! and asks the driver what only it knows, and then the call is answered.

use vstd::prelude::*;
use crate::bytes::{get_u32, get_u64, le16, le32, push_bytes, push_u16, push_u32, push_zeroes, u32_at,
    u64_at};
use crate::error::Error;
use crate::evdev::bits::{bitmap_bytes, linux_bitmap_len, set_bit_if_fits, with_bit, word_bytes};
use crate::evdev::client::{clock_of, has_lease, known_mask_type, mask_image, mask_type, revoked,
    ClientView, DeviceStatus};
use crate::evdev::device::{DeviceView, EvdevDevice};
use crate::evdev::event::{codes_of, numbered_type, EventType, EV_COUNT, EV_MAX};

verus! {

pub const EVIOCGVERSION: u32 = 0x8004_4501;

pub const EVIOCGID: u32 = 0x8008_4502;

pub const EVIOCGREP: u32 = 0x8008_4503;

pub const EVIOCSREP: u32 = 0x4008_4503;

pub const EVIOCGRAB: u32 = 0x4004_4590;

pub const EVIOCREVOKE: u32 = 0x4004_4591;

pub const EVIOCGMASK: u32 = 0x8010_4592;

pub const EVIOCSMASK: u32 = 0x4010_4593;

pub const EVIOCSCLOCKID: u32 = 0x4004_45a0;

/// The version of the interface.
pub const EV_VERSION: u32 = 0x1_0001;

/// A decoded call.
#[derive(Clone, Copy, Debug, PartialEq, Eq, Structural)]
pub enum EvdevIoctl {
    Version,
    Id,
    Grab,
    Revoke,
    SetClock,
    GetRepeat,
    SetRepeat,
    SetMask,
    GetMask,
    Name { size: usize },
    Location { size: usize },
    Unique { size: usize },
    Properties { size: usize },
    Keys { size: usize },
    Leds { size: usize },
    Switches { size: usize },
    Slots { size: usize },
    EventBits { event_type: u8, size: usize },
    AbsInfo { axis: u8, size: usize },
}

/// The size that a call's number encodes.
pub open spec fn encoded_size(cmd: u32) -> usize {
    ((cmd / 0x1_0000) % 0x4000) as usize
}

/// The call of a number, if there is one.
pub open spec fn decoded(cmd: u32) -> Option<EvdevIoctl> {
    let nr = cmd % 0x100;
    let size = encoded_size(cmd);
    if cmd == EVIOCGVERSION {
        Some(EvdevIoctl::Version)
    } else if cmd == EVIOCGID {
        Some(EvdevIoctl::Id)
    } else if cmd == EVIOCGRAB {
        Some(EvdevIoctl::Grab)
    } else if cmd == EVIOCREVOKE {
        Some(EvdevIoctl::Revoke)
    } else if cmd == EVIOCSCLOCKID {
        Some(EvdevIoctl::SetClock)
    } else if cmd == EVIOCGREP {
        Some(EvdevIoctl::GetRepeat)
    } else if cmd == EVIOCSREP {
        Some(EvdevIoctl::SetRepeat)
    } else if cmd == EVIOCSMASK {
        Some(EvdevIoctl::SetMask)
    } else if cmd == EVIOCGMASK {
        Some(EvdevIoctl::GetMask)
    } else if (cmd / 0x100) % 0x100 != 0x45 || cmd / 0x4000_0000 != 2 {
        None
    } else if nr == 0x06 {
        Some(EvdevIoctl::Name { size })
    } else if nr == 0x07 {
        Some(EvdevIoctl::Location { size })
    } else if nr == 0x08 {
        Some(EvdevIoctl::Unique { size })
    } else if nr == 0x09 {
        Some(EvdevIoctl::Properties { size })
    } else if nr == 0x18 {
        Some(EvdevIoctl::Keys { size })
    } else if nr == 0x19 {
        Some(EvdevIoctl::Leds { size })
    } else if nr == 0x1b {
        Some(EvdevIoctl::Switches { size })
    } else if nr == 0x0a {
        Some(EvdevIoctl::Slots { size })
    } else if 0x20 <= nr < 0x40 {
        Some(EvdevIoctl::EventBits { event_type: (nr - 0x20) as u8, size })
    } else if 0x40 <= nr < 0x80 {
        Some(EvdevIoctl::AbsInfo { axis: (nr - 0x40) as u8, size })
    } else {
        None
    }
}

/// Decode a call.
pub fn decode_ioctl(cmd: u32) -> (result: Result<EvdevIoctl, Error>)
    ensures
        result == (match decoded(cmd) {
            Some(request) => Ok(request),
            None => Err(Error::NotATty),
        }),
        result matches Ok(EvdevIoctl::EventBits { event_type, .. }) ==> event_type < EV_COUNT,
{
    let nr: u32 = cmd % 0x100;
    let size: usize = ((cmd / 0x1_0000) % 0x4000) as usize;
    match cmd {
        EVIOCGVERSION => Ok(EvdevIoctl::Version),
        EVIOCGID => Ok(EvdevIoctl::Id),
        EVIOCGRAB => Ok(EvdevIoctl::Grab),
        EVIOCREVOKE => Ok(EvdevIoctl::Revoke),
        EVIOCSCLOCKID => Ok(EvdevIoctl::SetClock),
        EVIOCGREP => Ok(EvdevIoctl::GetRepeat),
        EVIOCSREP => Ok(EvdevIoctl::SetRepeat),
        EVIOCSMASK => Ok(EvdevIoctl::SetMask),
        EVIOCGMASK => Ok(EvdevIoctl::GetMask),
        _ => {
            if (cmd / 0x100) % 0x100 != 0x45 || cmd / 0x4000_0000 != 2 {
                return Err(Error::NotATty);
            }
            match nr {
                0x06 => Ok(EvdevIoctl::Name { size }),
                0x07 => Ok(EvdevIoctl::Location { size }),
                0x08 => Ok(EvdevIoctl::Unique { size }),
                0x09 => Ok(EvdevIoctl::Properties { size }),
                0x18 => Ok(EvdevIoctl::Keys { size }),
                0x19 => Ok(EvdevIoctl::Leds { size }),
                0x1b => Ok(EvdevIoctl::Switches { size }),
                0x0a => Ok(EvdevIoctl::Slots { size }),
                _ => {
                    if 0x20 <= nr && nr < 0x40 {
                        Ok(EvdevIoctl::EventBits { event_type: (nr - 0x20) as u8, size })
                    } else if 0x40 <= nr && nr < 0x80 {
                        Ok(EvdevIoctl::AbsInfo { axis: (nr - 0x40) as u8, size })
                    } else {
                        Err(Error::NotATty)
                    }
                },
            }
        },
    }
}

/// Whether a call for slots has room for an axis and whole values.
pub open spec fn slots_fit(size: usize) -> bool {
    size >= 4 && size % 4 == 0
}

/// The bytes that a call takes from user memory.
pub open spec fn input_size(request: EvdevIoctl) -> nat {
    match request {
        EvdevIoctl::Grab => 4,
        EvdevIoctl::SetClock => 4,
        EvdevIoctl::SetRepeat => 8,
        EvdevIoctl::SetMask => 16,
        EvdevIoctl::GetMask => 16,
        EvdevIoctl::Slots { size } => if slots_fit(size) {
            4
        } else {
            0
        },
        _ => 0,
    }
}

/// The class whose bits may be asked for.
pub open spec fn queried_class(event_type: u8) -> Option<EventType> {
    match numbered_type(event_type) {
        Some(EventType::Key) => Some(EventType::Key),
        Some(EventType::Relative) => Some(EventType::Relative),
        Some(EventType::Absolute) => Some(EventType::Absolute),
        Some(EventType::Misc) => Some(EventType::Misc),
        Some(EventType::Switch) => Some(EventType::Switch),
        Some(EventType::Led) => Some(EventType::Led),
        Some(EventType::Sound) => Some(EventType::Sound),
        Some(EventType::ForceFeedback) => Some(EventType::ForceFeedback),
        _ => None,
    }
}

/// The length of a bitmap answer.
pub open spec fn bitmap_len(size: usize, max_bit: nat) -> nat {
    if word_bytes(max_bit) <= size {
        word_bytes(max_bit)
    } else {
        size as nat
    }
}

/// What only the driver knows.
#[derive(Clone, Copy, Debug, PartialEq, Eq, Structural)]
pub enum DriverQuery {
    Nothing,
    Id,
    Name,
    Location,
    Unique,
    /// The properties, into a zeroed buffer of this length.
    Properties(usize),
    /// For every class whether the device has it.
    Classes,
    /// The codes of a class that the device has, into a zeroed buffer of this
    /// length.
    Codes(EventType, usize),
    /// The range of an axis.
    Axis(u8),
    /// Whether the device has repeats.
    Repeats,
}

/// What a call asks the driver, or why it fails before.
pub open spec fn query_of(request: EvdevIoctl) -> Result<DriverQuery, Error> {
    match request {
        EvdevIoctl::Id => Ok(DriverQuery::Id),
        EvdevIoctl::Name { .. } => Ok(DriverQuery::Name),
        EvdevIoctl::Location { .. } => Ok(DriverQuery::Location),
        EvdevIoctl::Unique { .. } => Ok(DriverQuery::Unique),
        EvdevIoctl::Properties { size } => Ok(
            DriverQuery::Properties(bitmap_len(size, 0x1f) as usize),
        ),
        EvdevIoctl::SetRepeat => Ok(DriverQuery::Repeats),
        EvdevIoctl::EventBits { event_type, size } => if event_type == 0 {
            Ok(DriverQuery::Classes)
        } else {
            match queried_class(event_type) {
                Some(class) => Ok(
                    DriverQuery::Codes(
                        class,
                        bitmap_len(size, (codes_of(class) - 1) as nat) as usize,
                    ),
                ),
                None => Err(Error::InvalidInput),
            }
        },
        EvdevIoctl::AbsInfo { axis, .. } => Ok(DriverQuery::Axis(axis)),
        _ => Ok(DriverQuery::Nothing),
    }
}

impl EvdevIoctl {
    /// The bytes that the call takes from user memory.
    pub fn input_len(self) -> (len: usize)
        ensures
            len == input_size(self),
    {
        match self {
            EvdevIoctl::Grab => 4,
            EvdevIoctl::SetClock => 4,
            EvdevIoctl::SetRepeat => 8,
            EvdevIoctl::SetMask => 16,
            EvdevIoctl::GetMask => 16,
            EvdevIoctl::Slots { size } => {
                if size >= 4 && size % 4 == 0 {
                    4
                } else {
                    0
                }
            },
            _ => 0,
        }
    }

    /// What the call asks the driver.
    pub fn driver_query(self) -> (query: Result<DriverQuery, Error>)
        ensures
            query == query_of(self),
    {
        match self {
            EvdevIoctl::Id => Ok(DriverQuery::Id),
            EvdevIoctl::Name { .. } => Ok(DriverQuery::Name),
            EvdevIoctl::Location { .. } => Ok(DriverQuery::Location),
            EvdevIoctl::Unique { .. } => Ok(DriverQuery::Unique),
            EvdevIoctl::Properties { size } => Ok(
                DriverQuery::Properties(linux_bitmap_len(size, EV_MAX as usize)),
            ),
            EvdevIoctl::SetRepeat => Ok(DriverQuery::Repeats),
            EvdevIoctl::EventBits { event_type, size } => {
                if event_type == 0 {
                    return Ok(DriverQuery::Classes);
                }
                match EventType::from_repr(event_type) {
                    Some(class) => match class {
                        EventType::Key
                        | EventType::Relative
                        | EventType::Absolute
                        | EventType::Misc
                        | EventType::Switch
                        | EventType::Led
                        | EventType::Sound
                        | EventType::ForceFeedback => {
                            let max_bit: usize = class.bits_count() - 1;
                            Ok(DriverQuery::Codes(class, linux_bitmap_len(size, max_bit)))
                        },
                        _ => Err(Error::InvalidInput),
                    },
                    None => Err(Error::InvalidInput),
                }
            },
            EvdevIoctl::AbsInfo { axis, .. } => Ok(DriverQuery::Axis(axis)),
            _ => Ok(DriverQuery::Nothing),
        }
    }

    /// Whether pending events are taken from the driver before the call is
    /// answered.
    pub fn needs_pump(self) -> (needs: bool)
        ensures
            needs == (self is Keys || self is Leds || self is Switches || (
            self matches EvdevIoctl::Slots { size } && slots_fit(size)) || self is AbsInfo),
    {
        match self {
            EvdevIoctl::Keys { .. } => true,
            EvdevIoctl::Leds { .. } => true,
            EvdevIoctl::Switches { .. } => true,
            EvdevIoctl::Slots { size } => size >= 4 && size % 4 == 0,
            EvdevIoctl::AbsInfo { .. } => true,
            _ => false,
        }
    }
}

/// The identity of a device.
#[derive(Clone, Copy, Debug, PartialEq, Eq, Structural)]
pub struct InputDeviceId {
    pub bus_type: u16,
    pub vendor: u16,
    pub product: u16,
    pub version: u16,
}

/// The range of an axis.
#[derive(Clone, Copy, Debug, PartialEq, Eq, Structural)]
pub struct AbsRange {
    pub min: u32,
    pub max: u32,
    pub fuzz: u32,
    pub flat: u32,
    pub res: u32,
}

/// What the driver said.
pub enum DriverAnswer {
    Nothing,
    Id(InputDeviceId),
    Text(Vec<u8>),
    /// A filled buffer, or that the driver failed.
    Bits(Option<Vec<u8>>),
    /// For every number of a class whether the device has it.
    Classes(Vec<bool>),
    /// A range, or that the device has no such axis.
    Range(Option<AbsRange>),
    Supported(bool),
}

/// Whether an answer is one to a query.
pub open spec fn answers(query: DriverQuery, answer: DriverAnswer) -> bool {
    match query {
        DriverQuery::Nothing => true,
        DriverQuery::Id => answer is Id,
        DriverQuery::Name => answer is Text,
        DriverQuery::Location => answer is Text,
        DriverQuery::Unique => answer is Text,
        DriverQuery::Properties(_) => answer is Bits,
        DriverQuery::Classes => answer is Classes && answer->Classes_0@.len() == EV_COUNT,
        DriverQuery::Codes(_, _) => answer is Bits,
        DriverQuery::Axis(_) => answer is Range,
        DriverQuery::Repeats => answer is Supported,
    }
}

/// What is left to do after a call.
pub enum IoctlReply {
    /// Nothing but to return the value.
    Done(usize),
    /// Write these bytes to the call's argument.
    Write(Vec<u8>, usize),
    /// Write these bytes to this address.
    WriteAt(u64, Vec<u8>),
    /// Write so many zeroes to this address.
    ZeroesAt(u64, usize),
    /// Read so many bytes from this address as the mask of a class.
    ReadMask { pointer: u64, len: usize, event_type: u16 },
}

/// What is said of what is left to do.
pub enum ReplyView {
    Done(usize),
    Write(Seq<u8>, usize),
    WriteAt(u64, Seq<u8>),
    ZeroesAt(u64, usize),
    ReadMask { pointer: u64, len: usize, event_type: u16 },
}

impl IoctlReply {
    pub open spec fn view(&self) -> ReplyView {
        match self {
            IoctlReply::Done(value) => ReplyView::Done(*value),
            IoctlReply::Write(bytes, value) => ReplyView::Write(bytes@, *value),
            IoctlReply::WriteAt(pointer, bytes) => ReplyView::WriteAt(*pointer, bytes@),
            IoctlReply::ZeroesAt(pointer, len) => ReplyView::ZeroesAt(*pointer, *len),
            IoctlReply::ReadMask { pointer, len, event_type } => ReplyView::ReadMask {
                pointer: *pointer,
                len: *len,
                event_type: *event_type,
            },
        }
    }
}

/// The image of an identity.
pub open spec fn id_image(id: InputDeviceId) -> Seq<u8> {
    le16(id.bus_type) + le16(id.vendor) + le16(id.product) + le16(id.version)
}

/// A text in a buffer of `size` bytes: cut off, or with zeroes after it.
pub open spec fn text_image(text: Seq<u8>, size: nat) -> Seq<u8> {
    Seq::new(
        size,
        |i: int|
            if i < text.len() {
                text[i]
            } else {
                0
            },
    )
}

/// The classes that a device has, in a buffer of `len` bytes.
pub open spec fn class_bits(classes: Seq<bool>, len: nat, n: nat) -> Seq<u8>
    decreases n,
{
    if n == 0 {
        Seq::new(len, |i: int| 0u8)
    } else {
        let rest = class_bits(classes, len, (n - 1) as nat);
        if numbered_type((n - 1) as u8) is Some && classes[n - 1] {
            with_bit(rest, n - 1)
        } else {
            rest
        }
    }
}

/// The last value of an axis.
pub open spec fn last_value(v: DeviceView, axis: u8) -> i32 {
    if v.abs.contains_key(axis) {
        v.abs[axis]
    } else {
        0
    }
}

/// The image of an axis.
pub open spec fn axis_image(value: i32, range: AbsRange) -> Seq<u8> {
    le32(value as u32) + le32(range.min) + le32(range.max) + le32(range.fuzz) + le32(range.flat)
        + le32(range.res)
}

/// The images of the first `n` values of a slotted axis; where it has none, zero.
pub open spec fn slot_images(values: Seq<i32>, n: nat) -> Seq<u8>
    decreases n,
{
    if n == 0 {
        Seq::empty()
    } else {
        slot_images(values, (n - 1) as nat) + le32(
            if n - 1 < values.len() {
                values[n - 1] as u32
            } else {
                0
            },
        )
    }
}

/// The bytes of a class's mask.
pub open spec fn mask_len(event_type: u16) -> nat {
    match mask_type(event_type) {
        Some(class) => (codes_of(class) + 7) / 8,
        None => 0,
    }
}

/// The class of a mask call, where its number is in range.
pub open spec fn mask_class(event_type: u32) -> Option<u16> {
    if event_type <= EV_MAX {
        Some(event_type as u16)
    } else {
        None
    }
}

/// A bounded length.
pub open spec fn at_most(len: nat, bound: nat) -> nat {
    if len <= bound {
        len
    } else {
        bound
    }
}

/// What a device goes by in answering a client.
pub open spec fn status_of(v: DeviceView) -> DeviceStatus {
    DeviceStatus { disconnected: v.disconnected, paused: v.paused, lease: v.session_lease }
}

/// The answer to a call.
pub open spec fn replied(
    v: DeviceView,
    client: int,
    request: EvdevIoctl,
    arg: u64,
    input: Seq<u8>,
    answer: DriverAnswer,
) -> Result<ReplyView, Error> {
    let c = v.clients[client];
    match request {
        EvdevIoctl::Version => Ok(ReplyView::Write(le32(EV_VERSION), 0)),
        EvdevIoctl::Id => Ok(ReplyView::Write(id_image(answer->Id_0), 0)),
        EvdevIoctl::Grab => {
            let grab = u32_at(input, 0) != 0;
            if c.revoked || !has_lease(c, status_of(v)) {
                Err(Error::NoSuchDevice)
            } else if grab && v.grab_owner is Some && v.grab_owner != Some(c.id) {
                Err(Error::ResourceBusy)
            } else {
                Ok(ReplyView::Done(0))
            }
        },
        EvdevIoctl::Revoke => if arg != 0 {
            Err(Error::InvalidInput)
        } else {
            Ok(ReplyView::Done(0))
        },
        EvdevIoctl::SetClock => if clock_of(u32_at(input, 0) as i32) is Some {
            Ok(ReplyView::Done(0))
        } else {
            Err(Error::InvalidInput)
        },
        EvdevIoctl::GetRepeat => Ok(
            ReplyView::Write(le32(v.repeat.0) + le32(v.repeat.1), 0),
        ),
        EvdevIoctl::SetRepeat => if answer->Supported_0 {
            Ok(ReplyView::Done(0))
        } else {
            Err(Error::InvalidInput)
        },
        EvdevIoctl::SetMask => match mask_class(u32_at(input, 0)) {
            None => Ok(ReplyView::Done(0)),
            Some(event_type) => Ok(
                ReplyView::ReadMask {
                    pointer: u64_at(input, 8),
                    len: at_most(u32_at(input, 4) as nat, mask_len(event_type)) as usize,
                    event_type,
                },
            ),
        },
        EvdevIoctl::GetMask => match mask_class(u32_at(input, 0)) {
            None => Ok(ReplyView::ZeroesAt(u64_at(input, 8), u32_at(input, 4) as usize)),
            Some(event_type) => Ok(
                ReplyView::WriteAt(
                    u64_at(input, 8),
                    mask_image(
                        c.masks,
                        event_type,
                        at_most(u32_at(input, 4) as nat, mask_len(event_type)),
                    ),
                ),
            ),
        },
        EvdevIoctl::Name { size } => Ok(
            ReplyView::Write(text_image(answer->Text_0@, size as nat), 0),
        ),
        EvdevIoctl::Location { size } => Ok(
            ReplyView::Write(text_image(answer->Text_0@, size as nat), 0),
        ),
        EvdevIoctl::Unique { size } => Ok(
            ReplyView::Write(text_image(answer->Text_0@, size as nat), 0),
        ),
        EvdevIoctl::Properties { size } => match answer->Bits_0 {
            Some(bits) => {
                let len = bitmap_len(size, 0x1f);
                Ok(ReplyView::Write(text_image(bits@, len), len as usize))
            },
            None => Err(Error::InvalidInput),
        },
        EvdevIoctl::Keys { size } => Ok(
            ReplyView::Write(bitmap_bytes(v.keys, 768, size as nat), 0),
        ),
        EvdevIoctl::Leds { size } => Ok(
            ReplyView::Write(bitmap_bytes(v.leds, 16, size as nat), 0),
        ),
        EvdevIoctl::Switches { size } => Ok(
            ReplyView::Write(bitmap_bytes(v.switches, 18, size as nat), 0),
        ),
        EvdevIoctl::Slots { size } => {
            let axis = u32_at(input, 0);
            if !slots_fit(size) || axis > 255 || !v.slots.contains_key(axis as u8) {
                Err(Error::InvalidInput)
            } else {
                Ok(
                    ReplyView::Write(
                        le32(axis) + slot_images(
                            v.slots[axis as u8],
                            ((size - 4) / 4) as nat,
                        ),
                        0,
                    ),
                )
            }
        },
        EvdevIoctl::EventBits { event_type, size } => if event_type == 0 {
            let len = bitmap_len(size, 0x1f);
            Ok(ReplyView::Write(class_bits(answer->Classes_0@, len, 0x20), len as usize))
        } else {
            match (queried_class(event_type), answer->Bits_0) {
                (Some(class), Some(bits)) => {
                    let len = bitmap_len(size, (codes_of(class) - 1) as nat);
                    Ok(ReplyView::Write(text_image(bits@, len), len as usize))
                },
                _ => Err(Error::InvalidInput),
            }
        },
        EvdevIoctl::AbsInfo { axis, size } => match answer->Range_0 {
            Some(range) => {
                Ok(
                    ReplyView::Write(
                        axis_image(last_value(v, axis), range).subrange(0, at_most(24, size as nat) as int),
                        0,
                    ),
                )
            },
            None => Err(Error::InvalidInput),
        },
    }
}

/// The device after a call.
pub open spec fn called(
    v: DeviceView,
    client: int,
    request: EvdevIoctl,
    arg: u64,
    input: Seq<u8>,
    answer: DriverAnswer,
) -> DeviceView {
    let c = v.clients[client];
    if replied(v, client, request, arg, input, answer) is Err {
        v
    } else {
        match request {
            EvdevIoctl::Grab => DeviceView {
                grab_owner: if u32_at(input, 0) != 0 {
                    Some(c.id)
                } else if v.grab_owner == Some(c.id) {
                    None
                } else {
                    v.grab_owner
                },
                ..v
            },
            EvdevIoctl::Revoke => DeviceView {
                clients: v.clients.update(client, revoked(c)),
                ..v
            },
            EvdevIoctl::SetClock => DeviceView {
                clients: v.clients.update(
                    client,
                    ClientView { clock: clock_of(u32_at(input, 0) as i32)->0, ..c },
                ),
                ..v
            },
            EvdevIoctl::SetRepeat => DeviceView {
                repeat: (u32_at(input, 0), u32_at(input, 4)),
                ..v
            },
            _ => v,
        }
    }
}

pub(crate) fn text_bytes(text: &Vec<u8>, size: usize) -> (bytes: Vec<u8>)
    ensures
        bytes@ == text_image(text@, size as nat),
{
    let mut bytes: Vec<u8> = Vec::new();
    let mut i: usize = 0;
    while i < size
        invariant
            i <= size,
            bytes@.len() == i,
            forall|j: int|
                0 <= j < i ==> #[trigger] bytes@[j] == (if j < text@.len() {
                    text@[j]
                } else {
                    0
                }),
        decreases size - i,
    {
        bytes.push(
            if i < text.len() {
                text[i]
            } else {
                0
            },
        );
        i = i + 1;
    }
    assert(bytes@ =~= text_image(text@, size as nat));
    bytes
}

pub(crate) fn class_bytes(classes: &Vec<bool>, len: usize) -> (bytes: Vec<u8>)
    requires
        classes@.len() == EV_COUNT,
    ensures
        bytes@ == class_bits(classes@, len as nat, 0x20),
{
    let mut bytes: Vec<u8> = Vec::new();
    push_zeroes(&mut bytes, len);
    assert(bytes@ =~= class_bits(classes@, len as nat, 0));
    let mut n: u8 = 0;
    while n < EV_COUNT
        invariant
            n <= 0x20,
            classes@.len() == 0x20,
            bytes@ == class_bits(classes@, len as nat, n as nat),
        decreases 0x20 - n,
    {
        if EventType::from_repr(n).is_some() && classes[n as usize] {
            set_bit_if_fits(bytes.as_mut_slice(), n as usize);
        }
        n = n + 1;
    }
    bytes
}

/// The bytes of a class's mask.
pub fn event_mask_len(event_type: u16) -> (len: usize)
    ensures
        len == mask_len(event_type),
{
    match known_mask_type(event_type) {
        Some(class) => (class.bits_count() + 7) / 8,
        None => 0,
    }
}

/// The class of a mask call, where its number is in range.
pub fn input_mask_event_type(event_type: u32) -> (class: Option<u16>)
    ensures
        class == mask_class(event_type),
{
    if event_type <= EV_MAX as u32 {
        Some(event_type as u16)
    } else {
        None
    }
}

fn bounded_len(len: u32, bound: usize) -> (least: usize)
    requires
        bound <= 0x1000,
    ensures
        least == at_most(len as nat, bound as nat),
{
    if len <= bound as u32 {
        len as usize
    } else {
        bound
    }
}

fn axis_bytes(fields: [i32; 6]) -> (image: Vec<u8>)
    ensures
        image@ == le32(fields@[0] as u32) + le32(fields@[1] as u32) + le32(fields@[2] as u32) + le32(
            fields@[3] as u32,
        ) + le32(fields@[4] as u32) + le32(fields@[5] as u32),
{
    let mut image: Vec<u8> = Vec::new();
    push_u32(&mut image, #[verifier::truncate] (fields[0] as u32));
    push_u32(&mut image, #[verifier::truncate] (fields[1] as u32));
    push_u32(&mut image, #[verifier::truncate] (fields[2] as u32));
    push_u32(&mut image, #[verifier::truncate] (fields[3] as u32));
    push_u32(&mut image, #[verifier::truncate] (fields[4] as u32));
    push_u32(&mut image, #[verifier::truncate] (fields[5] as u32));
    image
}

impl EvdevDevice {
    /// The six fields of an axis: its last value, and the range that the driver
    /// gives it.
    pub fn abs_info(&self, axis: u8, range: AbsRange) -> (fields: [i32; 6])
        ensures
            fields@ == seq![
                last_value(self@, axis),
                range.min as i32,
                range.max as i32,
                range.fuzz as i32,
                range.flat as i32,
                range.res as i32,
            ],
            axis_image(last_value(self@, axis), range) == le32(fields@[0] as u32) + le32(
                fields@[1] as u32,
            ) + le32(fields@[2] as u32) + le32(fields@[3] as u32) + le32(fields@[4] as u32) + le32(
                fields@[5] as u32,
            ),
    {
        let fields: [i32; 6] = [
            self.abs_value(axis),
            #[verifier::truncate] (range.min as i32),
            #[verifier::truncate] (range.max as i32),
            #[verifier::truncate] (range.fuzz as i32),
            #[verifier::truncate] (range.flat as i32),
            #[verifier::truncate] (range.res as i32),
        ];
        assert(fields@ =~= seq![
            last_value(self@, axis),
            range.min as i32,
            range.max as i32,
            range.fuzz as i32,
            range.flat as i32,
            range.res as i32,
        ]);
        assert(forall|x: u32| #[trigger] (x as i32) as u32 == x) by (bit_vector);
        fields
    }

    fn slot_bytes(&self, axis: u32, size: usize) -> (bytes: Option<Vec<u8>>)
        requires
            slots_fit(size),
            axis <= 255,
        ensures
            match bytes {
                Some(bytes) => self@.slots.contains_key(axis as u8) && bytes@ == le32(axis)
                    + slot_images(self@.slots[axis as u8], ((size - 4) / 4) as nat),
                None => !self@.slots.contains_key(axis as u8),
            },
    {
        match self.mt_slots.get(&(axis as u8)) {
            Some(values) => {
                assert(self@.slots.contains_key(axis as u8) && self@.slots[axis as u8]
                    == values@);
                let count: usize = (size - 4) / 4;
                let mut bytes: Vec<u8> = Vec::new();
                push_u32(&mut bytes, axis);
                assert(bytes@ =~= le32(axis) + slot_images(values@, 0));
                let mut n: usize = 0;
                while n < count
                    invariant
                        n <= count,
                        bytes@ == le32(axis) + slot_images(values@, n as nat),
                    decreases count - n,
                {
                    let ghost before = bytes@;
                    let value: u32 = if n < values.len() {
                        #[verifier::truncate] (values[n] as u32)
                    } else {
                        0
                    };
                    push_u32(&mut bytes, value);
                    assert(bytes@ =~= le32(axis) + slot_images(values@, (n + 1) as nat));
                    n = n + 1;
                }
                Some(bytes)
            },
            None => None,
        }
    }

    /// Answer a call.
    #[verifier::rlimit(40)]
    pub fn ioctl(
        &mut self,
        client: usize,
        request: EvdevIoctl,
        arg: u64,
        input: &Vec<u8>,
        answer: &DriverAnswer,
    ) -> (result: Result<IoctlReply, Error>)
        requires
            old(self).wf(),
            client < old(self).clients@.len(),
            input@.len() == input_size(request),
            query_of(request) matches Ok(query) && answers(query, *answer),
        ensures
            match (
                replied(old(self)@, client as int, request, arg, input@, *answer),
                result,
            ) {
                (Ok(expected), Ok(reply)) => reply@ == expected,
                (Err(expected), Err(error)) => error == expected,
                _ => false,
            },
            final(self)@ == called(old(self)@, client as int, request, arg, input@, *answer),
            final(self).wf(),
    {
        let ghost v = self@;
        assert(v.clients[client as int] == self.clients@[client as int]@);
        let mut bytes: Vec<u8> = Vec::new();
        match request {
            EvdevIoctl::Version => {
                push_u32(&mut bytes, EV_VERSION);
                assert(bytes@ =~= le32(EV_VERSION));
                Ok(IoctlReply::Write(bytes, 0))
            },
            EvdevIoctl::Id => {
                if let DriverAnswer::Id(id) = answer {
                    push_u16(&mut bytes, id.bus_type);
                    push_u16(&mut bytes, id.vendor);
                    push_u16(&mut bytes, id.product);
                    push_u16(&mut bytes, id.version);
                    assert(bytes@ =~= id_image(*id));
                }
                Ok(IoctlReply::Write(bytes, 0))
            },
            EvdevIoctl::Grab => {
                let grab: bool = get_u32(input.as_slice(), 0) != 0;
                match self.grab(client, grab) {
                    Ok(()) => Ok(IoctlReply::Done(0)),
                    Err(error) => Err(error),
                }
            },
            EvdevIoctl::Revoke => {
                if arg != 0 {
                    return Err(Error::InvalidInput);
                }
                self.clients[client].revoke();
                assert(self@.clients =~= v.clients.update(
                    client as int,
                    revoked(v.clients[client as int]),
                ));
                Ok(IoctlReply::Done(0))
            },
            EvdevIoctl::SetClock => {
                let id: i32 = #[verifier::truncate] (get_u32(input.as_slice(), 0) as i32);
                match self.clients[client].set_clock_id(id) {
                    Ok(()) => {
                        assert(self@.clients =~= called(
                            v,
                            client as int,
                            request,
                            arg,
                            input@,
                            *answer,
                        ).clients);
                        Ok(IoctlReply::Done(0))
                    },
                    Err(error) => {
                        assert(self@.clients =~= v.clients);
                        Err(error)
                    },
                }
            },
            EvdevIoctl::GetRepeat => {
                push_u32(&mut bytes, self.repeat.0);
                push_u32(&mut bytes, self.repeat.1);
                assert(bytes@ =~= le32(v.repeat.0) + le32(v.repeat.1));
                Ok(IoctlReply::Write(bytes, 0))
            },
            EvdevIoctl::SetRepeat => {
                let supported: bool = if let DriverAnswer::Supported(supported) = answer {
                    *supported
                } else {
                    false
                };
                let repeat: (u32, u32) = (
                    get_u32(input.as_slice(), 0),
                    get_u32(input.as_slice(), 4),
                );
                match self.set_repeat(supported, repeat) {
                    Ok(()) => Ok(IoctlReply::Done(0)),
                    Err(error) => Err(error),
                }
            },
            EvdevIoctl::SetMask => {
                let event_type: u32 = get_u32(input.as_slice(), 0);
                let size: u32 = get_u32(input.as_slice(), 4);
                let pointer: u64 = get_u64(input.as_slice(), 8);
                match input_mask_event_type(event_type) {
                    None => Ok(IoctlReply::Done(0)),
                    Some(event_type) => {
                        let len: usize = bounded_len(size, event_mask_len(event_type));
                        Ok(IoctlReply::ReadMask { pointer, len, event_type })
                    },
                }
            },
            EvdevIoctl::GetMask => {
                let event_type: u32 = get_u32(input.as_slice(), 0);
                let size: u32 = get_u32(input.as_slice(), 4);
                let pointer: u64 = get_u64(input.as_slice(), 8);
                match input_mask_event_type(event_type) {
                    None => Ok(IoctlReply::ZeroesAt(pointer, size as usize)),
                    Some(event_type) => {
                        let len: usize = bounded_len(size, event_mask_len(event_type));
                        Ok(
                            IoctlReply::WriteAt(
                                pointer,
                                self.clients[client].mask_bits(event_type, len),
                            ),
                        )
                    },
                }
            },
            EvdevIoctl::Name { size } | EvdevIoctl::Location { size } | EvdevIoctl::Unique {
                size,
            } => {
                if let DriverAnswer::Text(text) = answer {
                    bytes = text_bytes(text, size);
                }
                Ok(IoctlReply::Write(bytes, 0))
            },
            EvdevIoctl::Properties { size } => {
                let len: usize = linux_bitmap_len(size, EV_MAX as usize);
                if let DriverAnswer::Bits(Some(bits)) = answer {
                    Ok(IoctlReply::Write(text_bytes(bits, len), len))
                } else {
                    Err(Error::InvalidInput)
                }
            },
            EvdevIoctl::Keys { size } => Ok(IoctlReply::Write(self.key_state(size), 0)),
            EvdevIoctl::Leds { size } => Ok(IoctlReply::Write(self.led_state(size), 0)),
            EvdevIoctl::Switches { size } => Ok(IoctlReply::Write(self.switch_state(size), 0)),
            EvdevIoctl::Slots { size } => {
                if !(size >= 4 && size % 4 == 0) {
                    return Err(Error::InvalidInput);
                }
                let axis: u32 = get_u32(input.as_slice(), 0);
                if axis > 255 {
                    return Err(Error::InvalidInput);
                }
                match self.slot_bytes(axis, size) {
                    Some(bytes) => Ok(IoctlReply::Write(bytes, 0)),
                    None => Err(Error::InvalidInput),
                }
            },
            EvdevIoctl::EventBits { event_type, size } => {
                if event_type == 0 {
                    let len: usize = linux_bitmap_len(size, EV_MAX as usize);
                    if let DriverAnswer::Classes(classes) = answer {
                        bytes = class_bytes(classes, len);
                    }
                    return Ok(IoctlReply::Write(bytes, len));
                }
                match request.driver_query() {
                    Ok(DriverQuery::Codes(_, len)) => {
                        if let DriverAnswer::Bits(Some(bits)) = answer {
                            Ok(IoctlReply::Write(text_bytes(bits, len), len))
                        } else {
                            Err(Error::InvalidInput)
                        }
                    },
                    _ => Err(Error::InvalidInput),
                }
            },
            EvdevIoctl::AbsInfo { axis, size } => {
                if let DriverAnswer::Range(Some(range)) = answer {
                    let image = axis_bytes(self.abs_info(axis, *range));
                    let ghost value = last_value(v, axis);
                    assert(image@ =~= axis_image(value, *range));
                    let len: usize = if size < 24 {
                        size
                    } else {
                        24
                    };
                    push_bytes(&mut bytes, &image.as_slice()[0..len]);
                    assert(bytes@ =~= axis_image(value, *range).subrange(0, len as int));
                    Ok(IoctlReply::Write(bytes, 0))
                } else {
                    Err(Error::InvalidInput)
                }
            },
        }
    }
}

} // verus!
