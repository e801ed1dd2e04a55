//! The directory of event nodes.
//!
//! A driver's token and a generation identify a device; the minor of its node does
//! not, since minors are used again.

use vstd::prelude::*;
use vstd::utf8::encode_utf8;
use crate::bytes::same_bytes;
use crate::error::Error;
use crate::evdev::device::{disconnected, fresh_device, paused, DeviceView, EvdevDevice,
    EVENT_NODE_MODE};
use crate::evdev::event::EV_COUNT;
use crate::evdev::sysfs::{event_registration, event_view, has_pci_transport, input_files,
    input_sysfs_description, numbered, numbered_name, on_bus, parent_registration, parent_view, pci_sysfs_registration,
    pci_view, virtio_sysfs_registration, virtio_view, InputBusIdentity, InputFacts};
use crate::registration::Registration;
use crate::text::{as_chars, digits_value, is_digit, more_digits_are_no_less};

verus! {

/// A device with its node.
pub struct InputSlot {
    pub token: u64,
    pub generation: u64,
    pub minor: u32,
    /// Whether the bus device and the transport were registered with it.
    pub transport: bool,
    pub event: EvdevDevice,
}

pub struct InputManager {
    /// In the order of their tokens.
    pub devices: Vec<InputSlot>,
    /// Minors that were given back, in ascending order.
    pub free_minors: Vec<u32>,
    /// The first minor that was never given out.
    pub next_minor: u32,
}

/// The node through which a device is opened: a character device.
#[derive(Clone, Copy, Debug, PartialEq, Eq)]
pub struct EventNode {
    /// Its major and minor number.
    pub device: (u32, u32),
    pub mode: u16,
}

/// The node of the device with this minor.
pub open spec fn node_of(minor: u32) -> EventNode {
    EventNode { device: (13, (64 + minor) as u32), mode: EVENT_NODE_MODE }
}

/// Make the node of the device with this minor.
pub fn event_node(minor: u32) -> (node: EventNode)
    requires
        minor <= u32::MAX - 64,
    ensures
        node == node_of(minor),
{
    EventNode { device: (13, 64 + minor), mode: EVENT_NODE_MODE }
}

/// What there is to register for a device, the node to make for it, and what its slot
/// will hold.
pub struct AddPlan {
    pub token: u64,
    pub generation: u64,
    pub minor: u32,
    pub node: EventNode,
    /// The bus device and the transport, for a device on a bus.
    pub transport: Option<(Registration, Registration)>,
    pub parent: Registration,
    pub event: Registration,
}

/// One of the objects that a device is registered as.
#[derive(Clone, Copy, Debug, PartialEq, Eq, Structural)]
pub enum InputObject {
    /// The device on its bus.
    Bus,
    /// Its transport.
    Transport,
    /// The input device.
    Parent,
    /// The event node.
    Event,
}

/// The objects of a device, from the bus down.
pub open spec fn objects(token: u64, transport: bool) -> Seq<(u64, InputObject)> {
    let input = seq![(token, InputObject::Parent), (token, InputObject::Event)];
    if transport {
        seq![(token, InputObject::Bus), (token, InputObject::Transport)] + input
    } else {
        input
    }
}

/// The minor that is given out next: the first that was given back, else a new one.
pub open spec fn next_given(free: Seq<u32>, next: u32) -> u32 {
    if free.len() > 0 {
        free[0]
    } else {
        next
    }
}

/// Whether numbers ascend.
pub open spec fn ascends(numbers: Seq<u32>) -> bool {
    forall|i: int, j: int|
        0 <= i < j < numbers.len() ==> #[trigger] numbers[i] < #[trigger] numbers[j]
}

/// The number that decimal digits write, where they write one.
pub open spec fn decimal_name(bytes: Seq<u8>) -> Option<u32> {
    let chars = as_chars(bytes);
    if bytes.len() > 0 && (forall|i: int| 0 <= i < chars.len() ==> is_digit(#[trigger] chars[i]))
        && digits_value(chars) <= u32::MAX {
        Some(digits_value(chars) as u32)
    } else {
        None
    }
}

/// The minor that the name of an event node names.
pub open spec fn named_minor(name: Seq<u8>) -> Option<u32> {
    if name.len() >= 5 && name.subrange(0, 5) == encode_utf8("event"@) {
        decimal_name(name.subrange(5, name.len() as int))
    } else {
        None
    }
}

pub fn parse_decimal_name(bytes: &[u8]) -> (value: Option<u32>)
    ensures
        value == decimal_name(bytes@),
{
    if bytes.len() == 0 {
        return None;
    }
    let ghost chars = as_chars(bytes@);
    let mut value: u32 = 0;
    let mut i: usize = 0;
    assert(chars.subrange(0, 0) =~= Seq::empty());
    while i < bytes.len()
        invariant
            i <= bytes@.len(),
            bytes@.len() > 0,
            chars == as_chars(bytes@),
            value == digits_value(chars.subrange(0, i as int)),
            forall|j: int| 0 <= j < i ==> is_digit(#[trigger] chars[j]),
        decreases bytes@.len() - i,
    {
        let byte: u8 = bytes[i];
        assert(chars[i as int] == byte as char);
        if byte < 48 || byte > 57 {
            assert(!is_digit(chars[i as int]));
            return None;
        }
        let ghost done = chars.subrange(0, i + 1);
        assert(done.subrange(0, done.len() - 1) =~= chars.subrange(0, i as int));
        let next: u64 = value as u64 * 10 + (byte - 48) as u64;
        assert(next == digits_value(done));
        if next > u32::MAX as u64 {
            proof {
                more_digits_are_no_less(chars, i + 1);
            }
            return None;
        }
        value = next as u32;
        i = i + 1;
    }
    assert(chars.subrange(0, chars.len() as int) =~= chars);
    Some(value)
}

impl InputManager {
    /// Tokens ascend, minors are given out once, and those given back are free.
    pub open spec fn wf(self) -> bool {
        &&& forall|i: int, j: int|
            0 <= i < j < self.devices@.len() ==> (#[trigger] self.devices@[i]).token < (
            #[trigger] self.devices@[j]).token && self.devices@[i].minor
                != self.devices@[j].minor
        &&& ascends(self.free_minors@)
        &&& forall|i: int|
            0 <= i < self.devices@.len() ==> (#[trigger] self.devices@[i]).minor < self.next_minor
                && !self.free_minors@.contains(self.devices@[i].minor)
                && self.devices@[i].event.wf()
        &&& forall|i: int|
            0 <= i < self.free_minors@.len() ==> #[trigger] self.free_minors@[i] < self.next_minor
        &&& self.next_minor <= u32::MAX - 63
    }

    /// Whether there is a device of this token.
    pub open spec fn has(self, token: u64) -> bool {
        exists|i: int| 0 <= i < self.devices@.len() && (#[trigger] self.devices@[i]).token == token
    }

    pub fn new() -> (manager: InputManager)
        ensures
            manager.wf(),
            manager.devices@.len() == 0,
            manager.free_minors@.len() == 0,
            manager.next_minor == 0,
    {
        InputManager { devices: Vec::new(), free_minors: Vec::new(), next_minor: 0 }
    }

    /// The number of devices with a token below this one.
    fn position(&self, token: u64) -> (at: usize)
        requires
            self.wf(),
        ensures
            at <= self.devices@.len(),
            forall|i: int| 0 <= i < at ==> (#[trigger] self.devices@[i]).token < token,
            forall|i: int|
                at <= i < self.devices@.len() ==> (#[trigger] self.devices@[i]).token >= token,
    {
        let mut at: usize = 0;
        while at < self.devices.len() && self.devices[at].token < token
            invariant
                at <= self.devices@.len(),
                self.wf(),
                forall|i: int| 0 <= i < at ==> (#[trigger] self.devices@[i]).token < token,
            decreases self.devices@.len() - at,
        {
            at = at + 1;
        }
        at
    }

    /// Give out a minor: the least that was given back, else a new one.
    pub fn identity(&mut self, token: u64) -> (result: Result<u32, Error>)
        requires
            old(self).wf(),
        ensures
            final(self).wf(),
            final(self).devices == old(self).devices,
            if old(self).has(token) {
                &&& result == Err::<u32, Error>(Error::AlreadyExists)
                &&& *final(self) == *old(self)
            } else if old(self).free_minors@.len() > 0 {
                &&& result == Ok::<u32, Error>(old(self).free_minors@[0])
                &&& final(self).free_minors@ == old(self).free_minors@.subrange(
                    1,
                    old(self).free_minors@.len() as int,
                )
                &&& final(self).next_minor == old(self).next_minor
            } else if old(self).next_minor > u32::MAX - 64 {
                &&& result == Err::<u32, Error>(Error::NoMemory)
                &&& *final(self) == *old(self)
            } else {
                &&& result == Ok::<u32, Error>(old(self).next_minor)
                &&& final(self).free_minors == old(self).free_minors
                &&& final(self).next_minor == old(self).next_minor + 1
            },
            result matches Ok(minor) ==> {
                &&& minor < final(self).next_minor
                &&& minor <= u32::MAX - 64
                &&& !final(self).free_minors@.contains(minor)
                &&& forall|i: int|
                    0 <= i < old(self).devices@.len() ==> (#[trigger] old(self).devices@[i]).minor
                        != minor
            },
    {
        let at: usize = self.position(token);
        if at < self.devices.len() && self.devices[at].token == token {
            assert(self.devices@[at as int].token == token);
            return Err(Error::AlreadyExists);
        }
        assert(!self.has(token));
        if self.free_minors.len() > 0 {
            let ghost free = self.free_minors@;
            let minor: u32 = self.free_minors.remove(0);
            assert(self.free_minors@ =~= free.subrange(1, free.len() as int));
            proof {
                assert(free.contains(free[0]));
                assert forall|i: int| 0 <= i < self.devices@.len() implies !self.free_minors@.contains(
                    (#[trigger] self.devices@[i]).minor,
                ) by {
                    if self.free_minors@.contains(self.devices@[i].minor) {
                        let j = choose|j: int|
                            0 <= j < self.free_minors@.len() && self.free_minors@[j]
                                == self.devices@[i].minor;
                        assert(free[j + 1] == self.devices@[i].minor);
                        assert(free.contains(self.devices@[i].minor));
                    }
                }
                if self.free_minors@.contains(minor) {
                    let j = choose|j: int|
                        0 <= j < self.free_minors@.len() && self.free_minors@[j] == minor;
                    assert(free[j + 1] == minor);
                    assert(free[0] < free[j + 1]);
                }
            }
            return Ok(minor);
        }
        let minor: u32 = self.next_minor;
        if minor > u32::MAX - 64 {
            return Err(Error::NoMemory);
        }
        self.next_minor = minor + 1;
        Ok(minor)
    }

    /// Give a minor back.
    pub fn release_minor(&mut self, minor: u32)
        requires
            old(self).wf(),
            minor < old(self).next_minor,
            forall|i: int|
                0 <= i < old(self).devices@.len() ==> (#[trigger] old(self).devices@[i]).minor
                    != minor,
        ensures
            final(self).wf(),
            final(self).devices == old(self).devices,
            final(self).next_minor == old(self).next_minor,
            forall|m: u32|
                #[trigger] final(self).free_minors@.contains(m) <==> old(
                    self,
                ).free_minors@.contains(m) || m == minor,
    {
        let ghost free = self.free_minors@;
        let mut at: usize = 0;
        while at < self.free_minors.len() && self.free_minors[at] < minor
            invariant
                at <= self.free_minors@.len(),
                free == self.free_minors@,
                forall|i: int| 0 <= i < at ==> #[trigger] free[i] < minor,
            decreases self.free_minors@.len() - at,
        {
            at = at + 1;
        }
        if at < self.free_minors.len() && self.free_minors[at] == minor {
            assert(free[at as int] == minor);
            return;
        }
        self.free_minors.insert(at, minor);
        proof {
            let after = self.free_minors@;
            assert(after =~= free.insert(at as int, minor));
            assert forall|i: int, j: int| 0 <= i < j < after.len() implies #[trigger] after[i]
                < #[trigger] after[j] by {
                if i < at && j > at {
                    assert(free[i] < free[j - 1]);
                } else if j < at {
                    assert(free[i] < free[j]);
                } else if i > at {
                    assert(free[i - 1] < free[j - 1]);
                } else if i == at {
                    if j - 1 > at {
                        assert(free[at as int] < free[j - 1]);
                    }
                }
            }
            assert forall|m: u32| #[trigger] after.contains(m) <==> free.contains(m) || m
                == minor by {
                if free.contains(m) {
                    let i = choose|i: int| 0 <= i < free.len() && free[i] == m;
                    if i < at {
                        assert(after[i] == m);
                    } else {
                        assert(after[i + 1] == m);
                    }
                }
                assert(after[at as int] == minor);
                if after.contains(m) && m != minor {
                    let i = choose|i: int| 0 <= i < after.len() && after[i] == m;
                    if i < at {
                        assert(free[i] == m);
                    } else {
                        assert(free[i - 1] == m);
                    }
                }
            }
            assert forall|i: int| 0 <= i < after.len() implies #[trigger] after[i]
                < self.next_minor by {
                assert(after.contains(after[i]));
                if after[i] != minor {
                    let j = choose|j: int| 0 <= j < free.len() && free[j] == after[i];
                    assert(free[j] < self.next_minor);
                }
            }
        }
    }

    /// Prepare the registration of a device: what is to be published for it.  The
    /// device comes into the directory only by [`Self::finish_add`].
    pub fn plan_add(
        &mut self,
        token: u64,
        generation: u64,
        identity: InputBusIdentity,
        facts: &InputFacts,
    ) -> (result: Result<AddPlan, Error>)
        requires
            old(self).wf(),
            facts.classes@.len() == EV_COUNT,
            facts.codes@.len() == 8,
        ensures
            final(self).wf(),
            final(self).devices == old(self).devices,
            result is Err ==> *final(self) == *old(self),
            match result {
                Err(error) => (error == Error::AlreadyExists && old(self).has(token)) || (error
                    == Error::NoMemory && !old(self).has(token) && old(
                    self,
                ).free_minors@.len() == 0 && old(self).next_minor > u32::MAX - 64),
                Ok(plan) => {
                    &&& !old(self).has(token)
                    &&& plan.token == token
                    &&& plan.generation == generation
                    &&& plan.minor == next_given(
                        old(self).free_minors@,
                        old(self).next_minor,
                    )
                    &&& final(self).free_minors@ == (if old(self).free_minors@.len() > 0 {
                        old(self).free_minors@.subrange(1, old(self).free_minors@.len() as int)
                    } else {
                        old(self).free_minors@
                    })
                    &&& final(self).next_minor == (if old(self).free_minors@.len() > 0 {
                        old(self).next_minor as int
                    } else {
                        old(self).next_minor + 1
                    })
                    &&& plan.minor < final(self).next_minor
                    &&& !final(self).free_minors@.contains(plan.minor)
                    &&& forall|i: int|
                        0 <= i < old(self).devices@.len() ==> (
                        #[trigger] old(self).devices@[i]).minor != plan.minor
                    &&& plan.node == node_of(plan.minor)
                    &&& plan.event@ == event_view(identity, plan.minor)
                    &&& plan.parent@ == parent_view(
                        identity,
                        plan.minor,
                        input_files(*facts, identity),
                    )
                    &&& match plan.transport {
                        Some(pair) => on_bus(identity) && pair.0@ == pci_view(identity)
                            && pair.1@ == virtio_view(identity),
                        None => !on_bus(identity),
                    }
                },
            },
    {
        let minor: u32 = match self.identity(token) {
            Ok(minor) => minor,
            Err(error) => {
                return Err(error);
            },
        };
        let description = input_sysfs_description(facts, identity);
        let parent = parent_registration(identity, minor, &description);
        let event = event_registration(identity, minor);
        let transport: Option<(Registration, Registration)> = if has_pci_transport(identity) {
            Some((pci_sysfs_registration(identity), virtio_sysfs_registration(identity)))
        } else {
            None
        };
        let node = event_node(minor);
        Ok(AddPlan { token, generation, minor, node, transport, parent, event })
    }

    /// End the registration of a device: with its publication it comes into the
    /// directory, before anything tells of it; without, its minor is given back.
    pub fn finish_add(
        &mut self,
        token: u64,
        generation: u64,
        minor: u32,
        transport: bool,
        published: bool,
    )
        requires
            old(self).wf(),
            !old(self).has(token),
            minor < old(self).next_minor,
            !old(self).free_minors@.contains(minor),
            forall|i: int|
                0 <= i < old(self).devices@.len() ==> (#[trigger] old(self).devices@[i]).minor
                    != minor,
        ensures
            final(self).wf(),
            final(self).next_minor == old(self).next_minor,
            if published {
                &&& final(self).free_minors == old(self).free_minors
                &&& final(self).has(token)
                &&& exists|at: int|
                    {
                        &&& 0 <= at < final(self).devices@.len()
                        &&& #[trigger] final(self).devices@.remove(at) == old(self).devices@
                        &&& final(self).devices@[at].token == token
                        &&& final(self).devices@[at].generation == generation
                        &&& final(self).devices@[at].minor == minor
                        &&& final(self).devices@[at].transport == transport
                        &&& final(self).devices@[at].event@ == fresh_device()
                    }
            } else {
                &&& final(self).devices == old(self).devices
                &&& forall|m: u32|
                    #[trigger] final(self).free_minors@.contains(m) <==> old(
                        self,
                    ).free_minors@.contains(m) || m == minor
            },
    {
        if !published {
            self.release_minor(minor);
            return;
        }
        let ghost before = self.devices@;
        let at: usize = self.position(token);
        let event = EvdevDevice::new();
        let slot = InputSlot { token, generation, minor, transport, event };
        let ghost held = slot;
        assert(forall|i: int|
            0 <= i < before.len() ==> (#[trigger] before[i]).token != token);
        self.devices.insert(at, slot);
        proof {
            let after = self.devices@;
            assert(after =~= before.insert(at as int, held));
            assert(after.remove(at as int) =~= before);
            assert(after[at as int] == held);
            assert forall|i: int, j: int| 0 <= i < j < after.len() implies (
            #[trigger] after[i]).token < (#[trigger] after[j]).token && after[i].minor
                != after[j].minor by {
                if i < at && j > at {
                    assert(before[i].token < before[j - 1].token);
                } else if i < at && j == at {
                    assert(before[i].token < token);
                } else if i < at {
                    assert(before[i].token < before[j].token);
                } else if i == at {
                    assert(before[j - 1].token >= token);
                } else {
                    assert(before[i - 1].token < before[j - 1].token);
                }
            }
            assert forall|i: int| 0 <= i < after.len() implies (#[trigger] after[i]).minor
                < self.next_minor && !self.free_minors@.contains(after[i].minor)
                && after[i].event.wf() by {
                if i < at {
                    assert(before[i].event.wf());
                } else if i > at {
                    assert(before[i - 1].event.wf());
                }
            }
        }
    }

    /// A device was removed.  Where its generation is the one that is there, its
    /// slot comes back, disconnected, and its minor is free.
    pub fn remove_device(&mut self, token: u64, generation: u64) -> (removed: Option<InputSlot>)
        requires
            old(self).wf(),
        ensures
            final(self).wf(),
            final(self).next_minor == old(self).next_minor,
            match removed {
                Some(slot) => {
                    &&& slot.token == token
                    &&& slot.generation == generation
                    &&& !final(self).has(token)
                    &&& forall|m: u32|
                        #[trigger] final(self).free_minors@.contains(m) <==> old(
                            self,
                        ).free_minors@.contains(m) || m == slot.minor
                    &&& exists|at: int|
                        {
                            &&& 0 <= at < old(self).devices@.len()
                            &&& #[trigger] old(self).devices@.remove(at) == final(self).devices@
                            &&& old(self).devices@[at].token == token
                            &&& old(self).devices@[at].minor == slot.minor
                            &&& old(self).devices@[at].transport == slot.transport
                            &&& slot.event@ == disconnected(old(self).devices@[at].event@)
                        }
                },
                None => {
                    &&& *final(self) == *old(self)
                    &&& forall|i: int|
                        0 <= i < old(self).devices@.len() ==> !((
                        #[trigger] old(self).devices@[i]).token == token && old(
                            self,
                        ).devices@[i].generation == generation)
                },
            },
    {
        let ghost before = self.devices@;
        let at: usize = self.position(token);
        if at >= self.devices.len() || self.devices[at].token != token
            || self.devices[at].generation != generation {
            assert forall|i: int| 0 <= i < before.len() implies !((#[trigger] before[i]).token
                == token && before[i].generation == generation) by {
                if at < before.len() && i > at {
                    assert(before[at as int].token < before[i].token);
                }
            }
            return None;
        }
        let mut slot: InputSlot = self.devices.remove(at);
        proof {
            let after = self.devices@;
            assert(after =~= before.remove(at as int));
            assert forall|i: int, j: int| 0 <= i < j < after.len() implies (
            #[trigger] after[i]).token < (#[trigger] after[j]).token && after[i].minor
                != after[j].minor by {
                let p = if i < at {
                    i
                } else {
                    i + 1
                };
                let q = if j < at {
                    j
                } else {
                    j + 1
                };
                assert(before[p].token < before[q].token);
            }
            assert forall|i: int| 0 <= i < after.len() implies (#[trigger] after[i]).minor
                < self.next_minor && !self.free_minors@.contains(after[i].minor)
                && after[i].event.wf() && after[i].minor != slot.minor && after[i].token
                != token by {
                let p = if i < at {
                    i
                } else {
                    i + 1
                };
                assert(before[p].event.wf());
                if p < at {
                    assert(before[p].minor != before[at as int].minor);
                } else {
                    assert(before[at as int].minor != before[p].minor);
                }
            }
        }
        let _ = slot.event.disconnect();
        self.release_minor(slot.minor);
        Some(slot)
    }

    /// The session lost every device.
    pub fn pause_all(&mut self)
        requires
            old(self).wf(),
        ensures
            final(self).wf(),
            final(self).devices@.len() == old(self).devices@.len(),
            final(self).free_minors == old(self).free_minors,
            final(self).next_minor == old(self).next_minor,
            forall|i: int|
                0 <= i < old(self).devices@.len() ==> {
                    let before = old(self).devices@[i];
                    let after = #[trigger] final(self).devices@[i];
                    &&& after.token == before.token
                    &&& after.generation == before.generation
                    &&& after.minor == before.minor
                    &&& after.transport == before.transport
                    &&& after.event@ == paused(before.event@)
                },
    {
        let ghost start = *self;
        let mut n: usize = 0;
        while n < self.devices.len()
            invariant
                n <= self.devices@.len(),
                start.wf(),
                self.devices@.len() == start.devices@.len(),
                self.free_minors == start.free_minors,
                self.next_minor == start.next_minor,
                forall|i: int|
                    0 <= i < start.devices@.len() ==> {
                        let before = start.devices@[i];
                        let after = #[trigger] self.devices@[i];
                        &&& after.token == before.token
                        &&& after.generation == before.generation
                        &&& after.minor == before.minor
                        &&& after.transport == before.transport
                        &&& after.event.wf()
                        &&& i >= n ==> after == before
                        &&& i < n ==> after.event@ == paused(before.event@)
                    },
            decreases self.devices@.len() - n,
        {
            assert(self.devices@[n as int] == start.devices@[n as int]);
            assert(start.devices@[n as int].event.wf());
            let _ = self.devices[n].event.pause();
            n = n + 1;
        }
        assert(self.wf()) by {
            assert forall|i: int, j: int| 0 <= i < j < self.devices@.len() implies (
            #[trigger] self.devices@[i]).token < (#[trigger] self.devices@[j]).token
                && self.devices@[i].minor != self.devices@[j].minor by {
                assert(start.devices@[i].token < start.devices@[j].token);
            }
            assert forall|i: int| 0 <= i < self.devices@.len() implies (
            #[trigger] self.devices@[i]).minor < self.next_minor && !self.free_minors@.contains(
                self.devices@[i].minor,
            ) && self.devices@[i].event.wf() by {
                assert(start.devices@[i].minor < start.next_minor);
            }
        }
    }

    /// A session has every device.
    pub fn resume_all(&mut self)
        requires
            old(self).wf(),
        ensures
            final(self).wf(),
            final(self).devices@.len() == old(self).devices@.len(),
            final(self).free_minors == old(self).free_minors,
            final(self).next_minor == old(self).next_minor,
            forall|i: int|
                0 <= i < old(self).devices@.len() ==> {
                    let before = old(self).devices@[i];
                    let after = #[trigger] final(self).devices@[i];
                    &&& after.token == before.token
                    &&& after.generation == before.generation
                    &&& after.minor == before.minor
                    &&& after.transport == before.transport
                    &&& after.event@ == (if before.event@.disconnected {
                        before.event@
                    } else {
                        DeviceView { paused: false, ..before.event@ }
                    })
                },
    {
        let ghost start = *self;
        let mut n: usize = 0;
        while n < self.devices.len()
            invariant
                n <= self.devices@.len(),
                start.wf(),
                self.devices@.len() == start.devices@.len(),
                self.free_minors == start.free_minors,
                self.next_minor == start.next_minor,
                forall|i: int|
                    0 <= i < start.devices@.len() ==> {
                        let before = start.devices@[i];
                        let after = #[trigger] self.devices@[i];
                        &&& after.token == before.token
                        &&& after.generation == before.generation
                        &&& after.minor == before.minor
                        &&& after.transport == before.transport
                        &&& after.event.wf()
                        &&& i >= n ==> after == before
                        &&& i < n ==> after.event@ == (if before.event@.disconnected {
                            before.event@
                        } else {
                            DeviceView { paused: false, ..before.event@ }
                        })
                    },
            decreases self.devices@.len() - n,
        {
            assert(self.devices@[n as int] == start.devices@[n as int]);
            assert(start.devices@[n as int].event.wf());
            let _ = self.devices[n].event.resume();
            assert(self.devices@[n as int].event@ =~= (if start.devices@[n as int].event@.disconnected {
                start.devices@[n as int].event@
            } else {
                DeviceView { paused: false, ..start.devices@[n as int].event@ }
            }));
            n = n + 1;
        }
        assert(self.wf()) by {
            assert forall|i: int, j: int| 0 <= i < j < self.devices@.len() implies (
            #[trigger] self.devices@[i]).token < (#[trigger] self.devices@[j]).token
                && self.devices@[i].minor != self.devices@[j].minor by {
                assert(start.devices@[i].token < start.devices@[j].token);
            }
            assert forall|i: int| 0 <= i < self.devices@.len() implies (
            #[trigger] self.devices@[i]).minor < self.next_minor && !self.free_minors@.contains(
                self.devices@[i].minor,
            ) && self.devices@[i].event.wf() by {
                assert(start.devices@[i].minor < start.next_minor);
            }
        }
    }

    /// The objects of the first `n` devices.
    pub open spec fn published(self, n: nat) -> Seq<(u64, InputObject)>
        decreases n,
    {
        if n == 0 {
            Seq::empty()
        } else {
            self.published((n - 1) as nat) + objects(
                self.devices@[n - 1].token,
                self.devices@[n - 1].transport,
            )
        }
    }

    /// The objects that a change is announced of, after a receiver of announcements
    /// has lost some: all that are published, by their devices' tokens.
    pub fn rescan(&self) -> (objects: Vec<(u64, InputObject)>)
        ensures
            objects@ == self.published(self.devices@.len()),
    {
        let mut found: Vec<(u64, InputObject)> = Vec::new();
        let mut i: usize = 0;
        while i < self.devices.len()
            invariant
                i <= self.devices@.len(),
                found@ == self.published(i as nat),
            decreases self.devices@.len() - i,
        {
            let token: u64 = self.devices[i].token;
            if self.devices[i].transport {
                found.push((token, InputObject::Bus));
                found.push((token, InputObject::Transport));
            }
            found.push((token, InputObject::Parent));
            found.push((token, InputObject::Event));
            assert(found@ =~= self.published((i + 1) as nat));
            i = i + 1;
        }
        found
    }

    /// The names in the directory.
    pub fn child_names(&self) -> (names: Vec<Vec<u8>>)
        ensures
            names@.len() == self.devices@.len(),
            forall|i: int|
                0 <= i < names@.len() ==> (#[trigger] names@[i])@ == numbered(
                    "event"@,
                    self.devices@[i].minor,
                ),
    {
        let mut names: Vec<Vec<u8>> = Vec::new();
        let mut i: usize = 0;
        while i < self.devices.len()
            invariant
                i <= self.devices@.len(),
                names@.len() == i,
                forall|j: int|
                    0 <= j < i ==> (#[trigger] names@[j])@ == numbered(
                        "event"@,
                        self.devices@[j].minor,
                    ),
            decreases self.devices@.len() - i,
        {
            names.push(numbered_name("event", self.devices[i].minor));
            i = i + 1;
        }
        names
    }

    /// The device whose node has this name.
    pub fn lookup_child(&self, name: &[u8]) -> (result: Result<usize, Error>)
        requires
            self.wf(),
        ensures
            match result {
                Ok(i) => i < self.devices@.len() && named_minor(name@) == Some(
                    self.devices@[i as int].minor,
                ),
                Err(error) => error == Error::NotFound && (match named_minor(name@) {
                    Some(minor) => forall|i: int|
                        0 <= i < self.devices@.len() ==> (#[trigger] self.devices@[i]).minor
                            != minor,
                    None => true,
                }),
            },
    {
        if name.len() < 5 || !same_bytes(&name[0..5], "event".as_bytes()) {
            return Err(Error::NotFound);
        }
        let minor: u32 = match parse_decimal_name(&name[5..name.len()]) {
            Some(minor) => minor,
            None => {
                return Err(Error::NotFound);
            },
        };
        let mut i: usize = 0;
        while i < self.devices.len()
            invariant
                i <= self.devices@.len(),
                named_minor(name@) == Some(minor),
                forall|j: int| 0 <= j < i ==> (#[trigger] self.devices@[j]).minor != minor,
            decreases self.devices@.len() - i,
        {
            if self.devices[i].minor == minor {
                return Ok(i);
            }
            i = i + 1;
        }
        Err(Error::NotFound)
    }

    /// The open files of the first `n` devices.
    pub open spec fn open_files(self, n: nat) -> nat
        decreases n,
    {
        if n == 0 {
            0
        } else {
            self.open_files((n - 1) as nat) + self.devices@[n - 1].event@.clients.len()
        }
    }

    /// The number of devices, and of their open files.
    pub fn metrics(&self) -> (counts: (u64, u64))
        requires
            self.devices@.len() <= u64::MAX,
            self.open_files(self.devices@.len()) <= u64::MAX,
        ensures
            counts.0 == self.devices@.len(),
            counts.1 == self.open_files(self.devices@.len()),
    {
        let mut files: u64 = 0;
        let mut i: usize = 0;
        while i < self.devices.len()
            invariant
                i <= self.devices@.len(),
                files == self.open_files(i as nat),
                self.open_files(self.devices@.len()) <= u64::MAX,
            decreases self.devices@.len() - i,
        {
            proof {
                self.open_files_grow((i + 1) as nat, self.devices@.len());
            }
            files = files + self.devices[i].event.live_client_count();
            i = i + 1;
        }
        (self.devices.len() as u64, files)
    }

    proof fn open_files_grow(self, n: nat, m: nat)
        requires
            n <= m,
        ensures
            self.open_files(n) <= self.open_files(m),
        decreases m,
    {
        if n < m {
            self.open_files_grow(n, (m - 1) as nat);
        }
    }
}

/// Two devices never have nodes of one name.
pub proof fn law_nodes_have_names_of_their_own(manager: InputManager, i: int, j: int)
    requires
        manager.wf(),
        0 <= i < manager.devices@.len(),
        0 <= j < manager.devices@.len(),
        i != j,
    ensures
        manager.devices@[i].minor != manager.devices@[j].minor,
{
    if i < j {
        assert(manager.devices@[i].token < manager.devices@[j].token);
    } else {
        assert(manager.devices@[j].token < manager.devices@[i].token);
    }
}

/// The minor that is given out is the least that is not in use: no free one is less, and no new
/// one is given out while one is free.
pub proof fn law_the_least_minor_is_given_out(free: Seq<u32>, next: u32, i: int)
    requires
        ascends(free),
        forall|k: int| 0 <= k < free.len() ==> #[trigger] free[k] < next,
    ensures
        0 <= i < free.len() ==> next_given(free, next) <= free[i] && free.contains(
            next_given(free, next),
        ),
        free.len() == 0 ==> next_given(free, next) == next,
        next_given(free, next) <= next,
{
    if 0 < i < free.len() {
        assert(free[0] < free[i]);
    }
    if free.len() > 0 {
        assert(free.contains(free[0]));
    }
}

} // verus!
