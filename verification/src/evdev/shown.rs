//! What is shown of an input device: its names, its bitmaps, and the answers to calls.

use vstd::prelude::*;
use vstd::utf8::encode_utf8;
use crate::bytes::{le32, u32_at, u64_at};
use crate::error::Error;
use crate::evdev::bits::{word_count, word_value, words_down};
use crate::evdev::client::{clock_of, has_lease, revoked};
use crate::evdev::device::{clients_without, fresh_device, reader_error, slotted, DevError,
    DeviceView};
use crate::evdev::event::{codes_of, numbered_type, type_number, EventType};
use crate::evdev::hex::{hex, padded_hex};
use crate::evdev::ioctl::{bitmap_len, called, input_size, mask_class, mask_len, query_of, replied,
    status_of, DriverAnswer, DriverQuery, EvdevIoctl, InputDeviceId, ReplyView};
use crate::evdev::laws::law_a_client_is_found_by_its_number;
use crate::evdev::manager::{node_of, objects, InputObject};
use crate::evdev::sysfs::{bdf_name, bus_alias, capabilities, capability_class, code_bytes,
    event_view, hex_line, index_line, input_alias, input_place, numbered, on_bus, parent_view,
    pci_view, root_name, transport_name, transport_path, virtio_view, InputBusIdentity, InputFacts};
use crate::registration::AttributeView;
use crate::text::decimal;

verus! {

/// The classes have their numbers, and so many codes.
pub proof fn law_classes_have_numbers_and_codes(t: EventType)
    ensures
        (t is Synchronization) == (type_number(t) == 0),
        (t is Key) == (type_number(t) == 1),
        (t is Relative) == (type_number(t) == 2),
        (t is Absolute) == (type_number(t) == 3),
        (t is Misc) == (type_number(t) == 4),
        (t is Switch) == (type_number(t) == 5),
        (t is Led) == (type_number(t) == 17),
        (t is Sound) == (type_number(t) == 18),
        (t is Repeat) == (type_number(t) == 20),
        (t is ForceFeedback) == (type_number(t) == 21),
        (t is Power) == (type_number(t) == 22),
        (t is ForceFeedbackStatus) == (type_number(t) == 23),
        (t is Key) == (codes_of(t) == 768),
        (t is Absolute) == (codes_of(t) == 64),
        (t is Switch) == (codes_of(t) == 18),
        (t is ForceFeedback) == (codes_of(t) == 128),
        (t is Synchronization || t is Relative || t is Led) == (codes_of(t) == 16),
        (t is Misc || t is Sound) == (codes_of(t) == 8),
        (t is Repeat || t is ForceFeedbackStatus) == (codes_of(t) == 2),
        (t is Power) == (codes_of(t) == 1),
{
}

/// A machine word of a bitmap has its lowest byte first.
pub proof fn law_a_word_has_its_lowest_byte_first(bytes: Seq<u8>, at: int)
    requires
        0 <= at,
        at + 8 <= bytes.len(),
    ensures
        word_value(bytes, at, 8) == bytes[at] + 0x100 * bytes[at + 1] + 0x1_0000 * bytes[at + 2]
            + 0x100_0000 * bytes[at + 3] + 0x1_0000_0000 * bytes[at + 4] + 0x100_0000_0000
            * bytes[at + 5] + 0x1_0000_0000_0000 * bytes[at + 6] + 0x100_0000_0000_0000 * bytes[at
            + 7],
{
    reveal_with_fuel(word_value, 9);
}

/// The words that are printed are those up to the last that is not zero, and one at least.
pub proof fn law_no_word_that_counts_is_left_out(bytes: Seq<u8>, n: nat)
    requires
        n <= bytes.len(),
    ensures
        word_count(bytes, n) >= 1,
        forall|i: int| 8 * word_count(bytes, n) <= i < n ==> #[trigger] bytes[i] == 0,
        word_count(bytes, n) > 1 ==> exists|i: int|
            8 * (word_count(bytes, n) - 1) <= i < 8 * word_count(bytes, n) && i < n
                && #[trigger] bytes[i] != 0,
    decreases n,
{
    if n > 0 {
        if bytes[n - 1] == 0 {
            law_no_word_that_counts_is_left_out(bytes, (n - 1) as nat);
        } else {
            assert(bytes[n - 1] != 0);
        }
    }
}

/// Words are printed from the highest down, in hexadecimal, with a space between two.
pub proof fn law_words_are_printed_from_the_highest_down(bytes: Seq<u8>, n: nat)
    requires
        n >= 1,
    ensures
        words_down(bytes, 1) == hex(word_value(bytes, 0, 8), false),
        ({
            let first = hex(word_value(bytes, 8 * n as int, 8), false);
            let text = words_down(bytes, n + 1);
            &&& text.len() == first.len() + 1 + words_down(bytes, n).len()
            &&& text.subrange(0, first.len() as int) == first
            &&& text[first.len() as int] == 32
            &&& text.subrange(first.len() as int + 1, text.len() as int) == words_down(bytes, n)
        }),
{
    let first = hex(word_value(bytes, 8 * n as int, 8), false);
    let text = words_down(bytes, n + 1);
    assert(text =~= first.push(32u8) + words_down(bytes, n));
    assert(text.subrange(0, first.len() as int) =~= first);
    assert(text.subrange(first.len() as int + 1, text.len() as int) =~= words_down(bytes, n));
}

/// The names of a bus device: the bus by its domain and number, the device besides by its own and
/// its function, in hexadecimal; the transport by its number.
pub proof fn law_a_bus_device_is_named_by_its_address(id: InputBusIdentity)
    ensures
        root_name(id) == seq![112u8, 99, 105] + padded_hex(id.domain as nat, 4, false) + seq![58u8]
            + padded_hex(id.bus as nat, 2, false),
        bdf_name(id) == padded_hex(id.domain as nat, 4, false) + seq![58u8] + padded_hex(
            id.bus as nat,
            2,
            false,
        ) + seq![58u8] + padded_hex(id.device as nat, 2, false) + seq![46u8] + padded_hex(
            id.function as nat,
            1,
            false,
        ),
        transport_name(id) == seq![118u8, 105, 114, 116, 105, 111] + decimal(
            id.virtio_index as nat,
        ),
        on_bus(id) == !(id.vendor_id == 0 && id.device_id == 0),
{
    reveal_strlit("pci");
    assert(vstd::utf8::is_ascii_chars("pci"@));
    vstd::utf8::is_ascii_chars_encode_utf8("pci"@);
    assert(encode_utf8("pci"@) =~= seq![112u8, 99, 105]);
    reveal_strlit(":");
    assert(vstd::utf8::is_ascii_chars(":"@));
    vstd::utf8::is_ascii_chars_encode_utf8(":"@);
    assert(encode_utf8(":"@) =~= seq![58u8]);
    reveal_strlit(".");
    assert(vstd::utf8::is_ascii_chars("."@));
    vstd::utf8::is_ascii_chars_encode_utf8("."@);
    assert(encode_utf8("."@) =~= seq![46u8]);
    reveal_strlit("virtio");
    assert(vstd::utf8::is_ascii_chars("virtio"@));
    vstd::utf8::is_ascii_chars_encode_utf8("virtio"@);
    assert(encode_utf8("virtio"@) =~= seq![118u8, 105, 114, 116, 105, 111]);
}

/// The path of a device leads over its bus, its address and its transport; that of one without a
/// bus is among the virtual ones.
pub proof fn law_a_path_leads_over_the_bus(id: InputBusIdentity)
    ensures
        on_bus(id) ==> transport_path(id) == root_name(id) + seq![47u8] + bdf_name(id) + seq![47u8]
            + transport_name(id),
        !on_bus(id) ==> transport_path(id) == seq![118u8, 105, 114, 116, 117, 97, 108, 47, 118, 105, 114, 116, 105, 111] + decimal(
            id.virtio_index as nat,
        ),
{
    reveal_strlit("/");
    assert(vstd::utf8::is_ascii_chars("/"@));
    vstd::utf8::is_ascii_chars_encode_utf8("/"@);
    assert(encode_utf8("/"@) =~= seq![47u8]);
    reveal_strlit("virtual/virtio");
    assert(vstd::utf8::is_ascii_chars("virtual/virtio"@));
    vstd::utf8::is_ascii_chars_encode_utf8("virtual/virtio"@);
    assert(encode_utf8("virtual/virtio"@) =~= seq![118u8, 105, 114, 116, 117, 97, 108, 47, 118, 105, 114, 116, 105, 111]);
}

/// A number is shown on a line: four hexadecimal digits, or decimal ones.
pub proof fn law_numbers_are_shown_on_lines(n: nat)
    ensures
        hex_line(n).last() == 10,
        hex_line(n).drop_last() == padded_hex(n, 4, false),
        index_line(n).last() == 10,
        index_line(n).drop_last() == decimal(n),
{
    assert(hex_line(n).drop_last() =~= padded_hex(n, 4, false));
    assert(index_line(n).drop_last() =~= decimal(n));
}

/// The aliases name their numbers in order: vendor and device in capitals for the bus; bus, vendor,
/// product and version for the input device.
pub proof fn law_aliases_name_their_numbers(id: InputBusIdentity, input: InputDeviceId)
    ensures
        bus_alias(id) == seq![112u8, 99, 105, 58, 118] + padded_hex(
            id.vendor_id as nat,
            8,
            true,
        ) + seq![100u8] + padded_hex(id.device_id as nat, 8, true) + seq![115u8, 118, 42, 115, 100, 42, 98, 99, 42, 115, 99, 42, 105, 42, 10],
        input_alias(input) == seq![105u8, 110, 112, 117, 116, 58, 98] + padded_hex(
            input.bus_type as nat,
            4,
            false,
        ) + seq![118u8] + padded_hex(input.vendor as nat, 4, false) + seq![112u8] + padded_hex(
            input.product as nat,
            4,
            false,
        ) + seq![101u8] + padded_hex(input.version as nat, 4, false) + seq![10u8],
{
    reveal_strlit("pci:v");
    assert(vstd::utf8::is_ascii_chars("pci:v"@));
    vstd::utf8::is_ascii_chars_encode_utf8("pci:v"@);
    assert(encode_utf8("pci:v"@) =~= seq![112u8, 99, 105, 58, 118]);
    reveal_strlit("d");
    assert(vstd::utf8::is_ascii_chars("d"@));
    vstd::utf8::is_ascii_chars_encode_utf8("d"@);
    assert(encode_utf8("d"@) =~= seq![100u8]);
    reveal_strlit("sv*sd*bc*sc*i*\n");
    assert(vstd::utf8::is_ascii_chars("sv*sd*bc*sc*i*\n"@));
    vstd::utf8::is_ascii_chars_encode_utf8("sv*sd*bc*sc*i*\n"@);
    assert(encode_utf8("sv*sd*bc*sc*i*\n"@) =~= seq![115u8, 118, 42, 115, 100, 42, 98, 99, 42, 115, 99, 42, 105, 42, 10]);
    reveal_strlit("input:b");
    assert(vstd::utf8::is_ascii_chars("input:b"@));
    vstd::utf8::is_ascii_chars_encode_utf8("input:b"@);
    assert(encode_utf8("input:b"@) =~= seq![105u8, 110, 112, 117, 116, 58, 98]);
    reveal_strlit("v");
    assert(vstd::utf8::is_ascii_chars("v"@));
    vstd::utf8::is_ascii_chars_encode_utf8("v"@);
    assert(encode_utf8("v"@) =~= seq![118u8]);
    reveal_strlit("p");
    assert(vstd::utf8::is_ascii_chars("p"@));
    vstd::utf8::is_ascii_chars_encode_utf8("p"@);
    assert(encode_utf8("p"@) =~= seq![112u8]);
    reveal_strlit("e");
    assert(vstd::utf8::is_ascii_chars("e"@));
    vstd::utf8::is_ascii_chars_encode_utf8("e"@);
    assert(encode_utf8("e"@) =~= seq![101u8]);
    reveal_strlit("\n");
    assert(vstd::utf8::is_ascii_chars("\n"@));
    vstd::utf8::is_ascii_chars_encode_utf8("\n"@);
    assert(encode_utf8("\n"@) =~= seq![10u8]);
}

/// A device whose driver names a place has that one; any other has one below its transport.
pub proof fn law_a_device_has_a_place(facts: InputFacts, id: InputBusIdentity)
    ensures
        facts.location@.len() > 0 ==> input_place(facts, id) == facts.location@,
        facts.location@.len() == 0 ==> input_place(facts, id) == transport_path(id)
            + seq![47u8, 105, 110, 112, 117, 116],
{
    reveal_strlit("/input");
    assert(vstd::utf8::is_ascii_chars("/input"@));
    vstd::utf8::is_ascii_chars_encode_utf8("/input"@);
    assert(encode_utf8("/input"@) =~= seq![47u8, 105, 110, 112, 117, 116]);
}

/// The capabilities are shown class by class, in the order of keys, relative and absolute axes,
/// other things, lights, sounds, forces and switches; each in as many bytes as its codes take.
pub proof fn law_capabilities_come_class_by_class(facts: InputFacts, n: nat)
    requires
        n < 8,
    ensures
        capability_class(0).1 is Key,
        capability_class(1).1 is Relative,
        capability_class(2).1 is Absolute,
        capability_class(3).1 is Misc,
        capability_class(4).1 is Led,
        capability_class(5).1 is Sound,
        capability_class(6).1 is ForceFeedback,
        capability_class(7).1 is Switch,
        capability_class(0).0 == seq!['k', 'e', 'y'],
        capability_class(1).0 == seq!['r', 'e', 'l'],
        capability_class(2).0 == seq!['a', 'b', 's'],
        capability_class(3).0 == seq!['m', 's', 'c'],
        capability_class(4).0 == seq!['l', 'e', 'd'],
        capability_class(5).0 == seq!['s', 'n', 'd'],
        capability_class(6).0 == seq!['f', 'f'],
        capability_class(7).0 == seq!['s', 'w'],
        8 * code_bytes(capability_class(n as int).1) >= codes_of(capability_class(n as int).1),
        8 * code_bytes(capability_class(n as int).1) < codes_of(capability_class(n as int).1) + 8,
        capabilities(facts, n + 1).len() == capabilities(facts, n).len() + 1,
        capabilities(facts, n + 1).drop_last() == capabilities(facts, n),
        capabilities(facts, n + 1).last().0 == encode_utf8(capability_class(n as int).0),
{
    reveal_strlit("key");
    reveal_strlit("rel");
    reveal_strlit("abs");
    reveal_strlit("msc");
    reveal_strlit("led");
    reveal_strlit("snd");
    reveal_strlit("ff");
    reveal_strlit("sw");
    assert(capabilities(facts, n + 1).drop_last() =~= capabilities(facts, n));
}

/// The node of a device: a major number, a minor from a number on, and read and written by its
/// owner and group.
pub proof fn law_nodes_are_numbered_from_a_number_on(minor: u32, id: InputBusIdentity)
    requires
        minor <= u32::MAX - 64,
    ensures
        node_of(minor).device.0 == 13,
        node_of(minor).device.1 == 64 + minor,
        node_of(minor).mode == 256 + 128 + 32 + 16,
        event_view(id, minor).node is Some,
        (event_view(id, minor).node->0).0 == node_of(minor).device,
        (event_view(id, minor).node->0).1 == seq![105u8, 110, 112, 117, 116, 47] + numbered(
            "event"@,
            minor,
        ),
        event_view(id, minor).name == seq![101u8, 118, 101, 110, 116] + decimal(minor as nat),
        parent_view(id, minor, Seq::empty()).name == seq![105u8, 110, 112, 117, 116] + decimal(
            minor as nat,
        ),
        event_view(id, minor).parent == Some(
            (
                transport_path(id) + seq![47u8, 105, 110, 112, 117, 116],
                parent_view(id, minor, Seq::empty()).name,
            ),
        ),
{
    reveal_strlit("input/");
    assert(vstd::utf8::is_ascii_chars("input/"@));
    vstd::utf8::is_ascii_chars_encode_utf8("input/"@);
    assert(encode_utf8("input/"@) =~= seq![105u8, 110, 112, 117, 116, 47]);
    reveal_strlit("event");
    assert(vstd::utf8::is_ascii_chars("event"@));
    vstd::utf8::is_ascii_chars_encode_utf8("event"@);
    assert(encode_utf8("event"@) =~= seq![101u8, 118, 101, 110, 116]);
    reveal_strlit("input");
    assert(vstd::utf8::is_ascii_chars("input"@));
    vstd::utf8::is_ascii_chars_encode_utf8("input"@);
    assert(encode_utf8("input"@) =~= seq![105u8, 110, 112, 117, 116]);
    reveal_strlit("/input");
    assert(vstd::utf8::is_ascii_chars("/input"@));
    vstd::utf8::is_ascii_chars_encode_utf8("/input"@);
    assert(encode_utf8("/input"@) =~= seq![47u8, 105, 110, 112, 117, 116]);
}

/// A transport stands below its bus device, and both are on the same bus.
pub proof fn law_a_transport_stands_below_its_device(id: InputBusIdentity)
    ensures
        virtio_view(id).parent == Some((pci_view(id).root, pci_view(id).name)),
        virtio_view(id).root == pci_view(id).root,
        pci_view(id).name == bdf_name(id),
        virtio_view(id).name == transport_name(id),
        pci_view(id).node is None,
        virtio_view(id).node is None,
        pci_view(id).parent is None,
        pci_view(id).attributes.len() == 3,
        (pci_view(id).attributes[0] matches AttributeView::Text { value, .. } && value == (seq![
            48u8,
            120,
        ] + padded_hex(id.vendor_id as nat, 4, false)).push(10u8)),
        (pci_view(id).attributes[1] matches AttributeView::Text { value, .. } && value == (seq![
            48u8,
            120,
        ] + padded_hex(id.device_id as nat, 4, false)).push(10u8)),
{
    reveal_strlit("0x");
    assert(vstd::utf8::is_ascii_chars("0x"@));
    vstd::utf8::is_ascii_chars_encode_utf8("0x"@);
    assert(encode_utf8("0x"@) =~= seq![48u8, 120]);
}

/// A device is registered from the bus down: bus and transport first, where it has them, then the
/// device and its node.
pub proof fn law_objects_come_from_the_bus_down(token: u64, transport: bool)
    ensures
        objects(token, true).len() == 4,
        objects(token, false).len() == 2,
        objects(token, true)[0] == (token, InputObject::Bus),
        objects(token, true)[1] == (token, InputObject::Transport),
        objects(token, transport).last() == (token, InputObject::Event),
        objects(token, transport)[objects(token, transport).len() - 2] == (
            token,
            InputObject::Parent,
        ),
{
}

/// A driver's error is told as one that a reader knows, and no two of them as the same.
pub proof fn law_a_drivers_error_is_told(a: DevError, b: DevError)
    ensures
        reader_error(a) == reader_error(b) ==> a == b,
        a is Again ==> reader_error(a) == Error::WouldBlock,
        a is InvalidParam ==> reader_error(a) == Error::InvalidInput,
        a is Unsupported ==> reader_error(a) == Error::OperationNotSupported,
        a is Io ==> reader_error(a) == Error::Io,
        a is NoMemory ==> reader_error(a) == Error::NoMemory,
        a is ResourceBusy ==> reader_error(a) == Error::ResourceBusy,
        a is BadState ==> reader_error(a) == Error::BadState,
        a is AlreadyExists ==> reader_error(a) == Error::AlreadyExists,
{
}

/// A value of a slot is in its slot; those of the others stay, and those that were never set are
/// zero.
pub proof fn law_a_value_is_in_its_slot(values: Seq<i32>, slot: int, value: i32, other: int)
    requires
        0 <= slot,
        0 <= other,
        other != slot,
    ensures
        slotted(values, slot, value)[slot] == value,
        other < values.len() ==> slotted(values, slot, value)[other] == values[other],
        values.len() <= other < slot ==> slotted(values, slot, value)[other] == 0,
        slotted(values, slot, value).len() == (if slot < values.len() {
            values.len() as int
        } else {
            slot + 1
        }),
{
}

/// A client that goes is gone, and every other stays in its order.
pub proof fn law_one_client_goes(v: DeviceView, i: int)
    requires
        0 <= i < v.clients.len(),
        forall|j: int| 0 <= j < i ==> (#[trigger] v.clients[j]).id != v.clients[i].id,
    ensures
        clients_without(v.clients, v.clients[i].id) == v.clients.remove(i),
{
    law_a_client_is_found_by_its_number(v.clients, v.clients[i].id, 0, i);
}

/// A device starts with nothing pressed and nobody listening, and with the usual repeats.
pub proof fn law_a_new_device_is_idle()
    ensures
        fresh_device().clients.len() == 0,
        fresh_device().grab_owner is None,
        fresh_device().keys =~= Set::empty(),
        fresh_device().repeat == (250u32, 33u32),
        !fresh_device().disconnected,
        !fresh_device().paused,
        fresh_device().frame.len() == 0,
{
}

/// What a call takes from its caller: a number for a grab or a clock, two for repeats, and the
/// class, the length and the place of a mask.
pub proof fn law_what_a_call_takes(size: usize)
    ensures
        input_size(EvdevIoctl::Grab) == 4,
        input_size(EvdevIoctl::SetClock) == 4,
        input_size(EvdevIoctl::SetRepeat) == 8,
        input_size(EvdevIoctl::SetMask) == 16,
        input_size(EvdevIoctl::GetMask) == 16,
        size >= 4 && size % 4 == 0 ==> input_size(EvdevIoctl::Slots { size }) == 4,
        size < 4 || size % 4 != 0 ==> input_size(EvdevIoctl::Slots { size }) == 0,
        input_size(EvdevIoctl::Version) == 0,
        input_size(EvdevIoctl::Name { size }) == 0,
{
}

/// A bitmap is answered in whole words, as far as there is room; the mask of a class in whole
/// bytes.
pub proof fn law_how_long_an_answer_is(size: usize, class: EventType, number: u16)
    ensures
        bitmap_len(size, 0x1f) <= size,
        bitmap_len(size, 0x1f) <= 8,
        size >= 8 ==> bitmap_len(size, 0x1f) == 8,
        size < 8 ==> bitmap_len(size, 0x1f) == size,
        number <= 0xff && numbered_type(number as u8) == Some(class) ==> codes_of(class) <= 8
            * mask_len(number) < codes_of(class) + 8,
        number > 0xff ==> mask_len(number) == 0,
        number <= 31 ==> mask_class(number as u32) == Some(number),
        number > 31 ==> mask_class(number as u32) is None,
{
}

/// What a call asks the driver.
pub proof fn law_what_the_driver_is_asked(size: usize, event_type: u8, axis: u8, class: EventType)
    ensures
        query_of(EvdevIoctl::Id) == Ok::<DriverQuery, Error>(DriverQuery::Id),
        query_of(EvdevIoctl::Name { size }) == Ok::<DriverQuery, Error>(DriverQuery::Name),
        query_of(EvdevIoctl::Location { size }) == Ok::<DriverQuery, Error>(DriverQuery::Location),
        query_of(EvdevIoctl::Unique { size }) == Ok::<DriverQuery, Error>(DriverQuery::Unique),
        query_of(EvdevIoctl::SetRepeat) == Ok::<DriverQuery, Error>(DriverQuery::Repeats),
        query_of(EvdevIoctl::AbsInfo { axis, size }) == Ok::<DriverQuery, Error>(
            DriverQuery::Axis(axis),
        ),
        query_of(EvdevIoctl::EventBits { event_type: 0, size }) == Ok::<DriverQuery, Error>(
            DriverQuery::Classes,
        ),
        event_type != 0 && numbered_type(event_type) == Some(class) && !(class is Repeat)
            && !(class is Power) && !(class is ForceFeedbackStatus) ==> query_of(
            EvdevIoctl::EventBits { event_type, size },
        ) == Ok::<DriverQuery, Error>(
            DriverQuery::Codes(class, bitmap_len(size, (codes_of(class) - 1) as nat) as usize),
        ),
        event_type != 0 && (numbered_type(event_type) is None || numbered_type(event_type)
            == Some(EventType::Repeat) || numbered_type(event_type) == Some(EventType::Power)
            || numbered_type(event_type) == Some(EventType::ForceFeedbackStatus)) ==> query_of(
            EvdevIoctl::EventBits { event_type, size },
        ) == Err::<DriverQuery, Error>(Error::InvalidInput),
        query_of(EvdevIoctl::Version) == Ok::<DriverQuery, Error>(DriverQuery::Nothing),
        query_of(EvdevIoctl::Keys { size }) == Ok::<DriverQuery, Error>(DriverQuery::Nothing),
{
}

/// Who may grab a device: a client that still has it, while nobody else has grabbed it.  To let go
/// is always allowed.
pub proof fn law_who_may_grab(
    v: DeviceView,
    client: int,
    arg: u64,
    input: Seq<u8>,
    answer: DriverAnswer,
)
    ensures
        ({
            let c = v.clients[client];
            let reply = replied(v, client, EvdevIoctl::Grab, arg, input, answer);
            let alive = !c.revoked && has_lease(c, status_of(v));
            &&& !alive ==> reply == Err::<ReplyView, Error>(Error::NoSuchDevice)
            &&& alive && u32_at(input, 0) == 0 ==> reply == Ok::<ReplyView, Error>(
                ReplyView::Done(0),
            )
            &&& alive && u32_at(input, 0) != 0 && v.grab_owner is None ==> reply is Ok && called(
                v,
                client,
                EvdevIoctl::Grab,
                arg,
                input,
                answer,
            ).grab_owner == Some(c.id)
            &&& alive && u32_at(input, 0) != 0 && v.grab_owner is Some && v.grab_owner->0 != c.id
                ==> reply == Err::<ReplyView, Error>(Error::ResourceBusy)
        }),
{
}

/// What the simple calls answer: the version, what was set of the repeats, a clock that there is,
/// and a revocation without an argument.
pub proof fn law_what_simple_calls_answer(
    v: DeviceView,
    client: int,
    arg: u64,
    input: Seq<u8>,
    answer: DriverAnswer,
)
    requires
        0 <= client < v.clients.len(),
    ensures
        replied(v, client, EvdevIoctl::Version, arg, input, answer) == Ok::<ReplyView, Error>(
            ReplyView::Write(le32(65537), 0),
        ),
        arg != 0 ==> replied(v, client, EvdevIoctl::Revoke, arg, input, answer) == Err::<
            ReplyView,
            Error,
        >(Error::InvalidInput),
        arg == 0 ==> called(v, client, EvdevIoctl::Revoke, arg, input, answer).clients[client]
            == revoked(v.clients[client]),
        clock_of(u32_at(input, 0) as i32) is None ==> replied(
            v,
            client,
            EvdevIoctl::SetClock,
            arg,
            input,
            answer,
        ) == Err::<ReplyView, Error>(Error::InvalidInput),
        clock_of(u32_at(input, 0) as i32) is Some ==> called(
            v,
            client,
            EvdevIoctl::SetClock,
            arg,
            input,
            answer,
        ).clients[client].clock == clock_of(u32_at(input, 0) as i32)->0,
{
}

/// The calls that read a state answer in the room that they are given, and those that read a mask
/// of a class say where it goes and how long it is.
pub proof fn law_masks_go_where_they_are_asked_for(
    v: DeviceView,
    client: int,
    arg: u64,
    input: Seq<u8>,
    answer: DriverAnswer,
)
    ensures
        ({
            let class = u32_at(input, 0);
            let room = u32_at(input, 4);
            let pointer = u64_at(input, 8);
            let get = replied(v, client, EvdevIoctl::GetMask, arg, input, answer);
            let set = replied(v, client, EvdevIoctl::SetMask, arg, input, answer);
            &&& class > 31 ==> get == Ok::<ReplyView, Error>(
                ReplyView::ZeroesAt(pointer, room as usize),
            )
            &&& class > 31 ==> set == Ok::<ReplyView, Error>(ReplyView::Done(0))
            &&& class <= 31 ==> get is Ok && get->Ok_0 is WriteAt && get->Ok_0->WriteAt_0 == pointer
                && get->Ok_0->WriteAt_1.len() <= room && get->Ok_0->WriteAt_1.len() <= mask_len(
                class as u16,
            )
            &&& class <= 31 ==> set is Ok && set->Ok_0 is ReadMask && set->Ok_0->pointer == pointer
                && set->Ok_0->event_type == class && set->Ok_0->ReadMask_len <= room
        }),
{
}

} // verus!
