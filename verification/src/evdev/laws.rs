//! What readers of an input device see of it.

use vstd::prelude::*;
use crate::bytes::{le32, moved32, u16_at, u32_at, u64_at, word16, word32, word64};
use crate::error::Error;
use crate::evdev::bits::{bitmap_bytes, byte_at, has_bit, weight, with_bit, word_bytes};
use crate::evdev::client::{accepted, accepts, all_codes, clock_of, dropped, enqueued, has_lease,
    images, lost, mask_image, mask_type, read_error, records_read, ClientView, DeviceStatus};
use crate::evdev::device::{absorbed, arrived, client_from, framed, pumped, slotted, told,
    DeviceView};
use crate::evdev::event::{codes_of, input_event, numbered_type, type_number, EvdevClock,
    EvdevRecord, Event, EventType};
use crate::evdev::hex::{hex, hex_digit, padded_hex, zero_digits};
use crate::evdev::ioctl::{axis_image, called, class_bits, decoded, id_image, last_value, replied,
    slot_images, text_image, AbsRange, DriverAnswer, EvdevIoctl, InputDeviceId, ReplyView};

verus! {

proof fn bit_facts(x: u8, j: u8, k: u8)
    requires
        j < 8,
        k < 8,
    ensures
        ((x | (1u8 << j)) & (1u8 << k) != 0) == (x & (1u8 << k) != 0 || j == k),
        ((1u8 << j) & (1u8 << k) != 0) == (j == k),
        0u8 & (1u8 << k) == 0,
        255u8 & (1u8 << k) != 0,
        (1u8 & (1u8 << k) != 0) == (k < 1),
        (3u8 & (1u8 << k) != 0) == (k < 2),
        (7u8 & (1u8 << k) != 0) == (k < 3),
        (15u8 & (1u8 << k) != 0) == (k < 4),
        (31u8 & (1u8 << k) != 0) == (k < 5),
        (63u8 & (1u8 << k) != 0) == (k < 6),
        (127u8 & (1u8 << k) != 0) == (k < 7),
{
    assert(((x | (1u8 << j)) & (1u8 << k) != 0) == (x & (1u8 << k) != 0 || j == k) && ((1u8 << j)
        & (1u8 << k) != 0) == (j == k) && 0u8 & (1u8 << k) == 0 && 255u8 & (1u8 << k) != 0 && (1u8
        & (1u8 << k) != 0) == (k < 1) && (3u8 & (1u8 << k) != 0) == (k < 2) && (7u8 & (1u8 << k)
        != 0) == (k < 3) && (15u8 & (1u8 << k) != 0) == (k < 4) && (31u8 & (1u8 << k) != 0) == (k
        < 5) && (63u8 & (1u8 << k) != 0) == (k < 6) && (127u8 & (1u8 << k) != 0) == (k < 7))
        by (bit_vector)
        requires
            j < 8u8,
            k < 8u8,
    ;
}

/// What the masks of a client say of an event: it passes if it is a synchronization, if its class
/// has no mask, or if the bit of its code is set in the mask of its class.
pub open spec fn passes(masks: Map<u16, Seq<u8>>, event: Event) -> bool {
    ||| event.event_type == 0
    ||| !masks.contains_key(event.event_type)
    ||| ({
        let mask = masks[event.event_type];
        let code = event.code as int;
        code / 8 < mask.len() && mask[code / 8] & (1u8 << ((code % 8) as u8)) != 0
    })
}

/// Of a frame exactly those records are queued, in their order, whose code's bit is set in the mask
/// of their class, beside those of classes without a mask and the synchronizations.
pub proof fn law_a_mask_queues_exactly_its_codes(c: ClientView, frame: Seq<EvdevRecord>)
    requires
        !c.overflowed,
        c.queue.len() + frame.len() <= 256,
    ensures
        enqueued(c, frame).queue == c.queue + frame.filter(
            |r: EvdevRecord| passes(c.masks, r.event),
        ),
{
    accepted_is_filter(c.masks, frame, frame.len());
    assert(frame.take(frame.len() as int) =~= frame);
    accepted_fits(c.masks, frame, frame.len());
    let kept = accepted(c.masks, frame, frame.len());
    if kept.len() == 0 {
        assert(c.queue + kept =~= c.queue);
    } else {
        assert(enqueued(c, frame).queue =~= c.queue + kept);
    }
}

proof fn accepted_is_filter(masks: Map<u16, Seq<u8>>, frame: Seq<EvdevRecord>, n: nat)
    requires
        n <= frame.len(),
    ensures
        accepted(masks, frame, n) == frame.take(n as int).filter(
            |r: EvdevRecord| passes(masks, r.event),
        ),
    decreases n,
{
    reveal(Seq::filter);
    if n > 0 {
        accepted_is_filter(masks, frame, (n - 1) as nat);
        assert(frame.take(n as int).drop_last() =~= frame.take(n - 1));
        assert(frame.take(n as int).last() == frame[n - 1]);
    } else {
        assert(frame.take(0) =~= Seq::empty());
    }
}

proof fn accepted_fits(masks: Map<u16, Seq<u8>>, frame: Seq<EvdevRecord>, n: nat)
    requires
        n <= frame.len(),
    ensures
        accepted(masks, frame, n).len() <= n,
    decreases n,
{
    if n > 0 {
        accepted_fits(masks, frame, (n - 1) as nat);
    }
}

/// A mask with one bit lets exactly the events of that code through, and an empty one none of its
/// class.
pub proof fn law_one_bit_lets_one_code_through(
    masks: Map<u16, Seq<u8>>,
    event: Event,
    mask: Seq<u8>,
    code: u16,
)
    requires
        event.event_type != 0,
        masks.contains_key(event.event_type),
        masks[event.event_type] == mask,
        code / 8 < mask.len(),
        forall|i: int|
            0 <= i < mask.len() ==> #[trigger] mask[i] == (if i == code / 8 {
                1u8 << ((code % 8) as u8)
            } else {
                0
            }),
    ensures
        accepts(masks, event) <==> event.code == code,
        !accepts(masks.insert(event.event_type, Seq::empty()), event),
{
    bit_facts(0, (code % 8) as u8, (event.code % 8) as u8);
}

/// Bit by bit: a bitmap that gets a bit has that bit and the ones that it had, and a bit that does
/// not fit is dropped.
pub proof fn law_setting_a_bit_sets_no_other(bits: Seq<u8>, bit: int, other: int)
    requires
        0 <= bit,
        0 <= other,
    ensures
        with_bit(bits, bit).len() == bits.len(),
        has_bit(with_bit(bits, bit), other) <==> has_bit(bits, other) || (other == bit && bit / 8
            < bits.len()),
{
    if bit / 8 < bits.len() && other / 8 == bit / 8 {
        bit_facts(bits[bit / 8], (bit % 8) as u8, (other % 8) as u8);
    }
}

proof fn packed_bits(b0: bool, b1: bool, b2: bool, b3: bool, b4: bool, b5: bool, b6: bool, b7: bool)
    ensures
        ({
            let byte = (weight(b0, 1) + weight(b1, 2) + weight(b2, 4) + weight(b3, 8) + weight(b4, 16)
                + weight(b5, 32) + weight(b6, 64) + weight(b7, 128)) as u8;
            &&& (byte & (1u8 << 0u8) != 0) == b0
            &&& (byte & (1u8 << 1u8) != 0) == b1
            &&& (byte & (1u8 << 2u8) != 0) == b2
            &&& (byte & (1u8 << 3u8) != 0) == b3
            &&& (byte & (1u8 << 4u8) != 0) == b4
            &&& (byte & (1u8 << 5u8) != 0) == b5
            &&& (byte & (1u8 << 6u8) != 0) == b6
            &&& (byte & (1u8 << 7u8) != 0) == b7
        }),
{
    let byte = (weight(b0, 1) + weight(b1, 2) + weight(b2, 4) + weight(b3, 8) + weight(b4, 16) + weight(
        b5,
        32,
    ) + weight(b6, 64) + weight(b7, 128)) as u8;
    assert((byte & (1u8 << 0u8) != 0) == b0 && (byte & (1u8 << 1u8) != 0) == b1 && (byte & (1u8
        << 2u8) != 0) == b2 && (byte & (1u8 << 3u8) != 0) == b3 && (byte & (1u8 << 4u8) != 0) == b4
        && (byte & (1u8 << 5u8) != 0) == b5 && (byte & (1u8 << 6u8) != 0) == b6 && (byte & (1u8
        << 7u8) != 0) == b7) by (bit_vector)
        requires
            byte == (if b0 {
                1u8
            } else {
                0
            }) + (if b1 {
                2u8
            } else {
                0
            }) + (if b2 {
                4u8
            } else {
                0
            }) + (if b3 {
                8u8
            } else {
                0
            }) + (if b4 {
                16u8
            } else {
                0
            }) + (if b5 {
                32u8
            } else {
                0
            }) + (if b6 {
                64u8
            } else {
                0
            }) + (if b7 {
                128u8
            } else {
                0
            }),
    ;
}

/// A bitmap that user space reads has the bit of every key, light or switch that is on, and no
/// other bit; what does not fit the buffer is cut off.
pub proof fn law_a_bitmap_shows_what_is_on(bits: Set<usize>, limit: nat, size: nat, k: usize)
    requires
        limit + 8 <= usize::MAX,
    ensures
        bitmap_bytes(bits, limit, size).len() == size,
        has_bit(bitmap_bytes(bits, limit, size), k as int) <==> k < limit && (k as int) / 8 < size
            && bits.contains(k),
{
    let bytes = bitmap_bytes(bits, limit, size);
    let i = k as int / 8;
    if i < size {
        if 8 * i < limit {
            let shown = Set::new(|bit: usize| bit < limit && bits.contains(bit));
            let base = 8 * i;
            packed_bits(
                shown.contains(base as usize),
                shown.contains((base + 1) as usize),
                shown.contains((base + 2) as usize),
                shown.contains((base + 3) as usize),
                shown.contains((base + 4) as usize),
                shown.contains((base + 5) as usize),
                shown.contains((base + 6) as usize),
                shown.contains((base + 7) as usize),
            );
            assert(bytes[i] == byte_at(shown, base));
            let j = k as int % 8;
            assert(k == base + j);
        } else {
            bit_facts(0, 0, (k % 8) as u8);
        }
    }
}

/// The bytes of a bitmap answer are whole machine words that hold all of its bits.
pub proof fn law_bitmaps_take_whole_words(bits: nat)
    ensures
        word_bytes(bits) % 8 == 0,
        bits <= 8 * word_bytes(bits) < bits + 64,
{
}

/// A client that set no mask is told that every code of a class is enabled, and none behind them.
pub proof fn law_without_a_mask_every_code_is_on(
    masks: Map<u16, Seq<u8>>,
    class: EventType,
    len: nat,
    code: int,
)
    requires
        !masks.contains_key(type_number(class) as u16),
        0 <= code < 8 * len,
    ensures
        has_bit(mask_image(masks, type_number(class) as u16, len), code) <==> code < codes_of(class),
{
    let image = mask_image(masks, type_number(class) as u16, len);
    let codes = codes_of(class);
    let i = code / 8;
    assert(mask_type(type_number(class) as u16) == Some(class));
    assert(image[i] == all_codes(codes, i));
    bit_facts(0, 0, (code % 8) as u8);
}

/// A mask is read back as it was set, with zeroes behind it where the buffer is longer.
pub proof fn law_a_mask_reads_back(masks: Map<u16, Seq<u8>>, class: u16, mask: Seq<u8>, len: nat)
    ensures
        ({
            let read = mask_image(masks.insert(class, mask), class, len);
            &&& read.len() == len
            &&& forall|i: int| 0 <= i < len && i < mask.len() ==> #[trigger] read[i] == mask[i]
            &&& forall|i: int| mask.len() <= i < len ==> #[trigger] read[i] == 0
        }),
{
}

/// The image of an event has the seconds and the microseconds of its arrival, its class, its code
/// and its value, each in its place.
pub proof fn law_an_event_reads_back(record: EvdevRecord, clock: EvdevClock)
    ensures
        ({
            let image = input_event(record, clock);
            let time = if clock == EvdevClock::Realtime {
                record.realtime_arrival
            } else {
                record.monotonic_arrival
            };
            &&& image.len() == 24
            &&& u64_at(image, 0) == time.secs
            &&& u64_at(image, 8) == time.nanos / 1000
            &&& u16_at(image, 16) == record.event.event_type
            &&& u16_at(image, 18) == record.event.code
            &&& u32_at(image, 20) == record.event.value
        }),
{
    let image = input_event(record, clock);
    let time = record.arrival(clock);
    let secs = time.secs;
    assert(secs as i64 as u64 == secs) by (bit_vector);
    word64(image, 0, (time.secs as i64) as u64);
    word64(image, 8, ((time.nanos / 1000) as i64) as u64);
    word16(image, 16, record.event.event_type);
    word16(image, 18, record.event.code);
    word32(image, 20, record.event.value);
}

proof fn images_len(queue: Seq<EvdevRecord>, clock: EvdevClock, n: nat)
    ensures
        images(queue, clock, n).len() == 24 * n,
    decreases n,
{
    if n > 0 {
        images_len(queue, clock, (n - 1) as nat);
        law_an_event_reads_back(queue[n - 1], clock);
    }
}

/// A read gives the records in the order in which they were queued, twenty-four bytes each.
pub proof fn law_records_are_read_in_order(
    queue: Seq<EvdevRecord>,
    clock: EvdevClock,
    n: nat,
    i: int,
)
    requires
        0 <= i < n <= queue.len(),
    ensures
        images(queue, clock, n).len() == 24 * n,
        images(queue, clock, n).subrange(24 * i, 24 * i + 24) == input_event(queue[i], clock),
    decreases n,
{
    images_len(queue, clock, n);
    images_len(queue, clock, (n - 1) as nat);
    law_an_event_reads_back(queue[n - 1], clock);
    let all = images(queue, clock, n);
    if i == n - 1 {
        assert(all.subrange(24 * i, 24 * i + 24) =~= input_event(queue[i], clock));
    } else {
        law_records_are_read_in_order(queue, clock, (n - 1) as nat, i);
        let fewer = images(queue, clock, (n - 1) as nat);
        assert(all.subrange(24 * i, 24 * i + 24) =~= fewer.subrange(24 * i, 24 * i + 24));
    }
}

/// A read takes as many whole records as its buffer and the queue have, and not one less.
pub proof fn law_a_read_takes_all_that_fits(queue: Seq<EvdevRecord>, len: nat)
    ensures
        ({
            let n = records_read(queue, len);
            &&& n <= queue.len()
            &&& 24 * n <= len
            &&& n == queue.len() || len < 24 * (n + 1)
        }),
{
}

/// A read of a client that lost its device fails; of one that has it, only a buffer that is too
/// small for one record and an empty queue make it fail.
pub proof fn law_reads_fail_for_a_reason(c: ClientView, status: DeviceStatus, len: nat)
    ensures
        c.revoked || status.paused || status.disconnected || c.lease != status.lease ==> read_error(
            c,
            status,
            len,
        ) == Some(Error::NoSuchDevice),
        !c.revoked && has_lease(c, status) && c.queue.len() > 0 ==> (read_error(c, status, len)
            == Some(Error::InvalidInput) <==> 0 < len < 24),
        !c.revoked && has_lease(c, status) && c.queue.len() > 0 && len >= 24 ==> read_error(
            c,
            status,
            len,
        ) is None,
        !c.revoked && has_lease(c, status) && c.queue.len() == 0 && len >= 24 ==> read_error(
            c,
            status,
            len,
        ) == Some(Error::WouldBlock),
{
}

/// The clocks are known by their numbers.
pub proof fn law_clocks_have_their_numbers(id: i32)
    ensures
        clock_of(0) == Some(EvdevClock::Realtime),
        clock_of(1) == Some(EvdevClock::Monotonic),
        clock_of(7) == Some(EvdevClock::Boottime),
        id != 0 && id != 1 && id != 7 ==> clock_of(id) is None,
{
}

/// A key is down from its press to its release and no longer; a repeat changes nothing, and no
/// event of one key changes another.
pub proof fn law_a_key_is_down_until_it_is_released(v: DeviceView, code: u16, value: u32, key: usize)
    requires
        code < 768,
    ensures
        ({
            let after = absorbed(v, Event { event_type: 1, code, value });
            &&& value == 1 ==> after.keys.contains(code as usize)
            &&& value == 0 ==> !after.keys.contains(code as usize)
            &&& value > 1 ==> after.keys == v.keys
            &&& key != code ==> (after.keys.contains(key) <==> v.keys.contains(key))
            &&& after.leds == v.leds && after.switches == v.switches && after.abs == v.abs && after.slots
                == v.slots && after.msc == v.msc
        }),
{
}

/// A light or a switch is on exactly if the last event of it had a value, and no event of one
/// changes another.
pub proof fn law_lights_and_switches_follow_their_events(
    v: DeviceView,
    code: u16,
    value: u32,
    other: usize,
)
    ensures
        ({
            let lit = absorbed(v, Event { event_type: 0x11, code, value });
            let switched = absorbed(v, Event { event_type: 0x05, code, value });
            &&& code < 16 ==> (lit.leds.contains(code as usize) <==> value != 0)
            &&& code < 18 ==> (switched.switches.contains(code as usize) <==> value != 0)
            &&& other != code ==> (lit.leds.contains(other) <==> v.leds.contains(other))
            &&& other != code ==> (switched.switches.contains(other) <==> v.switches.contains(other))
            &&& lit.keys == v.keys && lit.switches == v.switches
            &&& switched.keys == v.keys && switched.leds == v.leds
        }),
{
}

/// An axis has the value of its last event.  An event of a slotted axis sets the value of the slot
/// that was selected last, and of no other slot.
pub proof fn law_axes_have_their_last_value(
    v: DeviceView,
    slot: u32,
    code: u16,
    value: u32,
    other: int,
)
    requires
        0x2f < code < 0x100,
    ensures
        ({
            let selected = absorbed(v, Event { event_type: 3, code: 0x2f, value: slot });
            let after = absorbed(selected, Event { event_type: 3, code, value });
            &&& last_value(after, code as u8) == value as i32
            &&& last_value(selected, 0x2f) == slot as i32
            &&& selected.slots == v.slots
            &&& after.slots[code as u8].len() > slot
            &&& after.slots[code as u8][slot as int] == value as i32
            &&& v.slots.contains_key(code as u8) && 0 <= other < v.slots[code as u8].len() && other
                != slot ==> after.slots[code as u8][other] == v.slots[code as u8][other]
            &&& v.slots.contains_key(code as u8) && v.slots[code as u8].len() <= other < slot
                ==> after.slots[code as u8][other] == 0
        }),
{
}

/// A frame ends with its report: until then no client hears of it, and then every client that may
/// hear of it is handed all of it, in order, and the next frame is empty.
pub proof fn law_a_frame_is_handed_over_by_its_report(v: DeviceView, r: EvdevRecord, i: int)
    requires
        !v.frame_overflowed,
        v.frame.len() < 256,
        0 <= i < v.clients.len(),
    ensures
        ({
            let after = arrived(v, r);
            let whole = v.frame.push(r);
            let ends = r.event.event_type == 0 && r.event.code == 0;
            &&& !ends ==> after.clients == v.clients && after.frame == whole
            &&& ends ==> after.frame.len() == 0 && after.clients.len() == v.clients.len()
            &&& ends && (v.grab_owner is None || v.grab_owner == Some(v.clients[i].id))
                ==> after.clients[i] == enqueued(v.clients[i], whole)
            &&& ends && v.grab_owner is Some && v.grab_owner != Some(v.clients[i].id)
                ==> after.clients[i] == v.clients[i]
        }),
{
    let absorbed_v = absorbed(v, r.event);
    assert(absorbed_v.clients == v.clients && absorbed_v.frame == v.frame);
    assert(framed(absorbed_v, r).frame == v.frame.push(r));
}

/// A frame that is too long for the device is lost to every client that may hear of it.
pub proof fn law_a_frame_that_is_too_long_is_lost(v: DeviceView, r: EvdevRecord, i: int)
    requires
        v.frame_overflowed || v.frame.len() == 256,
        0 <= i < v.clients.len(),
        r.event.event_type == 0 && r.event.code == 0,
        v.grab_owner is None || v.grab_owner == Some(v.clients[i].id),
    ensures
        arrived(v, r).clients[i].queue.len() == 0,
        arrived(v, r).clients[i].overflowed,
        !arrived(v, r).frame_overflowed,
{
    let absorbed_v = absorbed(v, r.event);
    assert(absorbed_v.clients == v.clients);
}

/// What arrives is taken in order: taking some events and then the rest is taking all of them.
pub proof fn law_arrivals_are_taken_in_order(
    v: DeviceView,
    first: Seq<EvdevRecord>,
    rest: Seq<EvdevRecord>,
    n: nat,
)
    requires
        n <= rest.len(),
    ensures
        pumped(v, first + rest, first.len() + n) == pumped(pumped(v, first, first.len()), rest, n),
    decreases n,
{
    if n > 0 {
        law_arrivals_are_taken_in_order(v, first, rest, (n - 1) as nat);
        assert((first + rest)[first.len() + n - 1] == rest[n - 1]);
    } else {
        pumped_prefix(v, first + rest, first, first.len());
    }
}

proof fn pumped_prefix(v: DeviceView, a: Seq<EvdevRecord>, b: Seq<EvdevRecord>, n: nat)
    requires
        n <= a.len(),
        n <= b.len(),
        forall|i: int| 0 <= i < n ==> a[i] == b[i],
    ensures
        pumped(v, a, n) == pumped(v, b, n),
    decreases n,
{
    if n > 0 {
        pumped_prefix(v, a, b, (n - 1) as nat);
    }
}

/// A client is found by its number, and only it leaves when it is closed.
pub proof fn law_a_client_is_found_by_its_number(clients: Seq<ClientView>, id: u64, from: nat, j: int)
    requires
        from <= j < clients.len(),
    ensures
        match client_from(clients, id, from) {
            Some(i) => from <= i < clients.len() && clients[i].id == id && (j < i ==> clients[j].id
                != id),
            None => clients[j].id != id,
        },
    decreases clients.len() - from,
{
    if clients[from as int].id != id && j > from {
        law_a_client_is_found_by_its_number(clients, id, from + 1, j);
    } else if clients[from as int].id != id && from + 1 < clients.len() {
        law_a_client_is_found_by_its_number(clients, id, from + 1, clients.len() - 1);
    }
}

/// Only one client has a device for itself: while one has it, another is refused and changes
/// nothing, and only the one that has it can give it up.
pub proof fn law_only_the_owner_gives_a_grab_up(
    v: DeviceView,
    client: int,
    arg: u64,
    input: Seq<u8>,
    answer: DriverAnswer,
)
    requires
        0 <= client < v.clients.len(),
        !v.clients[client].revoked,
        !v.paused && !v.disconnected && v.clients[client].lease == v.session_lease,
    ensures
        ({
            let id = v.clients[client].id;
            let grab = u32_at(input, 0) != 0;
            let reply = replied(v, client, EvdevIoctl::Grab, arg, input, answer);
            let after = called(v, client, EvdevIoctl::Grab, arg, input, answer);
            &&& grab && v.grab_owner is None ==> reply is Ok && after.grab_owner == Some(id)
            &&& grab && v.grab_owner == Some(id) ==> reply is Ok && after.grab_owner == Some(id)
            &&& grab && v.grab_owner is Some && v.grab_owner != Some(id) ==> reply == Err::<
                ReplyView,
                Error,
            >(Error::ResourceBusy) && after == v
            &&& !grab && v.grab_owner == Some(id) ==> reply is Ok && after.grab_owner is None
            &&& !grab && v.grab_owner != Some(id) ==> reply is Ok && after.grab_owner == v.grab_owner
        }),
{
}

/// The delay and the period of repeats are read as they were set.
pub proof fn law_repeats_read_as_they_were_set(
    v: DeviceView,
    client: int,
    arg: u64,
    input: Seq<u8>,
    answer: DriverAnswer,
)
    requires
        answer is Supported,
        answer->Supported_0,
    ensures
        ({
            let after = called(v, client, EvdevIoctl::SetRepeat, arg, input, answer);
            let read = replied(after, client, EvdevIoctl::GetRepeat, arg, input, answer);
            &&& read matches Ok(ReplyView::Write(bytes, value)) && bytes.len() == 8 && u32_at(bytes, 0)
                == u32_at(input, 0) && u32_at(bytes, 4) == u32_at(input, 4) && value == 0
        }),
{
    let bytes = le32(u32_at(input, 0)) + le32(u32_at(input, 4));
    word32(bytes, 0, u32_at(input, 0));
    word32(bytes, 4, u32_at(input, 4));
}

/// The identity of a device has its bus, vendor, product and version, in this order.
pub proof fn law_an_identity_reads_back(id: InputDeviceId)
    ensures
        id_image(id).len() == 8,
        u16_at(id_image(id), 0) == id.bus_type,
        u16_at(id_image(id), 2) == id.vendor,
        u16_at(id_image(id), 4) == id.product,
        u16_at(id_image(id), 6) == id.version,
{
    let image = id_image(id);
    word16(image, 0, id.bus_type);
    word16(image, 2, id.vendor);
    word16(image, 4, id.product);
    word16(image, 6, id.version);
}

proof fn signed_word(x: i32)
    ensures
        x as u32 as i32 == x,
{
    assert(x as u32 as i32 == x) by (bit_vector);
}

/// An axis has its value, its least, its greatest, its fuzz, its flat part and its resolution, in
/// this order.
pub proof fn law_an_axis_reads_back(value: i32, range: AbsRange)
    ensures
        ({
            let image = axis_image(value, range);
            &&& image.len() == 24
            &&& u32_at(image, 0) as i32 == value
            &&& u32_at(image, 4) == range.min
            &&& u32_at(image, 8) == range.max
            &&& u32_at(image, 12) == range.fuzz
            &&& u32_at(image, 16) == range.flat
            &&& u32_at(image, 20) == range.res
        }),
{
    let image = axis_image(value, range);
    signed_word(value);
    word32(image, 0, value as u32);
    word32(image, 4, range.min);
    word32(image, 8, range.max);
    word32(image, 12, range.fuzz);
    word32(image, 16, range.flat);
    word32(image, 20, range.res);
}

/// The values of a slotted axis come in the order of their slots; a slot without one has zero.
pub proof fn law_slots_read_in_order(values: Seq<i32>, n: nat, i: int)
    requires
        0 <= i < n,
    ensures
        slot_images(values, n).len() == 4 * n,
        u32_at(slot_images(values, n), 4 * i) as i32 == (if i < values.len() {
            values[i]
        } else {
            0
        }),
    decreases n,
{
    slot_images_len(values, n);
    slot_images_len(values, (n - 1) as nat);
    let all = slot_images(values, n);
    let fewer = slot_images(values, (n - 1) as nat);
    if i == n - 1 {
        let x: u32 = if i < values.len() {
            values[i] as u32
        } else {
            0
        };
        word32(all, 4 * i, x);
        if i < values.len() {
            signed_word(values[i]);
        } else {
            signed_word(0);
        }
    } else {
        law_slots_read_in_order(values, (n - 1) as nat, i);
        assert forall|k: int| 0 <= k < fewer.len() implies #[trigger] all[0 + k] == fewer[k] by {}
        moved32(all, fewer, 0, 4 * i);
    }
}

proof fn slot_images_len(values: Seq<i32>, n: nat)
    ensures
        slot_images(values, n).len() == 4 * n,
    decreases n,
{
    if n > 0 {
        slot_images_len(values, (n - 1) as nat);
    }
}

/// A text fills its buffer from the front; what does not fit is cut off, and zeroes follow it.
pub proof fn law_a_text_fills_its_buffer(text: Seq<u8>, size: nat, i: int)
    requires
        0 <= i < size,
    ensures
        text_image(text, size).len() == size,
        i < text.len() ==> text_image(text, size)[i] == text[i],
        i >= text.len() ==> text_image(text, size)[i] == 0,
{
}

/// The classes of a device are shown by one bit each: that of the class's number.
pub proof fn law_classes_are_shown_by_their_bits(classes: Seq<bool>, len: nat, n: nat, k: int)
    requires
        n <= classes.len(),
        n <= 256,
        0 <= k,
    ensures
        class_bits(classes, len, n).len() == len,
        has_bit(class_bits(classes, len, n), k) <==> k < n && k / 8 < len && classes[k]
            && numbered_type(k as u8) is Some,
    decreases n,
{
    if n == 0 {
        bit_facts(0, 0, (k % 8) as u8);
    } else {
        law_classes_are_shown_by_their_bits(classes, len, (n - 1) as nat, k);
        let rest = class_bits(classes, len, (n - 1) as nat);
        law_setting_a_bit_sets_no_other(rest, n - 1, k);
    }
}

/// A call that reads from the device is known by its number alone, and its size is the one that the
/// caller put into the command.
pub proof fn law_reading_calls_are_known_by_their_number(size: u32, nr: u32)
    requires
        size < 0x4000,
        nr < 0x100,
    ensures
        ({
            let call = decoded((0x8000_0000 + size * 0x1_0000 + 0x4500 + nr) as u32);
            let size = size as usize;
            &&& nr == 0x06 ==> call == Some(EvdevIoctl::Name { size })
            &&& nr == 0x07 ==> call == Some(EvdevIoctl::Location { size })
            &&& nr == 0x08 ==> call == Some(EvdevIoctl::Unique { size })
            &&& nr == 0x09 ==> call == Some(EvdevIoctl::Properties { size })
            &&& nr == 0x0a ==> call == Some(EvdevIoctl::Slots { size })
            &&& nr == 0x18 ==> call == Some(EvdevIoctl::Keys { size })
            &&& nr == 0x19 ==> call == Some(EvdevIoctl::Leds { size })
            &&& nr == 0x1b ==> call == Some(EvdevIoctl::Switches { size })
            &&& 0x20 <= nr < 0x40 ==> call == Some(
                EvdevIoctl::EventBits { event_type: (nr - 0x20) as u8, size },
            )
            &&& 0x40 <= nr < 0x80 ==> call == Some(EvdevIoctl::AbsInfo { axis: (nr - 0x40) as u8, size })
        }),
{
    let cmd = (0x8000_0000 + size * 0x1_0000 + 0x4500 + nr) as u32;
    assert(cmd == 0x8000_4500 + size * 0x1_0000 + nr);
    assert(cmd % 0x100 == nr);
    assert(cmd / 0x1_0000 == 0x8000 + size);
    assert((cmd / 0x1_0000) % 0x4000 == size);
    assert((cmd / 0x100) % 0x100 == 0x45);
    assert(cmd / 0x4000_0000 == 2);
}

/// The number that a hexadecimal text writes.
pub open spec fn hex_value(text: Seq<u8>) -> nat
    decreases text.len(),
{
    if text.len() == 0 {
        0
    } else {
        let c = text.last();
        let d: nat = if 48 <= c <= 57 {
            (c - 48) as nat
        } else if 65 <= c <= 70 {
            (c - 55) as nat
        } else {
            (c - 87) as nat
        };
        16 * hex_value(text.drop_last()) + d
    }
}

/// A number reads back from its hexadecimal text, also with zeroes before it; the text has no zero
/// of its own in front.
pub proof fn law_hexadecimal_reads_back(n: nat, width: nat, upper: bool)
    ensures
        hex_value(hex(n, upper)) == n,
        n > 0 ==> hex(n, upper)[0] != 48,
        hex_value(padded_hex(n, width, upper)) == n,
        padded_hex(n, width, upper).len() >= width,
    decreases n,
{
    hex_reads_back(n, upper);
    let digits = hex(n, upper);
    if digits.len() < width {
        zeroes_count_nothing((width - digits.len()) as nat, digits);
    }
}

proof fn hex_reads_back(n: nat, upper: bool)
    ensures
        hex_value(hex(n, upper)) == n,
        hex(n, upper).len() > 0,
        n > 0 ==> hex(n, upper)[0] != 48,
    decreases n,
{
    let digits = hex(n, upper);
    if n < 16 {
        assert(digits.drop_last() =~= Seq::empty());
        assert(hex_value(digits.drop_last()) == 0);
        assert(digits.last() == hex_digit(n as int, upper));
    } else {
        hex_reads_back(n / 16, upper);
        assert(digits.drop_last() =~= hex(n / 16, upper));
        assert(digits.last() == hex_digit((n % 16) as int, upper));
    }
}

proof fn zeroes_count_nothing(n: nat, digits: Seq<u8>)
    ensures
        hex_value(zero_digits(n) + digits) == hex_value(digits),
    decreases n + digits.len(),
{
    let all = zero_digits(n) + digits;
    if digits.len() > 0 {
        assert(all.drop_last() =~= zero_digits(n) + digits.drop_last());
        assert(all.last() == digits.last());
        zeroes_count_nothing(n, digits.drop_last());
    } else if n > 0 {
        assert(all.drop_last() =~= zero_digits((n - 1) as nat) + digits);
        assert(all.last() == 48);
        zeroes_count_nothing((n - 1) as nat, digits);
    }
}

} // verus!
