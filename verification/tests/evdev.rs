//! Event devices: bitmaps, open files, the device itself and its directory.

use pseudofs::error::Error;
use pseudofs::evdev::bits::{bit_is_set, bitmap_hex, linux_bitmap_len, set_bit_if_fits, zero_bits_len};
use pseudofs::evdev::client::{EvdevClient, EVDEV_CLIENT_QUEUE_EVENTS};
use pseudofs::evdev::device::{
    map_dev_error, DevError, EvdevDevice, FileEvents, EVDEV_PUMP_EVENTS, EVENT_NODE_MODE,
};
use pseudofs::evdev::event::{
    EvdevClock, EvdevRecord, Event, EventType, KernelTimeval, Timestamp, EV_MAX, EV_SYN,
    SYN_DROPPED, SYN_REPORT,
};
use pseudofs::evdev::ioctl::{
    decode_ioctl, event_mask_len, input_mask_event_type, AbsRange, DriverAnswer, DriverQuery,
    EvdevIoctl, InputDeviceId, IoctlReply, EVIOCGID, EVIOCGMASK, EVIOCGRAB, EVIOCGREP,
    EVIOCGVERSION, EVIOCREVOKE, EVIOCSCLOCKID, EVIOCSMASK, EVIOCSREP,
};
use pseudofs::evdev::manager::{parse_decimal_name, InputManager, InputObject};
use pseudofs::evdev::sysfs::{
    event_registration, input_sysfs_description, input_transport_path, parent_registration,
    pci_sysfs_registration, virtio_sysfs_registration, InputBusIdentity, InputFacts,
    InputSysfsDescription,
};
use pseudofs::registration::DeviceAttribute;

const KEY: u16 = 1;
const RELATIVE: u16 = 2;
const ABSOLUTE: u16 = 3;

fn client() -> EvdevClient {
    EvdevClient::new(1, 1, false)
}

fn record(event_type: u16, code: u16) -> EvdevRecord {
    valued(event_type, code, 1)
}

fn valued(event_type: u16, code: u16, value: u32) -> EvdevRecord {
    EvdevRecord {
        event: Event {
            event_type,
            code,
            value,
        },
        realtime_arrival: Timestamp { secs: 1, nanos: 0 },
        monotonic_arrival: Timestamp { secs: 2, nanos: 0 },
    }
}

/// The directory path that a registration stands for.
fn devpath(parent: &(Vec<u8>, Vec<u8>), name: &[u8]) -> String {
    format!(
        "/devices/{}/{}/{}",
        String::from_utf8_lossy(&parent.0),
        String::from_utf8_lossy(&parent.1),
        String::from_utf8_lossy(name)
    )
}

fn on_pci() -> InputBusIdentity {
    InputBusIdentity {
        vendor_id: 0x1af4,
        device_id: 0x1052,
        domain: 0,
        bus: 0,
        device: 3,
        function: 0,
        virtio_index: 0,
    }
}

fn facts() -> InputFacts {
    let mut classes = vec![false; 0x20];
    classes[0] = true;
    classes[1] = true;
    InputFacts {
        name: b"keyboard".to_vec(),
        location: Vec::new(),
        unique: b"u1".to_vec(),
        id: InputDeviceId {
            bus_type: 6,
            vendor: 0x1234,
            product: 0x5678,
            version: 1,
        },
        classes,
        codes: vec![vec![2], vec![], vec![], vec![], vec![], vec![], vec![], vec![]],
        properties: None,
    }
}

#[test]
fn property_bitmap_uses_the_encoded_byte_length() {
    for size in [0usize, 1, 2, 7, 8, 9, 0x3fff] {
        assert_eq!(zero_bits_len(size, size.saturating_mul(8)), size);
    }
}

#[test]
fn sysfs_bitmaps_use_space_separated_native_words_high_first() {
    let mut keyboard = [0u8; 16];
    set_bit_if_fits(&mut keyboard, 1);
    set_bit_if_fits(&mut keyboard, 65);
    assert_eq!(bitmap_hex(&keyboard), b"2 2\n");

    let mut low_only = [0u8; 16];
    set_bit_if_fits(&mut low_only, 1);
    assert_eq!(bitmap_hex(&low_only), b"2\n");
    assert_eq!(bitmap_hex(&[]), b"0\n");
}

#[test]
fn sysfs_bitmaps_preserve_partial_native_words() {
    // Event types and input properties occupy four bytes, while relative axes
    // need only two. These still contain a nonempty native word.
    assert_eq!(bitmap_hex(&[3, 0, 0, 0]), b"3\n");
    assert_eq!(bitmap_hex(&[3, 0]), b"3\n");
    assert_eq!(bitmap_hex(&[1]), b"1\n");
    assert_eq!(bitmap_hex(&[0, 0, 0, 0, 0, 0, 0, 0, 2]), b"2 0\n");
}

#[test]
fn event_nodes_default_to_udev_managed_group_access() {
    assert_eq!(EVENT_NODE_MODE, 0o660);
}

#[test]
fn input_kobjects_have_linux_canonical_parent_and_event_paths() {
    let description = input_sysfs_description(&facts(), on_pci());
    let parent = parent_registration(on_pci(), 0, &description);
    assert_eq!(
        devpath(parent.parent.as_ref().unwrap(), &parent.name),
        "/devices/pci0000:00/0000:00:03.0/virtio0/input/input0"
    );

    let event = event_registration(on_pci(), 0);
    assert_eq!(event.node, Some(((13, 64), b"input/event0".to_vec())));
    assert_eq!(
        devpath(event.parent.as_ref().unwrap(), &event.name),
        "/devices/pci0000:00/0000:00:03.0/virtio0/input/input0/event0"
    );
}

#[test]
fn input_parent_sysfs_has_linux_id_and_capability_paths() {
    let pair = |name: &str, value: &str| (name.as_bytes().to_vec(), value.as_bytes().to_vec());
    let description = InputSysfsDescription {
        name: b"virtio keyboard".to_vec(),
        phys: Vec::new(),
        uniq: Vec::new(),
        id: InputDeviceId {
            bus_type: 0x06,
            vendor: 0x1234,
            product: 0x5678,
            version: 1,
        },
        modalias: b"input:b0006v1234p5678e0001\n".to_vec(),
        capabilities: vec![
            pair("ev", "03\n"),
            pair("key", "1\n"),
            pair("rel", "0\n"),
            pair("abs", "0\n"),
            pair("msc", "0\n"),
            pair("led", "0\n"),
            pair("snd", "0\n"),
            pair("ff", "0\n"),
            pair("sw", "0\n"),
        ],
        properties: b"0\n".to_vec(),
        pci_vendor: 0x1af4,
        pci_device: 0x1052,
        pci_modalias: b"pci:v00001AF4d00001052sv*sd*bc*sc*i*\n".to_vec(),
        virtio_index: 16,
    };
    let attributes = description.attributes();
    let names: Vec<&[u8]> = attributes.iter().map(|a| a.name().as_slice()).collect();
    let expected: Vec<&[u8]> = vec![
        b"name",
        b"phys",
        b"uniq",
        b"modalias",
        b"pci_vendor",
        b"pci_device",
        b"pci_modalias",
        b"virtio_index",
        b"properties",
        b"id",
        b"capabilities",
    ];
    assert_eq!(names, expected);
    let children = |wanted: &[u8]| -> Vec<Vec<u8>> {
        match attributes.iter().find(|a| a.name() == wanted).unwrap() {
            DeviceAttribute::Directory { children, .. } => {
                children.iter().map(|child| child.0.clone()).collect()
            }
            DeviceAttribute::Text { .. } => panic!("a directory"),
        }
    };
    let listed = |names: &[&str]| -> Vec<Vec<u8>> {
        names.iter().map(|name| name.as_bytes().to_vec()).collect()
    };
    assert_eq!(
        children(b"id"),
        listed(&["bustype", "vendor", "product", "version"])
    );
    assert_eq!(
        children(b"capabilities"),
        listed(&["ev", "key", "rel", "abs", "msc", "led", "snd", "ff", "sw"])
    );
}

#[test]
fn variable_bitmaps_are_clamped_without_padding() {
    assert_eq!(zero_bits_len(1, 1), 1);
    assert_eq!(zero_bits_len(2, 9), 2);
    assert_eq!(zero_bits_len(8, 9), 2);
    assert_eq!(linux_bitmap_len(64, EV_MAX as usize), 8);
    assert_eq!(linux_bitmap_len(4, EV_MAX as usize), 4);
    assert_eq!(linux_bitmap_len(64, 0), 0);
}

#[test]
fn event_type_bitmap_respects_zero_and_short_user_buffers() {
    let mut empty = [];
    set_bit_if_fits(&mut empty, EventType::ForceFeedback.number() as usize);
    let mut one = [0u8; 1];
    set_bit_if_fits(&mut one, EventType::ForceFeedback.number() as usize);
    assert_eq!(one, [0]);
    set_bit_if_fits(&mut one, EventType::Key.number() as usize);
    assert_eq!(one, [1 << EventType::Key.number()]);
    assert!(bit_is_set(&one, 1));
    assert!(!bit_is_set(&one, 8));
}

#[test]
fn linux_repeat_power_and_ff_status_event_types_are_queryable() {
    assert_eq!(EventType::from_repr(0x14), Some(EventType::Repeat));
    assert_eq!(EventType::from_repr(0x16), Some(EventType::Power));
    assert_eq!(
        EventType::from_repr(0x17),
        Some(EventType::ForceFeedbackStatus)
    );
    assert_eq!(EventType::Repeat.bits_count(), 2);
    assert_eq!(EventType::Power.bits_count(), 1);
    assert_eq!(EventType::ForceFeedbackStatus.bits_count(), 2);
}

#[test]
fn client_mask_keeps_frame_boundaries_and_syn() {
    let mut client = client();
    client.set_mask(KEY, vec![0]);
    client.enqueue_frame(&vec![record(KEY, 30), record(EV_SYN, SYN_REPORT)]);
    assert_eq!(client.pop().unwrap().event.code, SYN_REPORT);
    assert!(client.pop().is_none());
}

#[test]
fn clients_keep_independent_ofd_masks_and_queues() {
    let mut masked = client();
    let mut unmasked = client();
    masked.set_mask(KEY, vec![0]);
    let frame = vec![record(KEY, 30), record(EV_SYN, SYN_REPORT)];
    masked.enqueue_frame(&frame);
    unmasked.enqueue_frame(&frame);
    assert_eq!(masked.pop().unwrap().event.code, SYN_REPORT);
    assert_eq!(unmasked.pop().unwrap().event.code, 30);
    assert_eq!(unmasked.pop().unwrap().event.code, SYN_REPORT);
}

#[test]
fn overflow_reports_syn_dropped_before_next_complete_frame() {
    let mut client = client();
    let too_large = vec![record(KEY, 1); EVDEV_CLIENT_QUEUE_EVENTS + 1];
    client.enqueue_frame(&too_large);
    client.enqueue_frame(&vec![record(KEY, 1), record(EV_SYN, SYN_REPORT)]);
    assert_eq!(client.pop().unwrap().event.code, SYN_DROPPED);
    assert_eq!(client.pop().unwrap().event.code, 1);
    assert_eq!(client.pop().unwrap().event.code, SYN_REPORT);
}

#[test]
fn discarded_device_frame_marks_the_next_client_frame_dropped() {
    let mut client = client();
    client.mark_overflow();
    client.enqueue_frame(&vec![record(KEY, 1), record(EV_SYN, SYN_REPORT)]);
    assert_eq!(client.pop().unwrap().event.code, SYN_DROPPED);
    assert_eq!(client.pop().unwrap().event.code, 1);
}

#[test]
fn clock_ids_follow_linux_evdev_values() {
    let mut client = client();
    client.set_clock_id(1).unwrap();
    assert_eq!(client.clock(), EvdevClock::Monotonic);
    client.set_clock_id(7).unwrap();
    assert_eq!(client.clock(), EvdevClock::Boottime);
    assert_eq!(client.set_clock_id(2), Err(Error::InvalidInput));
}

#[test]
fn event_masks_are_per_ofd_and_default_to_known_codes() {
    let mut first = client();
    let second = client();
    assert_eq!(first.mask_bits(RELATIVE, 2), [0xff, 0xff]);

    first.set_mask(RELATIVE, vec![0b0000_0100]);
    assert_eq!(first.mask_bits(RELATIVE, 2), [0b0000_0100, 0]);
    assert_eq!(second.mask_bits(RELATIVE, 2), [0xff, 0xff]);
}

#[test]
fn event_mask_lengths_are_bounded_to_known_codes() {
    assert_eq!(event_mask_len(KEY), 0x300 / 8);
    assert_eq!(event_mask_len(ABSOLUTE), 0x40 / 8);
    assert_eq!(input_mask_event_type(EV_MAX as u32), Some(EV_MAX as u16));
    assert_eq!(input_mask_event_type(KEY as u32), Some(1));
    assert_eq!(input_mask_event_type(u32::MAX), None);
}

#[test]
fn command_numbers_are_those_of_the_system() {
    assert_eq!(EVIOCGVERSION, linux_raw_sys::ioctl::EVIOCGVERSION);
    assert_eq!(EVIOCGID, linux_raw_sys::ioctl::EVIOCGID);
    assert_eq!(EVIOCGREP, linux_raw_sys::ioctl::EVIOCGREP);
    assert_eq!(EVIOCSREP, linux_raw_sys::ioctl::EVIOCSREP);
    assert_eq!(EVIOCGRAB, linux_raw_sys::ioctl::EVIOCGRAB);
    assert_eq!(EVIOCREVOKE, linux_raw_sys::ioctl::EVIOCREVOKE);
    assert_eq!(EVIOCGMASK, linux_raw_sys::ioctl::EVIOCGMASK);
    assert_eq!(EVIOCSMASK, linux_raw_sys::ioctl::EVIOCSMASK);
    assert_eq!(EVIOCSCLOCKID, linux_raw_sys::ioctl::EVIOCSCLOCKID);
}

#[test]
fn commands_are_decoded_by_their_number() {
    assert_eq!(decode_ioctl(EVIOCGVERSION), Ok(EvdevIoctl::Version));
    assert_eq!(decode_ioctl(0x8040_4506), Ok(EvdevIoctl::Name { size: 0x40 }));
    assert_eq!(
        decode_ioctl(0x8060_4521),
        Ok(EvdevIoctl::EventBits { event_type: 1, size: 0x60 })
    );
    assert_eq!(decode_ioctl(0x8018_4540), Ok(EvdevIoctl::AbsInfo { axis: 0, size: 0x18 }));
    assert_eq!(decode_ioctl(0x8018_4680), Err(Error::NotATty));
    assert_eq!(decode_ioctl(0x4018_4540), Err(Error::NotATty));
    assert_eq!(EvdevIoctl::SetMask.input_len(), 16);
    assert_eq!(EvdevIoctl::Slots { size: 6 }.input_len(), 0);
    assert!(EvdevIoctl::Keys { size: 1 }.needs_pump());
    assert_eq!(
        EvdevIoctl::EventBits { event_type: 1, size: 0x60 }.driver_query(),
        Ok(DriverQuery::Codes(EventType::Key, 0x60))
    );
    assert_eq!(
        EvdevIoctl::EventBits { event_type: 0x14, size: 8 }.driver_query(),
        Err(Error::InvalidInput)
    );
}

/// A device with one open file.
fn opened() -> (EvdevDevice, usize) {
    let mut device = EvdevDevice::new();
    let id = device.open_client();
    let client = device.client_index(id).unwrap();
    (device, client)
}

fn call(
    device: &mut EvdevDevice,
    client: usize,
    request: EvdevIoctl,
    input: &[u8],
    answer: DriverAnswer,
) -> Result<IoctlReply, Error> {
    device.ioctl(client, request, 0, &input.to_vec(), &answer)
}

fn written(reply: Result<IoctlReply, Error>) -> Vec<u8> {
    match reply {
        Ok(IoctlReply::Write(bytes, _)) => bytes,
        _ => panic!("an answer that is written"),
    }
}

#[test]
fn events_reach_every_open_file_in_frames() {
    let (mut device, first) = opened();
    let id = device.open_client();
    let second = device.client_index(id).unwrap();
    assert_eq!(
        device.pump(&vec![record(KEY, 30)], DevError::Again),
        Ok(false)
    );
    assert!(!device.clients[first].poll_ready(device.status()));
    device
        .pump(&vec![record(EV_SYN, SYN_REPORT)], DevError::Again)
        .unwrap();
    let status = device.status();
    for index in [first, second] {
        assert!(device.clients[index].poll_ready(status));
        let bytes = device.clients[index].read_at(status, 100).unwrap();
        assert_eq!(bytes.len(), 48);
        assert_eq!(&bytes[..8], &1u64.to_le_bytes());
        assert_eq!(&bytes[16..24], &[1, 0, 30, 0, 1, 0, 0, 0]);
        assert_eq!(device.clients[index].read_at(status, 100), Err(Error::WouldBlock));
    }
    assert_eq!(device.clients[first].read_at(status, 23), Err(Error::InvalidInput));
    assert_eq!(device.clients[first].read_at(status, 0), Ok(vec![]));
    // The key is down until it is released.
    assert_eq!(device.key_state(4), [0, 0, 0, 0x40]);
    device.pump(&vec![valued(KEY, 30, 0)], DevError::Again).unwrap();
    assert_eq!(device.key_state(4), [0, 0, 0, 0]);
}

#[test]
fn a_full_pass_leaves_the_rest_for_the_next() {
    let mut device = EvdevDevice::new();
    let arrivals = vec![record(KEY, 1); EVDEV_PUMP_EVENTS];
    assert_eq!(device.pump(&arrivals, DevError::Again), Ok(true));
    assert_eq!(device.pump(&vec![], DevError::Io), Err(Error::Io));
    assert_eq!(map_dev_error(DevError::BadState), Error::BadState);
    assert_eq!(map_dev_error(DevError::Unsupported), Error::OperationNotSupported);
    assert_eq!(map_dev_error(DevError::InvalidParam), Error::InvalidInput);
    assert_eq!(map_dev_error(DevError::NoMemory), Error::NoMemory);
    assert_eq!(map_dev_error(DevError::ResourceBusy), Error::ResourceBusy);
    assert_eq!(map_dev_error(DevError::AlreadyExists), Error::AlreadyExists);
    assert_eq!(map_dev_error(DevError::Again), Error::WouldBlock);
}

#[test]
fn a_grab_keeps_events_from_the_others() {
    let (mut device, first) = opened();
    let id = device.open_client();
    let second = device.client_index(id).unwrap();
    device.grab(first, true).unwrap();
    assert_eq!(device.grab(second, true), Err(Error::ResourceBusy));
    device
        .pump(&vec![record(KEY, 30), record(EV_SYN, SYN_REPORT)], DevError::Again)
        .unwrap();
    assert_eq!(device.clients[first].queue.len(), 2);
    assert_eq!(device.clients[second].queue.len(), 0);
    device.grab(first, false).unwrap();
    // To let go of what another holds, or nobody, changes nothing.
    assert_eq!(device.grab(first, false), Ok(()));
    device.grab(second, true).unwrap();
    device.close_client(id);
    device.grab(first, true).unwrap();
}

#[test]
fn a_pause_revokes_open_files_and_a_removal_ends_the_device() {
    let (mut device, first) = opened();
    assert!(device.pause());
    assert!(!device.pause());
    assert!(device.resume());
    let status = device.status();
    assert_eq!(device.clients[first].read_at(status, 24), Err(Error::NoSuchDevice));
    // A session that opens the device anew can read it.
    let id = device.open_client();
    let second = device.client_index(id).unwrap();
    let status = device.status();
    assert_eq!(device.clients[second].read_at(status, 24), Err(Error::WouldBlock));
    assert!(device.disconnect());
    assert!(!device.disconnect());
    assert_eq!(device.pump(&vec![], DevError::Again), Err(Error::NoSuchDevice));
    assert!(!device.resume());
}

#[test]
fn calls_are_answered_from_the_device_and_the_driver() {
    let (mut device, client) = opened();
    assert_eq!(
        written(call(&mut device, client, EvdevIoctl::Version, &[], DriverAnswer::Nothing)),
        0x10001u32.to_le_bytes()
    );
    let id = InputDeviceId { bus_type: 1, vendor: 2, product: 3, version: 4 };
    assert_eq!(
        written(call(&mut device, client, EvdevIoctl::Id, &[], DriverAnswer::Id(id))),
        [1, 0, 2, 0, 3, 0, 4, 0]
    );
    assert_eq!(
        written(call(
            &mut device,
            client,
            EvdevIoctl::Name { size: 4 },
            &[],
            DriverAnswer::Text(b"keyboard".to_vec())
        )),
        b"keyb"
    );
    assert_eq!(
        written(call(&mut device, client, EvdevIoctl::GetRepeat, &[], DriverAnswer::Nothing)),
        [250, 0, 0, 0, 33, 0, 0, 0]
    );
    assert!(call(
        &mut device,
        client,
        EvdevIoctl::SetRepeat,
        &[1, 0, 0, 0, 2, 0, 0, 0],
        DriverAnswer::Supported(true)
    )
    .is_ok());
    assert_eq!(device.repeat, (1, 2));
    assert_eq!(
        call(
            &mut device,
            client,
            EvdevIoctl::SetRepeat,
            &[0; 8],
            DriverAnswer::Supported(false)
        )
        .err(),
        Some(Error::InvalidInput)
    );
    device.pump(&vec![valued(ABSOLUTE, 0, 7)], DevError::Again).unwrap();
    let range = AbsRange { min: 1, max: 100, fuzz: 2, flat: 3, res: 0xffff_ffff };
    assert_eq!(device.abs_info(0, range), [7, 1, 100, 2, 3, -1]);
    assert_eq!(
        written(call(
            &mut device,
            client,
            EvdevIoctl::AbsInfo { axis: 0, size: 8 },
            &[],
            DriverAnswer::Range(Some(range))
        )),
        [7, 0, 0, 0, 1, 0, 0, 0]
    );
    assert_eq!(
        call(
            &mut device,
            client,
            EvdevIoctl::AbsInfo { axis: 1, size: 8 },
            &[],
            DriverAnswer::Range(None)
        )
        .err(),
        Some(Error::InvalidInput)
    );
    let mut classes = vec![false; 0x20];
    classes[1] = true;
    assert_eq!(
        written(call(
            &mut device,
            client,
            EvdevIoctl::EventBits { event_type: 0, size: 2 },
            &[],
            DriverAnswer::Classes(classes)
        )),
        [2, 0]
    );
    // Zeroes are written for a class that does not exist.
    let mut mask = [0u8; 16];
    mask[0] = 0xff;
    mask[4] = 5;
    mask[8] = 0x40;
    assert!(matches!(
        call(&mut device, client, EvdevIoctl::GetMask, &mask, DriverAnswer::Nothing),
        Ok(IoctlReply::ZeroesAt(0x40, 5))
    ));
    mask[0] = 1;
    assert!(matches!(
        call(&mut device, client, EvdevIoctl::SetMask, &mask, DriverAnswer::Nothing),
        Ok(IoctlReply::ReadMask { pointer: 0x40, len: 5, event_type: 1 })
    ));
    assert!(call(&mut device, client, EvdevIoctl::Revoke, &[], DriverAnswer::Nothing).is_ok());
    assert!(device.clients[client].revoked);
}

#[test]
fn slots_hold_the_values_of_their_contacts() {
    let (mut device, client) = opened();
    let slotted = vec![
        valued(ABSOLUTE, 0x2f, 1),
        valued(ABSOLUTE, 0x35, 44),
        valued(ABSOLUTE, 0x2f, 0),
        valued(ABSOLUTE, 0x35, 22),
    ];
    device.pump(&slotted, DevError::Again).unwrap();
    let axis = 0x35u32.to_le_bytes();
    assert_eq!(
        written(call(
            &mut device,
            client,
            EvdevIoctl::Slots { size: 16 },
            &axis,
            DriverAnswer::Nothing
        )),
        [0x35, 0, 0, 0, 22, 0, 0, 0, 44, 0, 0, 0, 0, 0, 0, 0]
    );
    assert_eq!(
        call(
            &mut device,
            client,
            EvdevIoctl::Slots { size: 16 },
            &[0x36, 0, 0, 0],
            DriverAnswer::Nothing
        )
        .err(),
        Some(Error::InvalidInput)
    );
}

#[test]
fn times_are_kept_for_every_clock() {
    let mut stamped = record(KEY, 1);
    stamped.realtime_arrival = Timestamp { secs: 7, nanos: 1_999 };
    assert_eq!(stamped.timestamp(EvdevClock::Realtime).secs, 7);
    assert_eq!(stamped.timestamp(EvdevClock::Boottime).secs, 2);
    let time = KernelTimeval::new(stamped.realtime_arrival);
    assert_eq!((time.tv_sec, time.tv_usec), (7, 1));
}

#[test]
fn a_directory_gives_out_the_lowest_free_minor() {
    let mut manager = InputManager::new();
    let add = |manager: &mut InputManager, token: u64| -> u32 {
        let plan = manager.plan_add(token, 1, on_pci(), &facts()).unwrap();
        assert!(plan.transport.is_some());
        assert_eq!(plan.node.device, (13, 64 + plan.minor));
        assert_eq!(plan.node.mode, 0o660);
        manager.finish_add(token, 1, plan.minor, true, true);
        plan.minor
    };
    assert_eq!(add(&mut manager, 30), 0);
    assert_eq!(add(&mut manager, 10), 1);
    assert_eq!(add(&mut manager, 20), 2);
    assert_eq!(
        manager.plan_add(20, 1, on_pci(), &facts()).err(),
        Some(Error::AlreadyExists)
    );
    assert_eq!(
        manager.child_names(),
        [b"event1".to_vec(), b"event2".to_vec(), b"event0".to_vec()]
    );
    assert_eq!(manager.lookup_child(b"event2"), Ok(1));
    assert_eq!(manager.lookup_child(b"event02"), Ok(1));
    assert_eq!(manager.lookup_child(b"event9"), Err(Error::NotFound));
    assert_eq!(manager.lookup_child(b"mouse0"), Err(Error::NotFound));
    assert_eq!(manager.metrics(), (3, 0));
    manager.devices[0].event.open_client();
    assert_eq!(manager.metrics(), (3, 1));
    assert_eq!(manager.rescan().len(), 12);
    assert_eq!(manager.rescan()[1], (10, InputObject::Transport));

    // Another generation of the token is not there.
    assert!(manager.remove_device(10, 2).is_none());
    let removed = manager.remove_device(10, 1).unwrap();
    assert!(removed.event.disconnected);
    assert_eq!(removed.minor, 1);
    assert_eq!(add(&mut manager, 40), 1);
    // A publication that failed gives its minor back.
    let plan = manager.plan_add(50, 1, on_pci(), &facts()).unwrap();
    assert_eq!(plan.minor, 3);
    manager.finish_add(50, 1, 3, true, false);
    assert_eq!(manager.plan_add(51, 1, on_pci(), &facts()).unwrap().minor, 3);

    manager.pause_all();
    assert!(manager.devices.iter().all(|slot| slot.event.paused));
    manager.resume_all();
    assert!(manager.devices.iter().all(|slot| !slot.event.paused));
}

#[test]
fn minor_names_are_decimal() {
    assert_eq!(parse_decimal_name(b"0"), Some(0));
    assert_eq!(parse_decimal_name(b"4294967295"), Some(u32::MAX));
    assert_eq!(parse_decimal_name(b"4294967296"), None);
    assert_eq!(parse_decimal_name(b""), None);
    assert_eq!(parse_decimal_name(b"1a"), None);
}

#[test]
fn registrations_describe_the_device_and_its_transport() {
    let description = input_sysfs_description(&facts(), on_pci());
    assert_eq!(description.phys, b"pci0000:00/0000:00:03.0/virtio0/input");
    assert_eq!(description.modalias, b"input:b0006v1234p5678e0001\n");
    assert_eq!(description.pci_modalias, b"pci:v00001AF4d00001052sv*sd*bc*sc*i*\n");
    assert_eq!(description.capabilities[0], (b"ev".to_vec(), b"3\n".to_vec()));
    assert_eq!(description.capabilities[1], (b"key".to_vec(), b"2\n".to_vec()));
    let bus = pci_sysfs_registration(on_pci());
    assert_eq!((bus.root.as_slice(), bus.name.as_slice()), (b"pci0000:00".as_slice(), b"0000:00:03.0".as_slice()));
    match &bus.attributes[0] {
        DeviceAttribute::Text { name, value } => {
            assert_eq!((name.as_slice(), value.as_slice()), (b"vendor".as_slice(), b"0x1af4\n".as_slice()));
        }
        DeviceAttribute::Directory { .. } => panic!("a file"),
    }
    let transport = virtio_sysfs_registration(on_pci());
    assert_eq!(transport.name, b"virtio0");
    let off_bus = InputBusIdentity { vendor_id: 0, device_id: 0, virtio_index: 12, ..on_pci() };
    assert_eq!(input_transport_path(off_bus), b"virtual/virtio12");
}

#[test]
fn a_cleared_mask_lets_its_class_through() {
    let mut client = EvdevClient::new(1, 1, false);
    client.set_mask(1, vec![0b10]);
    assert_eq!(client.mask_bits(1, 2), [0b10, 0]);
    client.clear_mask(1);
    assert_eq!(client.mask_bits(1, 2), [255, 255]);
    client.revoke();
    assert!(client.revoked);
}

#[test]
fn unknown_event_types_have_empty_masks() {
    let mut client = client();
    // Its low byte is the number of a class.
    assert_eq!(client.mask_bits(0x0101, 2), [0, 0]);
    assert_eq!(client.mask_bits(0x0007, 2), [0, 0]);
    assert_eq!(client.mask_bits(KEY, 2), [0xff, 0xff]);
    assert_eq!((event_mask_len(0x0101), event_mask_len(0x0007)), (0, 0));
    client.set_mask(0x0101, vec![0b10]);
    assert_eq!(client.mask_bits(0x0101, 2), [0b10, 0]);
}

#[test]
fn a_file_without_its_device_hangs_up() {
    let mut device = EvdevDevice::new();
    let id = device.open_client();
    let client = device.client_index(id).unwrap();
    let quiet = FileEvents { readable: false, hangup: false, error: false };
    let gone = FileEvents { readable: false, hangup: true, error: true };
    assert_eq!(device.poll(client), quiet);
    device.pause();
    assert_eq!(device.poll(client), gone);
    device.resume();
    assert_eq!(device.poll(client), gone);
    let status = device.status();
    assert_eq!(device.clients[client].read_at(status, 24), Err(Error::NoSuchDevice));
    let later = device.open_client();
    let client = device.client_index(later).unwrap();
    assert_eq!(device.poll(client), quiet);
    device.disconnect();
    assert_eq!(device.poll(client), gone);
    let status = device.status();
    assert_eq!(device.clients[client].read_at(status, 0), Err(Error::NoSuchDevice));
}
