//! A connection to a file system daemon: requests, replies, notices and its end.

use pseudofs::error::Error;
use pseudofs::fuse::connection::{
    Connection, Source, MAX_FORGET_NODES, MAX_PENDING_REQUESTS,
};
use pseudofs::fuse::control::{
    lookup_control_file, parse_mount_name, ControlFile, FUSECTL_MAGIC,
};
use pseudofs::fuse::errno::of_errno;
use pseudofs::fuse::mounts::MountTable;
use pseudofs::fuse::notice::FuseNotification;
use pseudofs::fuse::poll::{
    read_events, POLLERR, POLLHUP, POLLIN, POLLMSG, POLLNVAL, POLLOUT, POLLPRI, POLLRDBAND,
    POLLRDHUP, POLLRDNORM, POLLWRBAND, POLLWRNORM,
};
use pseudofs::fuse::request::{reply_data, FuseReply};
use pseudofs::fuse::wire::{
    build_request, init_request, read_init, Caller, FUSE_BATCH_FORGET, FUSE_DESTROY, FUSE_GETATTR,
    FUSE_INIT, FUSE_INTERRUPT, FUSE_KERNEL_MINOR, FUSE_LOOKUP, FUSE_NOTIFY_INVAL_ENTRY,
    FUSE_NOTIFY_POLL, FUSE_NOTIFY_STORE, FUSE_ROOT_ID, FUSE_WRITEBACK_CACHE, MAX_REQUEST_BYTES,
};

const ROOM: usize = MAX_REQUEST_BYTES;

fn caller() -> Caller {
    Caller { uid: 10, gid: 20, pid: 30 }
}

/// The image of a daemon's negotiation reply.
fn init_reply(flags: u64, max_background: u16, threshold: u16) -> Vec<u8> {
    let mut reply = vec![0u8; 64];
    reply[..4].copy_from_slice(&7u32.to_le_bytes());
    reply[4..8].copy_from_slice(&FUSE_KERNEL_MINOR.to_le_bytes());
    reply[12..16].copy_from_slice(&(flags as u32).to_le_bytes());
    reply[16..18].copy_from_slice(&max_background.to_le_bytes());
    reply[18..20].copy_from_slice(&threshold.to_le_bytes());
    reply[20..24].copy_from_slice(&8192u32.to_le_bytes());
    reply[32..36].copy_from_slice(&((flags >> 32) as u32).to_le_bytes());
    reply
}

fn connected() -> Connection {
    let mut connection = Connection::new();
    connection.finish_negotiation(&init_reply(0, 12, 9)).unwrap();
    connection
}

/// What a daemon writes.
fn answer(unique: u64, error: i32, payload: &[u8]) -> Vec<u8> {
    let mut bytes = Vec::new();
    bytes.extend_from_slice(&(16 + payload.len() as u32).to_le_bytes());
    bytes.extend_from_slice(&error.to_le_bytes());
    bytes.extend_from_slice(&unique.to_le_bytes());
    bytes.extend_from_slice(payload);
    bytes
}

/// Hand the next packet to the daemon.
fn read(connection: &mut Connection) -> Vec<u8> {
    let outgoing = connection.next_packet(ROOM, caller()).unwrap();
    connection.delivered(outgoing.source);
    outgoing.bytes
}

fn opcode(packet: &[u8]) -> u32 {
    u32::from_le_bytes(packet[4..8].try_into().unwrap())
}

fn unique(packet: &[u8]) -> u64 {
    u64::from_le_bytes(packet[8..16].try_into().unwrap())
}

#[test]
fn a_request_is_laid_out_behind_its_header() {
    let packet = build_request(5, FUSE_LOOKUP, 9, b"name\0", caller()).unwrap();
    assert_eq!(packet.len(), 45);
    assert_eq!(&packet[..4], &45u32.to_le_bytes());
    assert_eq!(&packet[4..8], &FUSE_LOOKUP.to_le_bytes());
    assert_eq!(&packet[8..16], &5u64.to_le_bytes());
    assert_eq!(&packet[16..24], &9u64.to_le_bytes());
    assert_eq!(&packet[24..28], &10u32.to_le_bytes());
    assert_eq!(&packet[28..32], &20u32.to_le_bytes());
    assert_eq!(&packet[32..36], &30u32.to_le_bytes());
    assert_eq!(&packet[40..], b"name\0");
    let long = vec![0; MAX_REQUEST_BYTES];
    assert_eq!(
        build_request(5, FUSE_LOOKUP, 9, &long, caller()),
        Err(Error::InvalidInput)
    );
}

#[test]
fn a_negotiation_is_read_with_its_bounds() {
    assert_eq!(&init_request()[..4], &7u32.to_le_bytes());
    let init = read_init(&init_reply(FUSE_WRITEBACK_CACHE | (1 << 40), 12, 9)).unwrap();
    assert_eq!((init.max_background, init.congestion_threshold), (12, 9));
    assert_eq!(init.max_write, 8192);
    assert_eq!(init.flags, FUSE_WRITEBACK_CACHE | (1 << 40));
    let mut old = init_reply(0, 0, 0);
    old[20..24].copy_from_slice(&1u32.to_le_bytes());
    assert_eq!(read_init(&old).unwrap().max_write, 4096);
    // A short reply is a reply of an older version.
    assert_eq!(read_init(&old[..24]).unwrap().time_gran, 0);
    old[0] = 8;
    assert_eq!(read_init(&old), Err(Error::Errno(71)));
    assert_eq!(read_init(&[7, 0, 0, 0]), Err(Error::Errno(71)));
}

#[test]
fn a_reply_reaches_the_request_that_waits_for_it() {
    let mut connection = connected();
    let number = connection.submit(FUSE_GETATTR, 1, &[0; 16], caller(), Some(77)).unwrap();
    assert_eq!(connection.take_reply(number).err(), Some(Error::WouldBlock));
    assert!(connection.poll().readable);
    let outgoing = connection.next_packet(ROOM, caller()).unwrap();
    assert!(matches!(outgoing.source, Source::Request(0)));
    assert_eq!((opcode(&outgoing.bytes), unique(&outgoing.bytes)), (FUSE_GETATTR, number));
    assert_eq!(connection.delivered(outgoing.source), Some(77));
    assert_eq!(connection.next_packet(ROOM, caller()).err(), Some(Error::WouldBlock));
    let bytes = answer(number, 0, b"data");
    assert_eq!(connection.daemon_reply(&bytes, None, caller()), Ok(bytes.len()));
    match connection.take_reply(number) {
        Ok(FuseReply::Data(data)) => assert_eq!(data, b"data"),
        _ => panic!("the reply's data"),
    }
    assert_eq!(connection.take_reply(number).err(), Some(Error::NoSuchDevice));
    // A second reply finds nothing that waits.
    assert_eq!(
        connection.daemon_reply(&bytes, None, caller()),
        Err(Error::NotFound)
    );
}

#[test]
fn replies_that_break_the_protocol_are_refused() {
    let mut connection = connected();
    let number = connection.submit(FUSE_GETATTR, 1, &[], caller(), None).unwrap();
    read(&mut connection);
    let refused = |connection: &mut Connection, bytes: &[u8]| {
        assert_eq!(
            connection.daemon_reply(bytes, None, caller()),
            Err(Error::InvalidInput)
        );
    };
    refused(&mut connection, &[0; 8]);
    refused(&mut connection, &answer(number, -512, b""));
    refused(&mut connection, &answer(number, 1, b""));
    refused(&mut connection, &answer(number, -5, b"data"));
    let mut cut = answer(number, 0, b"data");
    cut.pop();
    refused(&mut connection, &cut);
    let bytes = answer(number, -2, b"");
    connection.daemon_reply(&bytes, None, caller()).unwrap();
    let reply = connection.take_reply(number).unwrap();
    assert_eq!(reply_data(reply), Err(Error::NotFound));
}

#[test]
fn error_numbers_have_names() {
    assert_eq!(of_errno(2), Error::NotFound);
    assert_eq!(of_errno(17), Error::AlreadyExists);
    assert_eq!(of_errno(71), Error::Errno(71));
    // Numbers that no error has are input/output errors.
    assert_eq!(of_errno(41), of_errno(5));
    assert_eq!(of_errno(134), of_errno(5));
    assert_eq!(of_errno(5), Error::Io);
    for number in 1..=133 {
        let known = axerrno::LinuxError::try_from(number).is_ok();
        assert_eq!(known, number == 5 || of_errno(number) != Error::Io, "{number}");
    }
    assert_eq!(reply_data(FuseReply::Cancelled), Err(Error::NoSuchDevice));
    assert_eq!(reply_data(FuseReply::Data(vec![1])), Ok(vec![1]));
}

#[test]
fn an_interrupt_takes_an_unsent_request_back() {
    let mut connection = connected();
    let number = connection.submit(FUSE_GETATTR, 1, &[], caller(), None).unwrap();
    connection.interrupt(number).unwrap();
    assert_eq!(connection.next_packet(ROOM, caller()).err(), Some(Error::WouldBlock));
    assert_eq!(connection.take_reply(number).err(), Some(Error::NoSuchDevice));
}

#[test]
fn an_interrupt_of_a_sent_request_is_told_to_the_daemon_once() {
    let mut connection = connected();
    let number = connection.submit(FUSE_GETATTR, 1, &[], caller(), None).unwrap();
    read(&mut connection);
    assert!(connection.interrupt_request(number, false));
    connection.push_interrupt(number);
    let packet = read(&mut connection);
    assert_eq!(opcode(&packet), FUSE_INTERRUPT);
    assert_eq!(unique(&packet), number | (1 << 63));
    assert_eq!(&packet[40..48], &number.to_le_bytes());
    assert_eq!(connection.next_packet(ROOM, caller()).err(), Some(Error::WouldBlock));
    // A daemon that asks for it gets it again; one that has no interrupts gets no more.
    connection
        .daemon_reply(&answer(number | (1 << 63), -11, b""), None, caller())
        .unwrap();
    assert_eq!(opcode(&read(&mut connection)), FUSE_INTERRUPT);
    connection
        .daemon_reply(&answer(number | (1 << 63), -38, b""), None, caller())
        .unwrap();
    assert!(connection.no_interrupt);
    assert!(!connection.interrupt_request(number, true));
    // The reply is taken though nobody waits for it any more.
    connection.daemon_reply(&answer(number, 0, b""), None, caller()).unwrap();
    assert_eq!(connection.take_reply(number).err(), Some(Error::NoSuchDevice));
}

#[test]
fn a_cut_connection_answers_everyone() {
    let mut connection = connected();
    let waiting = connection.submit(FUSE_GETATTR, 1, &[], caller(), None).unwrap();
    let sent = connection.submit(FUSE_GETATTR, 2, &[], caller(), None).unwrap();
    read(&mut connection);
    connection.abort();
    assert!(connection.is_dead());
    for number in [waiting, sent] {
        assert!(matches!(connection.take_reply(number), Ok(FuseReply::Cancelled)));
    }
    assert_eq!(
        connection.submit(FUSE_GETATTR, 1, &[], caller(), None),
        Err(Error::NoSuchDevice)
    );
    assert_eq!(connection.next_packet(ROOM, caller()).err(), Some(Error::NoSuchDevice));
    assert_eq!(
        connection.daemon_reply(&answer(sent, 0, b""), None, caller()),
        Err(Error::NoSuchDevice)
    );
    let ready = connection.poll();
    assert!(ready.hangup && ready.error);
}

#[test]
fn requests_are_bounded() {
    let mut connection = connected();
    for _ in 0..MAX_PENDING_REQUESTS {
        connection.submit(FUSE_GETATTR, 1, &[], caller(), None).unwrap();
    }
    assert!(!connection.nowait_request_admit());
    assert!(connection.submit(FUSE_GETATTR, 1, &[], caller(), None).is_err());
    read(&mut connection);
    let long = vec![0; MAX_REQUEST_BYTES];
    assert_eq!(
        Connection::new().submit(FUSE_GETATTR, 1, &long, caller(), None),
        Err(Error::InvalidInput)
    );
}

#[test]
fn a_read_with_too_little_room_takes_nothing() {
    let mut connection = connected();
    let number = connection.submit(FUSE_GETATTR, 1, &[1, 2, 3], caller(), None).unwrap();
    assert_eq!(connection.next_packet(42, caller()).err(), Some(Error::InvalidInput));
    assert_eq!(unique(&read(&mut connection)), number);
}

#[test]
fn forgets_are_sent_in_batches() {
    let mut connection = connected();
    connection.queue_forget(5, caller());
    connection.queue_forget(6, caller());
    let packet = read(&mut connection);
    assert_eq!(opcode(&packet), FUSE_BATCH_FORGET);
    assert_eq!(&packet[40..44], &2u32.to_le_bytes());
    assert_eq!(&packet[48..56], &5u64.to_le_bytes());
    assert_eq!(&packet[64..72], &6u64.to_le_bytes());
    assert_eq!(connection.next_packet(ROOM, caller()).err(), Some(Error::WouldBlock));
    for node in 0..MAX_FORGET_NODES as u64 + 1 {
        connection.queue_forget(node, caller());
    }
    // The one that does not fit goes alone.
    assert_eq!(connection.forget_nodes.len(), MAX_FORGET_NODES);
    assert_eq!(connection.requests.len(), 1);
}

#[test]
fn notices_are_queued_with_their_bytes() {
    let mut connection = connected();
    let mut entry = Vec::new();
    entry.extend_from_slice(&1u64.to_le_bytes());
    entry.extend_from_slice(&3u32.to_le_bytes());
    entry.extend_from_slice(&[0; 4]);
    entry.extend_from_slice(b"abc");
    let bytes = answer(0, FUSE_NOTIFY_INVAL_ENTRY as i32, &entry);
    connection.daemon_reply(&bytes, None, caller()).unwrap();
    assert_eq!(connection.notices.bytes, 19);
    assert!(matches!(
        &connection.notices.queue[0],
        FuseNotification::InvalidateEntry { parent: 1, name } if name == b"abc"
    ));
    // A name of another length than it says is refused.
    entry.push(b'd');
    assert_eq!(
        connection.parse_notification(FUSE_NOTIFY_INVAL_ENTRY, &entry, None, caller()),
        Err(Error::InvalidInput)
    );
    assert_eq!(
        connection.parse_notification(FUSE_NOTIFY_STORE, &[0; 24], None, caller()),
        Err(Error::NotFound)
    );
    assert_eq!(
        connection.parse_notification(99, &[], None, caller()),
        Err(Error::Unsupported)
    );
    assert!(connection.notices.take());
    connection.notices.requeue_front(false);
    assert!(connection.notices.take());
    connection.notices.complete();
    assert_eq!(connection.notices.bytes, 0);
    assert!(!connection.notices.take());
}

#[test]
fn a_poll_notice_asks_for_the_state_anew() {
    let mut connection = connected();
    let key = connection.register_poll();
    assert_eq!(connection.known_readiness(key), None);
    connection.finish_poll(key, &5u32.to_le_bytes()).unwrap();
    let known = connection.known_readiness(key).unwrap();
    assert!(known.readable && known.writable && !known.priority);
    connection
        .parse_notification(FUSE_NOTIFY_POLL, &key.to_le_bytes(), None, caller())
        .unwrap();
    assert_eq!(connection.known_readiness(key), None);
    connection.unregister_poll(key);
    assert_eq!(connection.finish_poll(key, &[0; 3]).err(), Some(Error::Io));
}

#[test]
fn readiness_bits_are_those_of_the_system() {
    assert_eq!(POLLIN, linux_raw_sys::general::POLLIN);
    assert_eq!(POLLPRI, linux_raw_sys::general::POLLPRI);
    assert_eq!(POLLOUT, linux_raw_sys::general::POLLOUT);
    assert_eq!(POLLERR, linux_raw_sys::general::POLLERR);
    assert_eq!(POLLHUP, linux_raw_sys::general::POLLHUP);
    assert_eq!(POLLNVAL, linux_raw_sys::general::POLLNVAL);
    assert_eq!(POLLRDNORM, linux_raw_sys::general::POLLRDNORM);
    assert_eq!(POLLRDBAND, linux_raw_sys::general::POLLRDBAND);
    assert_eq!(POLLWRNORM, linux_raw_sys::general::POLLWRNORM);
    assert_eq!(POLLWRBAND, linux_raw_sys::general::POLLWRBAND);
    assert_eq!(POLLMSG, linux_raw_sys::general::POLLMSG);
    assert_eq!(POLLRDHUP, linux_raw_sys::general::POLLRDHUP);
    assert_eq!(POLLIN as u16, axpoll::IoEvents::IN.bits() as u16);
    let events = read_events(POLLPRI | POLLRDHUP);
    assert!(events.priority && events.read_hangup && !events.readable);
}

#[test]
fn the_last_mount_sends_the_last_packet() {
    let mut table = MountTable::new();
    let mut connection = connected();
    table.register_mount_connection(1, 100, connection.accepts_mount_registration()).unwrap();
    table.register_mount_connection(2, 100, connection.accepts_mount_registration()).unwrap();
    // One of two mounts goes: the connection stays.
    let prepared = table.prepare_mount_teardown(vec![1]).unwrap();
    assert_eq!(prepared.connections, []);
    assert_eq!(table.prepare_mount_teardown(vec![1]).err(), Some(Error::ResourceBusy));
    table.commit(&prepared);
    assert_eq!(table.mount_connection(1), None);
    assert_eq!(table.mount_connection(2), Some(100));

    let prepared = table.prepare_mount_teardown(vec![2]).unwrap();
    assert_eq!(prepared.connections, [100]);
    let (participant, ticket) = table.take_part();
    assert_eq!(connection.prepare_destroy(participant, ticket, caller()), Some(participant));
    assert!(!connection.accepts_mount_registration());
    table.commit(&prepared);
    connection.commit_destroy(participant);
    connection.activate_destroy_if_resolved(table.has_mount(100));
    assert!(connection.destroy_queued());
    assert_eq!(
        connection.submit(FUSE_GETATTR, 1, &[], caller(), None),
        Err(Error::NoSuchDevice)
    );
    let packet = read(&mut connection);
    assert_eq!(opcode(&packet), FUSE_DESTROY);
    assert_eq!(&packet[16..24], &FUSE_ROOT_ID.to_le_bytes());
    assert!(connection.is_dead());
}

#[test]
fn a_cancelled_removal_leaves_the_mounts() {
    let mut table = MountTable::new();
    let mut connection = connected();
    table.register_mount_connection(1, 100, true).unwrap();
    assert_eq!(
        table.register_mount_connection(2, 100, false),
        Err(Error::NoSuchDevice)
    );
    let prepared = table.prepare_mount_teardown(vec![1]).unwrap();
    let (participant, ticket) = table.take_part();
    connection.prepare_destroy(participant, ticket, caller());
    table.cancel(&prepared);
    connection.cancel_destroy(participant);
    assert!(connection.accepts_mount_registration());
    assert_eq!(table.mount_connection(1), Some(100));
    assert!(table.prepare_mount_teardown(vec![1]).is_ok());
    table.unregister_mount_connection(1);
    assert!(!table.has_mount(100));
}

#[test]
fn a_lazy_removal_ends_the_connection_with_the_last_user() {
    let mut connection = connected();
    connection.prepare_destroy(1, 1, caller());
    connection.defer_destroy(1);
    connection.activate_destroy_if_resolved(false);
    assert!(!connection.destroy_queued());
    assert!(connection.activate_lazy_destroy_on_final_unmount(false));
    assert!(connection.destroy_queued());
}

#[test]
fn connections_are_listed_by_their_mounts() {
    let mut table = MountTable::new();
    table.register_mount_connection(17, 100, true).unwrap();
    table.register_mount_connection(4, 100, true).unwrap();
    let mut names = table.child_names();
    names.sort();
    assert_eq!(names, [b"17".to_vec(), b"4".to_vec()]);
    assert_eq!(table.lookup_child(b"17"), Ok(100));
    assert_eq!(table.lookup_child(b"18"), Err(Error::NotFound));
    assert_eq!(table.lookup_child(b"x"), Err(Error::NotFound));
    assert_eq!(parse_mount_name(b"18446744073709551615"), Some(u64::MAX));
    assert_eq!(parse_mount_name(b"18446744073709551616"), None);
    assert_eq!(FUSECTL_MAGIC, 0x6573_5543);
    table.forget_connection(100);
    assert!(table.child_names().is_empty());
}

#[test]
fn control_files_show_and_set_the_limits() {
    let mut connection = connected();
    assert_eq!(lookup_control_file(b"max_background"), Ok(ControlFile::MaxBackground));
    assert_eq!(lookup_control_file(b"nothing"), Err(Error::NotFound));
    assert_eq!(ControlFile::at(0), Some(ControlFile::Abort));
    assert_eq!(ControlFile::at(8), None);
    assert!(!ControlFile::Waiting.is_writable());
    assert_eq!(connection.read_control(ControlFile::MaxBackground), b"12\n");
    assert_eq!(connection.read_control(ControlFile::CongestionThreshold), b"9\n");
    connection.write_control(ControlFile::MaxBackground, b"5\n").unwrap();
    assert_eq!(connection.read_control(ControlFile::MaxBackground), b"5\n");
    // The threshold stays within the limit.
    assert_eq!(connection.read_control(ControlFile::CongestionThreshold), b"5\n");
    assert_eq!(
        connection.write_control(ControlFile::CongestionThreshold, b"6"),
        Err(Error::InvalidInput)
    );
    assert_eq!(
        connection.write_control(ControlFile::MaxBackground, b"many"),
        Err(Error::InvalidInput)
    );
    connection.submit(FUSE_GETATTR, 1, &[], caller(), None).unwrap();
    assert_eq!(connection.read_control(ControlFile::Waiting), b"1\n");
    assert_eq!(connection.read_control(ControlFile::Queued), b"1\n");
    assert_eq!(connection.read_control(ControlFile::Active), b"0\n");
    connection.write_control(ControlFile::Abort, b"anything").unwrap();
    assert_eq!(connection.read_control(ControlFile::Connected), b"0\n");
}

#[test]
fn numbers_of_the_protocol() {
    assert_eq!(FUSE_INIT, 26);
    assert_eq!(FUSE_KERNEL_MINOR, 45);
}
