//! What a daemon writes: replies to requests, and notices.

use vstd::prelude::*;
use crate::bytes::{get_u32, get_u64, le32, le64, push_bytes, push_u32, push_u64, to_vec, u32_at,
    u64_at};
use crate::error::Error;
use crate::fuse::cache::{Cache, CacheView};
use crate::fuse::connection::{answers_kept, taken, Connection, ConnectionView};
use crate::fuse::errno::{EAGAIN, ENOSYS};
use crate::fuse::notice::{cost, FuseNotification, NoticesView, NotificationView};
use crate::fuse::poll::{invalidate, linked};
use crate::fuse::ranges::{contents, resident};
use crate::fuse::request::{find_numbered, first, first_holds, first_is, fresh, in_custody, numbered,
    FuseReply, ReplyView, Request, RequestState, RequestView};
use crate::fuse::wire::{build_request, cache_active, caches, out_header, packet, read_out_header,
    Caller, OutHeader, FUSE_INT_REQ_BIT, FUSE_NOTIFY_DELETE, FUSE_NOTIFY_INVAL_ENTRY,
    FUSE_NOTIFY_INVAL_INODE, FUSE_NOTIFY_POLL, FUSE_NOTIFY_REPLY, FUSE_NOTIFY_RETRIEVE,
    FUSE_NOTIFY_STORE, MAX_REQUEST_BYTES, OUT_HEADER_BYTES};

verus! {

/// What a daemon says of its own accord.
pub enum Notice {
    /// A file that is polled has changed.
    Poll(u64),
    /// What the kernel keeps has to change.
    Change(NotificationView),
    /// The daemon asks for what the kernel keeps.
    Retrieve { unique: u64, nodeid: u64, offset: u64, size: u32 },
}

/// Whether the end of a notice is a name of the length that it gives.  Unlike the names
/// of requests, it is counted and has no zero byte at its end.
pub open spec fn is_name(name: Seq<u8>, len: u32) -> bool {
    name.len() == len && name.len() > 0 && !name.contains(0u8)
}

/// What a notice says.
pub open spec fn read_notice(v: ConnectionView, opcode: u32, payload: Seq<u8>) -> Result<
    Notice,
    Error,
> {
    if opcode == FUSE_NOTIFY_POLL && payload.len() == 8 {
        Ok(Notice::Poll(u64_at(payload, 0)))
    } else if opcode == FUSE_NOTIFY_INVAL_INODE && payload.len() == 24 {
        Ok(
            Notice::Change(
                NotificationView::InvalidateInode {
                    nodeid: u64_at(payload, 0),
                    offset: u64_at(payload, 8) as i64,
                    length: u64_at(payload, 16) as i64,
                },
            ),
        )
    } else if opcode == FUSE_NOTIFY_INVAL_ENTRY && payload.len() >= 16 {
        if is_name(payload.skip(16), u32_at(payload, 8)) {
            Ok(
                Notice::Change(
                    NotificationView::InvalidateEntry {
                        parent: u64_at(payload, 0),
                        name: payload.skip(16),
                    },
                ),
            )
        } else {
            Err(Error::InvalidInput)
        }
    } else if opcode == FUSE_NOTIFY_DELETE && payload.len() >= 24 {
        if is_name(payload.skip(24), u32_at(payload, 16)) {
            Ok(
                Notice::Change(
                    NotificationView::Delete {
                        parent: u64_at(payload, 0),
                        child: u64_at(payload, 8),
                        name: payload.skip(24),
                    },
                ),
            )
        } else {
            Err(Error::InvalidInput)
        }
    } else if opcode == FUSE_NOTIFY_STORE && payload.len() >= 24 {
        if !v.known_nodes.contains_key(u64_at(payload, 0)) {
            Err(Error::NotFound)
        } else if payload.skip(24).len() != u32_at(payload, 16) {
            Err(Error::InvalidInput)
        } else {
            Ok(
                Notice::Change(
                    NotificationView::Store {
                        nodeid: u64_at(payload, 0),
                        offset: u64_at(payload, 8),
                        data: payload.skip(24),
                    },
                ),
            )
        }
    } else if opcode == FUSE_NOTIFY_RETRIEVE && payload.len() == 32 {
        let nodeid = u64_at(payload, 8);
        let offset = u64_at(payload, 16);
        let size = u32_at(payload, 24);
        if size > MAX_REQUEST_BYTES {
            Err(Error::InvalidInput)
        } else if !caches(v.init) {
            Err(Error::Unsupported)
        } else if offset + size > u64::MAX {
            Err(Error::InvalidInput)
        } else if !v.known_nodes.contains_key(nodeid) {
            Err(Error::NotFound)
        } else {
            Ok(Notice::Retrieve { unique: u64_at(payload, 0), nodeid, offset, size })
        }
    } else {
        Err(Error::Unsupported)
    }
}

/// What is sent to a daemon that asks for what the kernel keeps: all of it, or nothing.
pub open spec fn retrieved(cache: Option<CacheView>, nodeid: u64, offset: u64, size: nat) -> Seq<
    u8,
> {
    match cache {
        Some(c) => if c.inodes.contains_key(nodeid) && resident(
            c.ranges(nodeid),
            offset as int,
            size as int,
        ) {
            contents(c.ranges(nodeid), offset as int, size)
        } else {
            Seq::empty()
        },
        None => Seq::empty(),
    }
}

/// The body of an answer to a daemon that asks for what the kernel keeps.
pub open spec fn retrieve_body(offset: u64, data: Seq<u8>) -> Seq<u8> {
    le64(0) + le64(offset) + le32(data.len() as u32) + le32(0) + le64(0) + le64(0) + data
}

/// The result of an answer to a daemon, and the connection after it.  It goes under the
/// number that the daemon gave, so that the daemon knows what it answers.
pub open spec fn answer_queued(
    v: ConnectionView,
    unique: u64,
    nodeid: u64,
    offset: u64,
    data: Seq<u8>,
    caller: Caller,
) -> (Result<(), Error>, ConnectionView) {
    if data.len() + 80 > MAX_REQUEST_BYTES {
        (Err(Error::InvalidInput), v)
    } else if v.refusal() is Some {
        (Err(v.refusal()->0), v)
    } else {
        (
            Ok(()),
            v.with_request(
                fresh(
                    unique,
                    FUSE_NOTIFY_REPLY,
                    packet(
                        unique,
                        FUSE_NOTIFY_REPLY,
                        nodeid,
                        retrieve_body(offset, data),
                        caller,
                    ),
                    false,
                    None,
                ),
            ),
        )
    }
}

/// The result of a notice, and the connection after it.
pub open spec fn notified(
    v: ConnectionView,
    opcode: u32,
    payload: Seq<u8>,
    cache: Option<CacheView>,
    caller: Caller,
) -> (Result<(), Error>, ConnectionView) {
    match read_notice(v, opcode, payload) {
        Err(error) => (Err(error), v),
        Ok(Notice::Poll(key)) => (Ok(()), ConnectionView { polls: linked(v.polls, key), ..v }),
        Ok(Notice::Retrieve { unique, nodeid, offset, size }) => answer_queued(
            v,
            unique,
            nodeid,
            offset,
            retrieved(cache, nodeid, offset, size as nat),
            caller,
        ),
        Ok(Notice::Change(notice)) => if v.dead {
            (Err(Error::NoSuchDevice), v)
        } else if !v.notices.has_room(payload.len()) {
            (Err(Error::WouldBlock), v)
        } else {
            (
                Ok(()),
                ConnectionView {
                    notices: NoticesView {
                        queue: v.notices.queue.push(notice),
                        bytes: (v.notices.bytes + payload.len()) as usize,
                        ..v.notices
                    },
                    ..v
                },
            )
        },
    }
}

/// A notice that is refused changes nothing.
pub proof fn law_a_refused_notice_changes_nothing(
    v: ConnectionView,
    opcode: u32,
    payload: Seq<u8>,
    cache: Option<CacheView>,
    caller: Caller,
)
    ensures
        notified(v, opcode, payload, cache, caller).0 is Err ==> notified(
            v,
            opcode,
            payload,
            cache,
            caller,
        ).1 == v,
{
}

/// A notice that is taken is charged with exactly the bytes that it came in.
pub proof fn law_a_notice_is_charged_with_its_bytes(
    v: ConnectionView,
    opcode: u32,
    payload: Seq<u8>,
)
    ensures
        match read_notice(v, opcode, payload) {
            Ok(Notice::Change(notice)) => cost(notice) == payload.len(),
            _ => true,
        },
{
}

/// Whether the answer to a request, or to its interrupt, has a form that is allowed: an
/// error number that is not reserved, and no data with an error.
pub open spec fn well_formed(header: OutHeader, payload: nat) -> bool {
    -512 < header.error <= 0 && (header.error == 0 || payload == 0)
}

/// The request that an answer is to.
pub open spec fn answered_unique(unique: u64) -> u64 {
    unique & 0x7fff_ffff_ffff_ffff
}

/// The result of an answer to an interrupt, and the connection after it.
pub open spec fn interrupt_answered(v: ConnectionView, header: OutHeader, payload: nat) -> (
    Result<(), Error>,
    ConnectionView,
) {
    let target = answered_unique(header.unique);
    let at = first(v.requests, numbered(target));
    if at >= v.requests.len() || !in_custody(v.requests[at]) {
        (Err(Error::NotFound), v)
    } else if payload != 0 {
        (Err(Error::InvalidInput), v)
    } else if -header.error == ENOSYS {
        (Ok(()), ConnectionView { no_interrupt: true, ..v })
    } else if -header.error == EAGAIN && !v.no_interrupt {
        (Ok(()), v.with_interrupt(target))
    } else {
        (Ok(()), v)
    }
}

/// The reply that an answer stands for.
pub open spec fn reply_of(header: OutHeader, payload: Seq<u8>) -> ReplyView {
    if header.error == 0 {
        ReplyView::Data(payload)
    } else {
        ReplyView::Error((-header.error) as i32)
    }
}

/// The result of an answer to a request, and the connection after it.
pub open spec fn request_answered(v: ConnectionView, header: OutHeader, payload: Seq<u8>) -> (
    Result<(), Error>,
    ConnectionView,
) {
    let at = first(v.requests, numbered(answered_unique(header.unique)));
    if at >= v.requests.len() || !in_custody(v.requests[at]) {
        (Err(Error::NotFound), v)
    } else if v.requests[at].waiter_interrupted {
        (Ok(()), ConnectionView { requests: v.requests.remove(at), ..v })
    } else {
        (
            Ok(()),
            ConnectionView {
                requests: v.requests.update(
                    at,
                    RequestView {
                        reply: Some(reply_of(header, payload)),
                        state: RequestState::Replied,
                        ..v.requests[at]
                    },
                ),
                ..v
            },
        )
    }
}

/// The result of what a daemon wrote, and the connection after it.
pub open spec fn written(
    v: ConnectionView,
    bytes: Seq<u8>,
    cache: Option<CacheView>,
    caller: Caller,
) -> (Result<(), Error>, ConnectionView) {
    let header = out_header(bytes);
    let payload = bytes.skip(16);
    if bytes.len() < 16 || header.len > MAX_REQUEST_BYTES || header.len != bytes.len() {
        (Err(Error::InvalidInput), v)
    } else if header.unique == 0 {
        if header.error <= 0 {
            (Err(Error::InvalidInput), v)
        } else {
            notified(v, header.error as u32, payload, cache, caller)
        }
    } else if !well_formed(header, payload.len()) {
        (Err(Error::InvalidInput), v)
    } else if v.dead {
        (Err(Error::NoSuchDevice), v)
    } else if header.unique & FUSE_INT_REQ_BIT != 0 {
        interrupt_answered(v, header, payload.len())
    } else {
        request_answered(v, header, payload)
    }
}

/// A reply goes to the task that waits for it: what the daemon wrote under the number
/// of a request that it has is what the next question for that reply gives.
pub proof fn law_a_reply_reaches_its_waiter(v: ConnectionView, header: OutHeader, payload: Seq<u8>)
    requires
        request_answered(v, header, payload).0 is Ok,
        !v.requests[first(v.requests, numbered(answered_unique(header.unique)))].waiter_interrupted,
    ensures
        taken(
            request_answered(v, header, payload).1,
            answered_unique(header.unique),
        ).0 == Ok::<ReplyView, Error>(reply_of(header, payload)),
{
    let unique = answered_unique(header.unique);
    let p = numbered(unique);
    let at = first(v.requests, p);
    first_holds(v.requests, p);
    let after = request_answered(v, header, payload).1.requests;
    assert forall|j: int| 0 <= j < at implies !p(#[trigger] after[j]) by {
        assert(after[j] == v.requests[j]);
    }
    assert(p(after[at]));
    first_is(after, p, at);
}

fn has_zero(bytes: &[u8]) -> (found: bool)
    ensures
        found == bytes@.contains(0u8),
{
    let mut i: usize = 0;
    while i < bytes.len()
        invariant
            i <= bytes@.len(),
            forall|j: int| 0 <= j < i ==> bytes@[j] != 0,
        decreases bytes@.len() - i,
    {
        if bytes[i] == 0 {
            assert(bytes@[i as int] == 0u8);
            return true;
        }
        i = i + 1;
    }
    false
}

/// The end of a notice, if it is a name of the length that the notice gives.
fn notice_name(payload: &[u8], from: usize, len: u32) -> (name: Option<Vec<u8>>)
    requires
        from <= payload@.len(),
    ensures
        match name {
            Some(name) => name@ == payload@.skip(from as int) && is_name(name@, len),
            None => !is_name(payload@.skip(from as int), len),
        },
{
    let size: usize = payload.len();
    let name = &payload[from..size];
    assert(name@ =~= payload@.skip(from as int));
    if name.len() == len as usize && name.len() > 0 && !has_zero(name) {
        Some(to_vec(name))
    } else {
        None
    }
}

impl Connection {
    /// Answer a daemon that asks for what the kernel keeps.
    fn queue_notify_reply(
        &mut self,
        unique: u64,
        nodeid: u64,
        offset: u64,
        data: &[u8],
        caller: Caller,
    ) -> (result: Result<(), Error>)
        requires
            old(self).wf(),
            data@.len() <= MAX_REQUEST_BYTES,
        ensures
            final(self).wf(),
            (result, final(self)@) == answer_queued(
                old(self)@,
                unique,
                nodeid,
                offset,
                data@,
                caller,
            ),
    {
        let mut body: Vec<u8> = Vec::new();
        push_u64(&mut body, 0);
        push_u64(&mut body, offset);
        push_u32(&mut body, data.len() as u32);
        push_u32(&mut body, 0);
        push_u64(&mut body, 0);
        push_u64(&mut body, 0);
        push_bytes(&mut body, data);
        assert(body@ =~= retrieve_body(offset, data@));
        let bytes: Vec<u8> = build_request(
            unique,
            FUSE_NOTIFY_REPLY,
            nodeid,
            body.as_slice(),
            caller,
        )?;
        self.enqueue(Request::queued(unique, FUSE_NOTIFY_REPLY, bytes, false, None))
    }

    /// Take a notice.
    ///
    /// Notices are a protocol, and not input of a user: one that the connection did not
    /// agree to is answered as a function that is not there.
    pub fn parse_notification(
        &mut self,
        opcode: u32,
        payload: &[u8],
        cache: Option<&Cache>,
        caller: Caller,
    ) -> (result: Result<(), Error>)
        requires
            old(self).wf(),
            cache is Some ==> cache->0@.wf(),
        ensures
            final(self).wf(),
            (result, final(self)@) == notified(
                old(self)@,
                opcode,
                payload@,
                match cache {
                    Some(cache) => Some(cache@),
                    None => None,
                },
                caller,
            ),
    {
        let ghost v = self@;
        let size: usize = payload.len();
        if opcode == FUSE_NOTIFY_POLL && size == 8 {
            invalidate(&mut self.polls, get_u64(payload, 0));
            return Ok(());
        }
        let notice: FuseNotification = if opcode == FUSE_NOTIFY_INVAL_INODE && size == 24 {
            FuseNotification::InvalidateInode {
                nodeid: get_u64(payload, 0),
                offset: #[verifier::truncate]
                (get_u64(payload, 8) as i64),
                length: #[verifier::truncate]
                (get_u64(payload, 16) as i64),
            }
        } else if opcode == FUSE_NOTIFY_INVAL_ENTRY && size >= 16 {
            let parent: u64 = get_u64(payload, 0);
            match notice_name(payload, 16, get_u32(payload, 8)) {
                Some(name) => FuseNotification::InvalidateEntry { parent, name },
                None => {
                    return Err(Error::InvalidInput);
                },
            }
        } else if opcode == FUSE_NOTIFY_DELETE && size >= 24 {
            let parent: u64 = get_u64(payload, 0);
            let child: u64 = get_u64(payload, 8);
            match notice_name(payload, 24, get_u32(payload, 16)) {
                Some(name) => FuseNotification::Delete { parent, child, name },
                None => {
                    return Err(Error::InvalidInput);
                },
            }
        } else if opcode == FUSE_NOTIFY_STORE && size >= 24 {
            let nodeid: u64 = get_u64(payload, 0);
            let offset: u64 = get_u64(payload, 8);
            let len: u32 = get_u32(payload, 16);
            if self.known_nodes.get(&nodeid).is_none() {
                return Err(Error::NotFound);
            }
            if size - 24 != len as usize {
                return Err(Error::InvalidInput);
            }
            let data: Vec<u8> = to_vec(&payload[24..size]);
            assert(data@ =~= payload@.skip(24));
            FuseNotification::Store { nodeid, offset, data }
        } else if opcode == FUSE_NOTIFY_RETRIEVE && size == 32 {
            let unique: u64 = get_u64(payload, 0);
            let nodeid: u64 = get_u64(payload, 8);
            let offset: u64 = get_u64(payload, 16);
            let wanted: u32 = get_u32(payload, 24);
            if wanted as usize > MAX_REQUEST_BYTES {
                return Err(Error::InvalidInput);
            }
            if !cache_active(self.init) {
                return Err(Error::Unsupported);
            }
            if wanted as u64 > u64::MAX - offset {
                return Err(Error::InvalidInput);
            }
            if self.known_nodes.get(&nodeid).is_none() {
                return Err(Error::NotFound);
            }
            let data: Vec<u8> = match cache {
                Some(cache) => match cache.cached_read(true, nodeid, offset, wanted as usize) {
                    Some(Ok(data)) => data,
                    _ => Vec::new(),
                },
                None => Vec::new(),
            };
            assert(data@ =~= retrieved(
                match cache {
                    Some(cache) => Some(cache@),
                    None => None,
                },
                nodeid,
                offset,
                wanted as nat,
            ));
            return self.queue_notify_reply(unique, nodeid, offset, data.as_slice(), caller);
        } else {
            return Err(Error::Unsupported);
        };
        proof {
            law_a_notice_is_charged_with_its_bytes(v, opcode, payload@);
        }
        assert(read_notice(v, opcode, payload@) == Ok::<Notice, Error>(Notice::Change(notice@)));
        if self.dead {
            return Err(Error::NoSuchDevice);
        }
        if !self.notices.has_room(size) {
            return Err(Error::WouldBlock);
        }
        self.notices.accept(notice, size);
        Ok(())
    }

    /// Take what a daemon writes.  The result is the number of bytes taken.
    pub fn daemon_reply(&mut self, bytes: &[u8], cache: Option<&Cache>, caller: Caller) -> (result:
        Result<usize, Error>)
        requires
            old(self).wf(),
            cache is Some ==> cache->0@.wf(),
        ensures
            final(self).wf(),
            ({
                let (want, after) = written(
                    old(self)@,
                    bytes@,
                    match cache {
                        Some(cache) => Some(cache@),
                        None => None,
                    },
                    caller,
                );
                &&& final(self)@ == after
                &&& result == (match want {
                    Ok(()) => Ok::<usize, Error>(bytes@.len() as usize),
                    Err(error) => Err(error),
                })
            }),
    {
        let size: usize = bytes.len();
        if size < OUT_HEADER_BYTES {
            return Err(Error::InvalidInput);
        }
        let header = read_out_header(bytes);
        if header.len as usize > MAX_REQUEST_BYTES || header.len as usize != size {
            return Err(Error::InvalidInput);
        }
        let payload = &bytes[OUT_HEADER_BYTES..size];
        assert(payload@ =~= bytes@.skip(16));
        if header.unique == 0 {
            if header.error <= 0 {
                return Err(Error::InvalidInput);
            }
            self.parse_notification(header.error as u32, payload, cache, caller)?;
            return Ok(size);
        }
        if header.error <= -512 || header.error > 0 || (header.error != 0 && payload.len() != 0) {
            return Err(Error::InvalidInput);
        }
        if self.dead {
            return Err(Error::NoSuchDevice);
        }
        if header.unique & FUSE_INT_REQ_BIT != 0 {
            self.finish_interrupt(header, payload.len())?;
        } else {
            self.finish_request(header, payload)?;
        }
        Ok(size)
    }

    /// Take the answer to an interrupt.  It has no data.  A daemon that has no such
    /// function is not asked again, one that asks for patience is told again, and any
    /// other answer only ends this attempt: the request itself still gets its reply.
    fn finish_interrupt(&mut self, header: OutHeader, payload: usize) -> (result: Result<(), Error>)
        requires
            old(self).wf(),
            -512 < header.error <= 0,
        ensures
            final(self).wf(),
            (result, final(self)@) == interrupt_answered(old(self)@, header, payload as nat),
    {
        let errno: i32 = -header.error;
        let target: u64 = header.unique & 0x7fff_ffff_ffff_ffff;
        let at: usize = find_numbered(&self.requests, target);
        if at >= self.requests.len() {
            return Err(Error::NotFound);
        }
        assert(self@.requests[at as int] == self.requests@[at as int]@);
        if self.requests[at].state != RequestState::Delivered || self.requests[at].reply.is_some() {
            return Err(Error::NotFound);
        }
        if payload != 0 {
            return Err(Error::InvalidInput);
        }
        if errno == ENOSYS {
            self.no_interrupt = true;
        } else if errno == EAGAIN && !self.no_interrupt {
            self.push_interrupt(target);
        }
        Ok(())
    }

    /// Take the answer to a request.
    fn finish_request(&mut self, header: OutHeader, payload: &[u8]) -> (result: Result<(), Error>)
        requires
            old(self).wf(),
            -512 < header.error <= 0,
        ensures
            final(self).wf(),
            (result, final(self)@) == request_answered(old(self)@, header, payload@),
    {
        let ghost v = self@;
        let target: u64 = header.unique & 0x7fff_ffff_ffff_ffff;
        let at: usize = find_numbered(&self.requests, target);
        if at >= self.requests.len() {
            return Err(Error::NotFound);
        }
        assert(self@.requests[at as int] == self.requests@[at as int]@);
        if self.requests[at].state != RequestState::Delivered || self.requests[at].reply.is_some() {
            return Err(Error::NotFound);
        }
        if self.requests[at].waiter_interrupted {
            self.remove_request(at);
        } else {
            let reply: FuseReply = if header.error == 0 {
                FuseReply::Data(to_vec(payload))
            } else {
                FuseReply::Error(-header.error)
            };
            assert(reply@ == reply_of(header, payload@));
            self.requests[at].reply = Some(reply);
            self.requests[at].state = RequestState::Replied;
            assert(self@.requests =~= request_answered(v, header, payload@).1.requests);
            assert(answers_kept(self@.requests)) by {
                assert forall|i: int| 0 <= i < self@.requests.len() && (
                #[trigger] self@.requests[i]).state == RequestState::Replied implies self@.requests[i].reply is Some by {
                    if i != at {
                        assert(self@.requests[i] == v.requests[i]);
                    }
                }
            }
        }
        Ok(())
    }
}

} // verus!
