//! Handles that a daemon gives, and what happens when one cannot be given back.
//!
//! Before the daemon sees that something is opened, the last packet of the connection is
//! made and a slot is set aside for it.  A handle that is lost is so never left behind:
//! where it cannot be given back, the connection ends.

use vstd::prelude::*;
use crate::bytes::{get_u32, get_u64, u32_at, u64_at};
use crate::error::Error;
use crate::fuse::bodies::{open_body, open_request};
use crate::fuse::connection::{activated, given_back, number_of, submitted, Connection,
    ConnectionView};
use crate::fuse::errno::{error_of, of_errno};
use crate::fuse::request::{fresh, FuseReply, ReplyView, Request, RequestView};
use crate::fuse::teardown::packet_view;
use crate::fuse::wire::{packet, Caller, FUSE_DESTROY, FUSE_OPEN, FUSE_OPENDIR, FUSE_RELEASE,
    FUSE_RELEASEDIR, FUSE_ROOT_ID};

verus! {

/// A handle that the daemon gave.
pub struct OpenedHandle {
    pub fh: u64,
    pub open_flags: u32,
    pub directory: bool,
    /// The last packet of the connection, as long as the handle may need it.
    pub teardown: Option<Request>,
    /// Whether a slot is set aside for it.
    pub reservation: bool,
    /// Whether the handle has to be given back.
    pub armed: bool,
}

/// What is said of a handle.
#[verifier::ext_equal]
pub struct OpenedView {
    pub fh: u64,
    pub open_flags: u32,
    pub directory: bool,
    pub teardown: Option<RequestView>,
    pub reservation: bool,
    pub armed: bool,
}

/// What became of an open.
pub enum OpenStep {
    Opened(OpenedHandle),
    Failed(Error),
    /// The daemon's reply is not one, but names a handle: it is to be given back, and
    /// [`Connection::malformed_open_released`] is to be told.
    Release(u64, Request),
}

/// What is said of what became of an open.
pub enum OpenStepView {
    Opened(OpenedView),
    Failed(Error),
    Release(u64, RequestView),
}

impl View for OpenedHandle {
    type V = OpenedView;

    open spec fn view(&self) -> OpenedView {
        OpenedView {
            fh: self.fh,
            open_flags: self.open_flags,
            directory: self.directory,
            teardown: packet_view(self.teardown),
            reservation: self.reservation,
            armed: self.armed,
        }
    }
}

impl View for OpenStep {
    type V = OpenStepView;

    open spec fn view(&self) -> OpenStepView {
        match self {
            OpenStep::Opened(handle) => OpenStepView::Opened(handle@),
            OpenStep::Failed(error) => OpenStepView::Failed(*error),
            OpenStep::Release(fh, request) => OpenStepView::Release(*fh, request@),
        }
    }
}

/// The number of the request that opens.
pub open spec fn open_opcode(directory: bool) -> u32 {
    if directory {
        FUSE_OPENDIR
    } else {
        FUSE_OPEN
    }
}

/// The number of the request that gives a handle back.
pub open spec fn release_number(directory: bool) -> u32 {
    if directory {
        FUSE_RELEASEDIR
    } else {
        FUSE_RELEASE
    }
}

/// The number of the request that gives a handle back.
pub fn release_opcode(directory: bool) -> (opcode: u32)
    ensures
        opcode == release_number(directory),
{
    if directory {
        FUSE_RELEASEDIR
    } else {
        FUSE_RELEASE
    }
}

/// The connection after a slot was set aside.
pub open spec fn reserved(v: ConnectionView) -> ConnectionView {
    ConnectionView {
        terminal_reservations: (v.terminal_reservations + 1) as usize,
        ..v.advanced()
    }
}

/// The last packet that is made before something is opened.
pub open spec fn last_packet(v: ConnectionView, caller: Caller) -> RequestView {
    let unique = number_of(v.next_unique);
    fresh(
        unique,
        FUSE_DESTROY,
        packet(unique, FUSE_DESTROY, FUSE_ROOT_ID, Seq::empty(), caller),
        false,
        None,
    )
}

/// The connection after a handle was given up: the slot is given back, or the connection
/// ends.
pub open spec fn given_up(v: ConnectionView, packet: RequestView, lost: bool) -> ConnectionView {
    if lost {
        activated(given_back(v), packet)
    } else {
        given_back(v)
    }
}

/// What becomes of an open that is answered, and the connection after it.
///
/// A reply that is not exactly one is a breach of the protocol.  One that is too short to
/// name a handle may stand for one that cannot be given back: the connection ends.
pub open spec fn opened(
    v: ConnectionView,
    directory: bool,
    packet: RequestView,
    reply: Result<ReplyView, Error>,
    delivered: bool,
) -> (OpenStepView, ConnectionView) {
    match reply {
        Ok(ReplyView::Data(data)) => if data.len() == 16 {
            (
                OpenStepView::Opened(
                    OpenedView {
                        fh: u64_at(data, 0),
                        open_flags: u32_at(data, 8),
                        directory,
                        teardown: Some(packet),
                        reservation: true,
                        armed: true,
                    },
                ),
                v,
            )
        } else if data.len() >= 8 {
            (OpenStepView::Release(u64_at(data, 0), packet), v)
        } else {
            (OpenStepView::Failed(Error::Io), given_up(v, packet, true))
        },
        Ok(ReplyView::Error(errno)) => (
            OpenStepView::Failed(error_of(errno)),
            given_up(v, packet, false),
        ),
        Ok(ReplyView::Cancelled) => (
            OpenStepView::Failed(Error::NoSuchDevice),
            given_up(v, packet, delivered),
        ),
        Err(error) => (OpenStepView::Failed(error), given_up(v, packet, delivered)),
    }
}

/// The connection after a handle was given back, or could not be.
pub open spec fn released(v: ConnectionView, h: OpenedView, failed: bool) -> ConnectionView {
    if !h.armed {
        v
    } else if !failed {
        if h.reservation {
            given_back(v)
        } else {
            v
        }
    } else {
        match h.teardown {
            Some(packet) => activated(
                if h.reservation {
                    given_back(v)
                } else {
                    v
                },
                packet,
            ),
            None => v,
        }
    }
}

/// A handle that is done with.
pub open spec fn spent(h: OpenedView) -> OpenedView {
    OpenedView { teardown: None, reservation: false, armed: false, ..h }
}

impl Connection {
    /// Make the last packet and set a slot aside, before something is opened, made or
    /// linked.
    pub fn reserve_teardown(&mut self, caller: Caller) -> (result: Result<Request, Error>)
        requires
            old(self).wf(),
        ensures
            final(self).wf(),
            match (old(self)@.refusal(), result) {
                (None, Ok(request)) => request@ == last_packet(old(self)@, caller) && final(self)@
                    == reserved(old(self)@),
                (Some(error), Err(got)) => got == error && final(self)@ == old(self)@.advanced(),
                _ => false,
            },
    {
        let body: Vec<u8> = Vec::new();
        assert(body@ =~= Seq::empty());
        self.prepare_create_teardown(FUSE_DESTROY, FUSE_ROOT_ID, body.as_slice(), caller)
    }

    /// Ask the daemon to open a node.  The result is the last packet, and the number of the
    /// request.
    pub fn begin_open(
        &mut self,
        nodeid: u64,
        flags: u32,
        directory: bool,
        caller: Caller,
        ticket: u64,
    ) -> (result: Result<(Request, u64), Error>)
        requires
            old(self).wf(),
        ensures
            final(self).wf(),
            match old(self)@.refusal() {
                Some(error) => result == Err::<(Request, u64), Error>(error) && final(self)@
                    == old(self)@.advanced(),
                None => {
                    let v = reserved(old(self)@);
                    match v.refusal() {
                        Some(error) => result == Err::<(Request, u64), Error>(error) && final(self)@
                            == given_back(v.advanced()),
                        None => result is Ok && result->Ok_0.0@ == last_packet(old(self)@, caller)
                            && result->Ok_0.1 == number_of(v.next_unique) && final(self)@
                            == submitted(
                            v,
                            open_opcode(directory),
                            nodeid,
                            open_body(flags),
                            caller,
                            Some(ticket),
                        ),
                    }
                },
            },
    {
        let teardown = self.reserve_teardown(caller)?;
        let body: Vec<u8> = open_request(flags);
        let opcode: u32 = if directory {
            FUSE_OPENDIR
        } else {
            FUSE_OPEN
        };
        match self.submit(opcode, nodeid, body.as_slice(), caller, Some(ticket)) {
            Ok(unique) => Ok((teardown, unique)),
            Err(error) => {
                self.discard_prepared_teardown();
                Err(error)
            },
        }
    }

    /// Give a handle up.
    pub fn give_up(&mut self, teardown: Request, lost: bool)
        requires
            old(self).wf(),
        ensures
            final(self).wf(),
            final(self)@ == given_up(old(self)@, teardown@, lost),
    {
        if lost {
            self.activate_prepared_destroy(teardown);
        } else {
            self.discard_prepared_teardown();
        }
    }

    /// Take the answer to an open.  `delivered` says whether the daemon had the whole
    /// request: only then an answer that never came may stand for a handle.
    pub fn finish_open(
        &mut self,
        directory: bool,
        teardown: Request,
        reply: Result<FuseReply, Error>,
        delivered: bool,
    ) -> (step: OpenStep)
        requires
            old(self).wf(),
        ensures
            final(self).wf(),
            (step@, final(self)@) == opened(
                old(self)@,
                directory,
                teardown@,
                match reply {
                    Ok(reply) => Ok(reply@),
                    Err(error) => Err(error),
                },
                delivered,
            ),
    {
        match reply {
            Ok(FuseReply::Data(data)) => {
                if data.len() == 16 {
                    OpenStep::Opened(
                        OpenedHandle {
                            fh: get_u64(data.as_slice(), 0),
                            open_flags: get_u32(data.as_slice(), 8),
                            directory,
                            teardown: Some(teardown),
                            reservation: true,
                            armed: true,
                        },
                    )
                } else if data.len() >= 8 {
                    OpenStep::Release(get_u64(data.as_slice(), 0), teardown)
                } else {
                    self.give_up(teardown, true);
                    OpenStep::Failed(Error::Io)
                }
            },
            Ok(FuseReply::Error(errno)) => {
                self.give_up(teardown, false);
                OpenStep::Failed(of_errno(errno))
            },
            Ok(FuseReply::Cancelled) => {
                self.give_up(teardown, delivered);
                OpenStep::Failed(Error::NoSuchDevice)
            },
            Err(error) => {
                self.give_up(teardown, delivered);
                OpenStep::Failed(error)
            },
        }
    }

    /// Say what came of giving back the handle that a malformed reply named.  The open has
    /// failed either way.
    pub fn malformed_open_released(&mut self, teardown: Request, failed: bool) -> (error: Error)
        requires
            old(self).wf(),
        ensures
            final(self).wf(),
            final(self)@ == given_up(old(self)@, teardown@, failed),
            error == Error::Io,
    {
        self.give_up(teardown, failed);
        Error::Io
    }

    /// Say what came of giving a handle back.
    pub fn handle_released(&mut self, handle: &mut OpenedHandle, failed: bool)
        requires
            old(self).wf(),
        ensures
            final(self).wf(),
            final(self)@ == released(old(self)@, old(handle)@, failed),
            final(handle)@ == (if old(handle)@.armed {
                spent(old(handle)@)
            } else {
                old(handle)@
            }),
    {
        if !handle.armed {
            return;
        }
        let reservation = handle.reservation;
        handle.armed = false;
        handle.reservation = false;
        match handle.teardown.take() {
            Some(packet) => {
                if !failed {
                    if reservation {
                        self.discard_prepared_teardown();
                    }
                } else if reservation {
                    self.activate_prepared_destroy(packet);
                } else {
                    self.activate_materialized_destroy(packet);
                }
            },
            None => {
                if !failed && reservation {
                    self.discard_prepared_teardown();
                }
            },
        }
    }

    /// Keep a handle that an open file now owns.  The slot is given back, so that open files
    /// take no room from requests; the packet stays with the handle.
    pub fn commit_handle(&mut self, handle: &mut OpenedHandle)
        requires
            old(self).wf(),
        ensures
            final(self).wf(),
            final(self)@ == (if old(handle)@.reservation {
                given_back(old(self)@)
            } else {
                old(self)@
            }),
            final(handle)@ == (OpenedView { reservation: false, ..old(handle)@ }),
    {
        if handle.reservation {
            self.discard_prepared_teardown();
            handle.reservation = false;
        }
    }
}

/// A daemon's handle is never lost: an open that the daemon may have done ends with the
/// handle, with its return, or with the end of the connection.
pub proof fn law_no_handle_is_lost(
    v: ConnectionView,
    directory: bool,
    packet: RequestView,
    reply: Result<ReplyView, Error>,
)
    requires
        !v.dead,
        v.teardown.packet is None,
    ensures
        match opened(v, directory, packet, reply, true).0 {
            OpenStepView::Failed(_) => reply is Ok && reply->Ok_0 is Error || opened(
                v,
                directory,
                packet,
                reply,
                true,
            ).1.teardown.packet == Some(packet),
            _ => true,
        },
{
}

/// A handle whose return fails ends the connection, whether or not its slot was given
/// back before.
pub proof fn law_a_failed_release_ends_the_connection(v: ConnectionView, h: OpenedView)
    requires
        !v.dead,
        v.teardown.packet is None,
        h.armed,
        h.teardown is Some,
    ensures
        released(v, h, true).teardown.packet == h.teardown,
        released(v, h, true).teardown.queued,
{
}

/// Opening and giving back leaves the slots as they were.
pub proof fn law_slots_are_given_back(v: ConnectionView, h: OpenedView)
    requires
        h.armed,
        h.reservation,
        v.terminal_reservations < usize::MAX,
    ensures
        released(reserved(v), h, false).terminal_reservations == v.terminal_reservations,
{
}

} // verus!
