//! Closing open files, and dropping nodes.

use vstd::prelude::*;
use crate::error::Error;
use crate::fuse::bodies::{release_body, release_request};
use crate::fuse::connection::{forgotten, unregistered, Connection, ConnectionView,
    MAX_FORGET_NODES};
use crate::fuse::file::first_failure;
use crate::fuse::opening::{release_number, release_opcode};
use crate::fuse::superblock::{removed, Superblock};
use crate::fuse::wire::{Caller, FUSE_FLUSH, FUSE_ROOT_ID};

verus! {

/// Whether an open file was closed already.
pub struct CloseFile {
    pub released: bool,
}

impl CloseFile {
    pub fn new() -> (file: CloseFile)
        ensures
            !file.released,
    {
        CloseFile { released: false }
    }

    /// Close the file, where nobody did: whoever comes later finds it closed, and has
    /// nothing left to do.
    pub fn claim(&mut self) -> (first: bool)
        ensures
            first == !old(self).released,
            final(self).released,
    {
        let first = !self.released;
        self.released = true;
        first
    }
}

/// Whether a file that is closed is flushed: once everything that was dirty is written,
/// and as long as somebody listens.
pub fn plan_close(written: &Result<(), Error>, dead: bool) -> (flush: bool)
    ensures
        flush == (*written is Ok && !dead),
{
    written.is_ok() && !dead
}

/// The request that flushes a handle.
pub fn flush_request(fh: u64) -> (request: (u32, Vec<u8>))
    ensures
        request.0 == FUSE_FLUSH,
        request.1@ == release_body(fh),
{
    (FUSE_FLUSH, release_request(fh))
}

/// The request that gives a handle back.  A connection that has ended took it back, so
/// that there is nothing to ask for.
pub fn plan_release(directory: bool, dead: bool, fh: u64) -> (request: Option<(u32, Vec<u8>)>)
    ensures
        request is None <==> dead,
        request matches Some(r) ==> {
            &&& r.0 == release_number(directory)
            &&& r.1@ == release_body(fh)
        },
{
    if dead {
        return None;
    }
    Some((release_opcode(directory), release_request(fh)))
}

/// What closing a file comes to.
pub open spec fn close_outcome(
    written: Result<(), Error>,
    flushed: Result<(), Error>,
    released: Result<(), Error>,
) -> Result<(), Error> {
    if written is Err {
        written
    } else if flushed is Err {
        flushed
    } else {
        released
    }
}

/// What closing a file comes to.  Each part is done whatever came of the one before it,
/// but for the flush, and the first failure is the one that is told.
pub fn close_result(
    written: Result<(), Error>,
    flushed: Result<(), Error>,
    released: Result<(), Error>,
) -> (result: Result<(), Error>)
    ensures
        result == close_outcome(written, flushed, released),
{
    first_failure(written, first_failure(flushed, released))
}

/// The connection after a reference to a node was dropped.  The root is never forgotten:
/// the daemon never handed it out.
pub open spec fn dropped(v: ConnectionView, nodeid: u64, caller: Caller) -> ConnectionView {
    unregistered(
        if nodeid == FUSE_ROOT_ID {
            v
        } else {
            forgotten(v, nodeid, caller)
        },
        nodeid,
    )
}

impl Superblock {
    /// Drop the reference to a node that stands at `at`: the daemon is told, without
    /// waiting, that the kernel has one less, and with the last use goes what is kept of
    /// the file.
    pub fn drop_node(&mut self, connection: &mut Connection, at: usize, caller: Caller)
        requires
            old(self).wf(),
            old(connection).wf(),
            at < old(self)@.nodes.len(),
            old(connection)@.known_nodes.contains_key(old(self)@.nodes[at as int].nodeid)
                ==> old(connection)@.known_nodes[old(self)@.nodes[at as int].nodeid] > 0,
        ensures
            final(self).wf(),
            final(connection).wf(),
            final(self)@ == removed(old(self)@, at as int),
            final(connection)@ == dropped(
                old(connection)@,
                old(self)@.nodes[at as int].nodeid,
                caller,
            ),
    {
        let nodeid: u64 = self.nodes[at].nodeid;
        if nodeid != FUSE_ROOT_ID {
            connection.queue_forget(nodeid, caller);
        }
        connection.unregister_node(nodeid);
        self.remove_node(at);
    }
}

/// A node that is dropped is forgotten if and only if it is not the root, where there is
/// room to gather what is forgotten.
pub proof fn law_the_root_is_never_forgotten(v: ConnectionView, nodeid: u64, caller: Caller)
    requires
        !v.dead,
        v.forget_nodes.len() < MAX_FORGET_NODES,
    ensures
        dropped(v, nodeid, caller).forget_nodes == (if nodeid == FUSE_ROOT_ID {
            v.forget_nodes
        } else {
            v.forget_nodes.push(nodeid)
        }),
        dropped(v, FUSE_ROOT_ID, caller).requests == v.requests,
{
}

} // verus!
