//! Flushing a whole file system, or what was written through an open file.
//!
//! What is dirty is written first, then the daemon is asked to make everything durable:
//! it is asked whatever came of the writes.

use vstd::prelude::*;
use crate::error::Error;
use crate::fuse::superblock::{Node, Superblock};
use crate::fuse::wire::{FUSE_ROOT_ID, FUSE_SYNCFS};

verus! {

/// The first failure from number `i` on.
pub open spec fn first_error(flushed: Seq<Result<(), Error>>, i: nat) -> Option<Error>
    decreases flushed.len() - i,
{
    if i >= flushed.len() {
        None
    } else {
        match flushed[i as int] {
            Err(error) => Some(error),
            Ok(()) => first_error(flushed, i + 1),
        }
    }
}

/// What a flush comes to: a request that got no reply is told first, then the first write
/// that failed, then what the daemon said.
pub open spec fn sync_outcome(
    cached: Option<Error>,
    transport: Result<(), Error>,
    answer: Result<(), Error>,
) -> Result<(), Error> {
    if transport is Err {
        transport
    } else if cached is Some {
        Err(cached->0)
    } else {
        answer
    }
}

impl Superblock {
    /// The nodes whose dirty ranges are written, one after the other.
    pub fn nodes_to_flush(&self) -> (ids: Vec<u64>)
        ensures
            ids@ == self@.nodes.map_values(|node: Node| node.nodeid),
    {
        let mut ids: Vec<u64> = Vec::new();
        let mut n: usize = 0;
        while n < self.nodes.len()
            invariant
                n <= self.nodes@.len(),
                ids@.len() == n,
                forall|i: int| 0 <= i < n ==> #[trigger] ids@[i] == self.nodes@[i].nodeid,
            decreases self.nodes@.len() - n,
        {
            ids.push(self.nodes[n].nodeid);
            n = n + 1;
        }
        assert(ids@ =~= self@.nodes.map_values(|node: Node| node.nodeid));
        ids
    }
}

/// The request that makes a file system durable: its operation, its node and its body.
pub fn sync_request() -> (request: (u32, u64, Vec<u8>))
    ensures
        request.0 == FUSE_SYNCFS,
        request.1 == FUSE_ROOT_ID,
        request.2@ == Seq::<u8>::empty(),
{
    (FUSE_SYNCFS, FUSE_ROOT_ID, Vec::new())
}

/// The first of the nodes' failures, in the order in which they were flushed.
pub fn first_cached_error(flushed: &Vec<Result<(), Error>>) -> (error: Option<Error>)
    ensures
        error == first_error(flushed@, 0),
{
    let mut i: usize = 0;
    while i < flushed.len()
        invariant
            i <= flushed@.len(),
            first_error(flushed@, 0) == first_error(flushed@, i as nat),
        decreases flushed@.len() - i,
    {
        if let Err(error) = flushed[i] {
            return Some(error);
        }
        i = i + 1;
    }
    None
}

/// What a flush comes to.
pub fn sync_result(
    cached: Option<Error>,
    transport: Result<(), Error>,
    answer: Result<(), Error>,
) -> (result: Result<(), Error>)
    ensures
        result == sync_outcome(cached, transport, answer),
{
    if transport.is_err() {
        return transport;
    }
    match cached {
        Some(error) => Err(error),
        None => answer,
    }
}

/// A file system is flushed if and only if every node was written and the daemon was
/// reached and agreed.
pub proof fn law_a_flush_succeeds_with_all_of_its_parts(
    flushed: Seq<Result<(), Error>>,
    transport: Result<(), Error>,
    answer: Result<(), Error>,
)
    ensures
        sync_outcome(first_error(flushed, 0), transport, answer) is Ok <==> {
            &&& transport is Ok
            &&& answer is Ok
            &&& forall|i: int| 0 <= i < flushed.len() ==> #[trigger] flushed[i] is Ok
        },
{
    finds_a_failure(flushed, 0);
}

proof fn finds_a_failure(flushed: Seq<Result<(), Error>>, i: nat)
    ensures
        first_error(flushed, i) is None <==> forall|j: int|
            i <= j < flushed.len() ==> #[trigger] flushed[j] is Ok,
    decreases flushed.len() - i,
{
    if i < flushed.len() {
        finds_a_failure(flushed, i + 1);
        assert forall|j: int|
            first_error(flushed, i) is None && i <= j < flushed.len() implies #[trigger] flushed[j] is Ok by {
            assert(flushed[i as int] is Ok);
        }
    }
}

} // verus!
