//! Requests and their replies.

use vstd::prelude::*;
use crate::bytes::to_vec;
use crate::error::Error;
use crate::fuse::errno::{error_of, of_errno};

verus! {

/// What became of a request that a reply is owed to.
#[derive(Debug)]
pub enum FuseReply {
    Data(Vec<u8>),
    /// The number of the error that the daemon chose.
    Error(i32),
    Cancelled,
}

/// What is said of a reply.
pub enum ReplyView {
    Data(Seq<u8>),
    Error(i32),
    Cancelled,
}

impl View for FuseReply {
    type V = ReplyView;

    open spec fn view(&self) -> ReplyView {
        match self {
            FuseReply::Data(data) => ReplyView::Data(data@),
            FuseReply::Error(errno) => ReplyView::Error(*errno),
            FuseReply::Cancelled => ReplyView::Cancelled,
        }
    }
}

/// What a reply gives to the task that asked.
pub open spec fn data_of(reply: ReplyView) -> Result<Seq<u8>, Error> {
    match reply {
        ReplyView::Data(data) => Ok(data),
        ReplyView::Error(errno) => Err(error_of(errno)),
        ReplyView::Cancelled => Err(Error::NoSuchDevice),
    }
}

/// What a reply gives to the task that asked: its data, or the error that the daemon
/// chose.
pub fn reply_data(reply: FuseReply) -> (result: Result<Vec<u8>, Error>)
    ensures
        match result {
            Ok(data) => data_of(reply@) == Ok::<Seq<u8>, Error>(data@),
            Err(error) => data_of(reply@) == Err::<Seq<u8>, Error>(error),
        },
{
    match reply {
        FuseReply::Data(data) => Ok(data),
        FuseReply::Error(errno) => Err(of_errno(errno)),
        FuseReply::Cancelled => Err(Error::NoSuchDevice),
    }
}

#[derive(Clone, Copy, Debug, PartialEq, Eq, Structural)]
pub enum RequestState {
    Queued,
    Delivered,
    Replied,
    Cancelled,
}

/// One operation, kept until the reply, an interrupt or the end of the connection.
pub struct Request {
    pub unique: u64,
    pub opcode: u32,
    pub bytes: Vec<u8>,
    pub state: RequestState,
    pub reply: Option<FuseReply>,
    pub expects_reply: bool,
    /// Whether the task was interrupted after the daemon had the request.  The reply is
    /// then still taken, but nobody waits for it.
    pub waiter_interrupted: bool,
    /// The ticket of the one who is to know that the daemon has the whole packet.
    pub delivery: Option<u64>,
}

/// What is said of a request.
#[verifier::ext_equal]
pub struct RequestView {
    pub unique: u64,
    pub opcode: u32,
    pub bytes: Seq<u8>,
    pub state: RequestState,
    pub reply: Option<ReplyView>,
    pub expects_reply: bool,
    pub waiter_interrupted: bool,
    pub delivery: Option<u64>,
}

/// A reply that may be there.
pub open spec fn reply_view(reply: Option<FuseReply>) -> Option<ReplyView> {
    match reply {
        Some(reply) => Some(reply@),
        None => None,
    }
}

impl View for Request {
    type V = RequestView;

    open spec fn view(&self) -> RequestView {
        RequestView {
            unique: self.unique,
            opcode: self.opcode,
            bytes: self.bytes@,
            state: self.state,
            reply: reply_view(self.reply),
            expects_reply: self.expects_reply,
            waiter_interrupted: self.waiter_interrupted,
            delivery: self.delivery,
        }
    }
}

/// A request that waits for the daemon to read it.
pub open spec fn fresh(
    unique: u64,
    opcode: u32,
    bytes: Seq<u8>,
    expects_reply: bool,
    delivery: Option<u64>,
) -> RequestView {
    RequestView {
        unique,
        opcode,
        bytes,
        state: RequestState::Queued,
        reply: None,
        expects_reply,
        waiter_interrupted: false,
        delivery,
    }
}

impl Request {
    /// A request that waits for the daemon to read it.
    pub fn queued(
        unique: u64,
        opcode: u32,
        bytes: Vec<u8>,
        expects_reply: bool,
        delivery: Option<u64>,
    ) -> (request: Request)
        ensures
            request@ == fresh(unique, opcode, bytes@, expects_reply, delivery),
    {
        Request {
            unique,
            opcode,
            bytes,
            state: RequestState::Queued,
            reply: None,
            expects_reply,
            waiter_interrupted: false,
            delivery,
        }
    }
}

/// The request with its fate sealed, if nothing else has answered it.
pub open spec fn cancelled(request: RequestView) -> RequestView {
    if request.reply is None {
        RequestView {
            state: RequestState::Cancelled,
            reply: Some(ReplyView::Cancelled),
            ..request
        }
    } else {
        request
    }
}

/// Whether the daemon has a request and has not answered it.
pub open spec fn in_custody(request: RequestView) -> bool {
    request.state == RequestState::Delivered && request.reply is None
}

/// The views of requests.
pub open spec fn request_views(requests: Seq<Request>) -> Seq<RequestView> {
    Seq::new(requests.len(), |i: int| requests[i]@)
}

/// Where the first request that satisfies `p` stands, or the length where none does.
pub open spec fn first(requests: Seq<RequestView>, p: spec_fn(RequestView) -> bool) -> int
    decreases requests.len(),
{
    if requests.len() == 0 {
        0
    } else if p(requests[0]) {
        0
    } else {
        1 + first(requests.drop_first(), p)
    }
}

/// What a search that goes from the front finds is the first.
pub proof fn first_is(requests: Seq<RequestView>, p: spec_fn(RequestView) -> bool, i: int)
    requires
        0 <= i <= requests.len(),
        forall|j: int| 0 <= j < i ==> !p(#[trigger] requests[j]),
        i < requests.len() ==> p(requests[i]),
    ensures
        first(requests, p) == i,
    decreases requests.len(),
{
    if requests.len() > 0 && i > 0 {
        let rest = requests.drop_first();
        assert(!p(requests[0]));
        assert forall|j: int| 0 <= j < i - 1 implies !p(#[trigger] rest[j]) by {
            assert(rest[j] == requests[j + 1]);
        }
        if i < requests.len() {
            assert(rest[i - 1] == requests[i]);
        }
        first_is(rest, p, i - 1);
    }
}

/// What is said of the first.
pub proof fn first_holds(requests: Seq<RequestView>, p: spec_fn(RequestView) -> bool)
    ensures
        0 <= first(requests, p) <= requests.len(),
        first(requests, p) < requests.len() ==> p(requests[first(requests, p)]),
        forall|j: int| 0 <= j < first(requests, p) ==> !p(#[trigger] requests[j]),
    decreases requests.len(),
{
    if requests.len() > 0 && !p(requests[0]) {
        let rest = requests.drop_first();
        first_holds(rest, p);
        assert forall|j: int| 0 <= j < first(requests, p) implies !p(#[trigger] requests[j]) by {
            if j > 0 {
                assert(rest[j - 1] == requests[j]);
            }
        }
    }
}

/// A request of a given number.
pub open spec fn numbered(unique: u64) -> spec_fn(RequestView) -> bool {
    |r: RequestView| r.unique == unique
}

/// A request that waits for the daemon to read it.
pub open spec fn waiting() -> spec_fn(RequestView) -> bool {
    |r: RequestView| r.state == RequestState::Queued
}

/// A request of a given number that the daemon has and has not answered.
pub open spec fn held(unique: u64) -> spec_fn(RequestView) -> bool {
    |r: RequestView| r.unique == unique && in_custody(r)
}

/// Find the first request of a number.
pub fn find_numbered(requests: &Vec<Request>, unique: u64) -> (at: usize)
    ensures
        at == first(request_views(requests@), numbered(unique)),
        at <= requests@.len(),
        at < requests@.len() ==> requests@[at as int].unique == unique,
{
    let ghost views = request_views(requests@);
    let mut i: usize = 0;
    while i < requests.len()
        invariant
            i <= requests@.len(),
            views == request_views(requests@),
            forall|j: int| 0 <= j < i ==> !numbered(unique)(#[trigger] views[j]),
        decreases requests@.len() - i,
    {
        assert(views[i as int] == requests@[i as int]@);
        if requests[i].unique == unique {
            proof {
                first_is(views, numbered(unique), i as int);
            }
            return i;
        }
        i = i + 1;
    }
    proof {
        first_is(views, numbered(unique), i as int);
    }
    i
}

/// Find the first request that waits for the daemon to read it.
pub fn find_waiting(requests: &Vec<Request>) -> (at: usize)
    ensures
        at == first(request_views(requests@), waiting()),
        at <= requests@.len(),
        at < requests@.len() ==> requests@[at as int].state == RequestState::Queued,
{
    let ghost views = request_views(requests@);
    let mut i: usize = 0;
    while i < requests.len()
        invariant
            i <= requests@.len(),
            views == request_views(requests@),
            forall|j: int| 0 <= j < i ==> !waiting()(#[trigger] views[j]),
        decreases requests@.len() - i,
    {
        assert(views[i as int] == requests@[i as int]@);
        if requests[i].state == RequestState::Queued {
            proof {
                first_is(views, waiting(), i as int);
            }
            return i;
        }
        i = i + 1;
    }
    proof {
        first_is(views, waiting(), i as int);
    }
    i
}

/// Find the first request of a number that the daemon has and has not answered.
pub fn find_held(requests: &Vec<Request>, unique: u64) -> (at: usize)
    ensures
        at == first(request_views(requests@), held(unique)),
        at <= requests@.len(),
{
    let ghost views = request_views(requests@);
    let mut i: usize = 0;
    while i < requests.len()
        invariant
            i <= requests@.len(),
            views == request_views(requests@),
            forall|j: int| 0 <= j < i ==> !held(unique)(#[trigger] views[j]),
        decreases requests@.len() - i,
    {
        assert(views[i as int] == requests@[i as int]@);
        if requests[i].unique == unique && requests[i].state == RequestState::Delivered
            && requests[i].reply.is_none() {
            proof {
                first_is(views, held(unique), i as int);
            }
            return i;
        }
        i = i + 1;
    }
    proof {
        first_is(views, held(unique), i as int);
    }
    i
}

/// Every request with its fate sealed.
pub open spec fn all_cancelled(requests: Seq<RequestView>) -> Seq<RequestView> {
    Seq::new(requests.len(), |i: int| cancelled(requests[i]))
}

/// Seal the fate of every request that nothing else has answered.
pub fn cancel_all(requests: &mut Vec<Request>)
    ensures
        request_views(final(requests)@) == all_cancelled(request_views(old(requests)@)),
{
    let mut i: usize = 0;
    while i < requests.len()
        invariant
            i <= requests@.len(),
            requests@.len() == old(requests)@.len(),
            forall|j: int| 0 <= j < i ==> #[trigger] requests@[j]@ == cancelled(old(requests)@[j]@),
            forall|j: int| i <= j < requests@.len() ==> #[trigger] requests@[j] == old(requests)@[j],
        decreases requests@.len() - i,
    {
        if requests[i].reply.is_none() {
            requests[i].state = RequestState::Cancelled;
            requests[i].reply = Some(FuseReply::Cancelled);
        }
        i = i + 1;
    }
    assert(request_views(requests@) =~= all_cancelled(request_views(old(requests)@)));
}

/// The requests that somebody waits for.
pub open spec fn awaited(requests: Seq<RequestView>) -> Seq<RequestView>
    decreases requests.len(),
{
    if requests.len() == 0 {
        Seq::empty()
    } else if requests.last().expects_reply {
        awaited(requests.drop_last()).push(requests.last())
    } else {
        awaited(requests.drop_last())
    }
}

/// Drop the requests that nobody waits for.
pub fn keep_awaited(requests: &mut Vec<Request>)
    ensures
        request_views(final(requests)@) == awaited(request_views(old(requests)@)),
{
    let mut rest: Vec<Request> = Vec::new();
    std::mem::swap(requests, &mut rest);
    let ghost all = request_views(rest@);
    let total: usize = rest.len();
    let mut kept: usize = 0;
    assert(request_views(requests@) =~= awaited(all.take(0)));
    while rest.len() > 0
        invariant
            kept + rest@.len() == total,
            total == all.len(),
            all == request_views(old(requests)@),
            request_views(rest@) == all.skip(kept as int),
            request_views(requests@) == awaited(all.take(kept as int)),
        decreases rest@.len(),
    {
        let ghost before = rest@;
        let request = rest.remove(0);
        assert(request@ == all.skip(kept as int)[0]);
        assert(all.take(kept as int + 1).drop_last() =~= all.take(kept as int));
        assert(all.take(kept as int + 1).last() == request@);
        if request.expects_reply {
            let ghost sofar = requests@;
            requests.push(request);
            assert(request_views(requests@) =~= request_views(sofar).push(request@));
        }
        kept = kept + 1;
        assert(request_views(rest@) =~= all.skip(kept as int)) by {
            assert forall|i: int| 0 <= i < rest@.len() implies #[trigger] request_views(rest@)[i]
                == all.skip(kept as int)[i] by {
                assert(rest@[i] == before[i + 1]);
                assert(request_views(before)[i + 1] == all.skip(kept as int - 1)[i + 1]);
            }
        }
    }
    assert(all.take(kept as int) =~= all);
}

/// A copy of the bytes of a request.
pub fn packet_of(request: &Request) -> (bytes: Vec<u8>)
    ensures
        bytes@ == request@.bytes,
{
    to_vec(request.bytes.as_slice())
}

} // verus!
