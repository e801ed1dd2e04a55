//! Control requests, and what a daemon may ask of the caller's memory.
//!
//! A daemon never has the memory of a task.  Where it needs more than the command says, it
//! names stretches; the kernel copies them and asks again with the copies.

use vstd::prelude::*;
use crate::bytes::{get_u32, get_u64, to_vec, u32_at, u64_at};
use crate::error::Error;
use crate::fuse::errno::{error_of, of_errno};
use crate::fuse::wire::{FUSE_IOCTL_RETRY, FUSE_IOCTL_UNRESTRICTED, MAX_REQUEST_BYTES};

verus! {

/// How often a daemon may ask for more.
pub const MAX_IOCTL_ROUNDS: usize = 8;

/// How many stretches a daemon may name.
pub const MAX_IOCTL_IOVS: usize = 256;

/// The answer to a control request.
pub struct IoctlReply {
    pub result: i32,
    pub flags: u32,
    pub in_iovs: u32,
    pub out_iovs: u32,
    pub data: Vec<u8>,
}

/// What is said of the answer to a control request.
#[verifier::ext_equal]
pub struct IoctlReplyView {
    pub result: i32,
    pub flags: u32,
    pub in_iovs: u32,
    pub out_iovs: u32,
    pub data: Seq<u8>,
}

impl View for IoctlReply {
    type V = IoctlReplyView;

    open spec fn view(&self) -> IoctlReplyView {
        IoctlReplyView {
            result: self.result,
            flags: self.flags,
            in_iovs: self.in_iovs,
            out_iovs: self.out_iovs,
            data: self.data@,
        }
    }
}

impl IoctlReplyView {
    /// Whether the daemon asks for more.
    pub open spec fn asks(self) -> bool {
        self.flags & FUSE_IOCTL_RETRY != 0
    }
}

/// What an answer says.
pub open spec fn answer(reply: Seq<u8>) -> Result<IoctlReplyView, Error> {
    if reply.len() < 16 {
        Err(Error::Io)
    } else {
        Ok(
            IoctlReplyView {
                result: u32_at(reply, 0) as i32,
                flags: u32_at(reply, 4),
                in_iovs: u32_at(reply, 8),
                out_iovs: u32_at(reply, 12),
                data: reply.skip(16),
            },
        )
    }
}

/// Read the answer to a control request.
pub fn read_ioctl(reply: &[u8]) -> (result: Result<IoctlReply, Error>)
    ensures
        match (answer(reply@), result) {
            (Ok(want), Ok(got)) => got@ == want,
            (Err(want), Err(got)) => got == want,
            _ => false,
        },
{
    let size: usize = reply.len();
    if size < 16 {
        return Err(Error::Io);
    }
    let data: Vec<u8> = to_vec(&reply[16..size]);
    assert(data@ =~= reply@.skip(16));
    Ok(
        IoctlReply {
            result: #[verifier::truncate]
            (get_u32(reply, 0) as i32),
            flags: get_u32(reply, 4),
            in_iovs: get_u32(reply, 8),
            out_iovs: get_u32(reply, 12),
            data,
        },
    )
}

/// The error of a result that is negative.
pub open spec fn result_error(result: i32) -> Error {
    if result == i32::MIN {
        Error::Io
    } else {
        error_of((-result) as i32)
    }
}

fn negative(result: i32) -> (error: Error)
    requires
        result < 0,
    ensures
        error == result_error(result),
{
    if result == i32::MIN {
        Error::Io
    } else {
        of_errno(-result)
    }
}

/// What an attribute request gives that is to fill `output` bytes.
pub open spec fn attribute_result(reply: IoctlReplyView, output: nat) -> Result<Seq<u8>, Error> {
    if reply.asks() {
        Err(Error::Io)
    } else if reply.result < 0 {
        Err(result_error(reply.result))
    } else if reply.data.len() != output {
        Err(Error::Io)
    } else {
        Ok(reply.data)
    }
}

/// Take the answer to an attribute request.
pub fn finish_attribute(reply: IoctlReply, output: usize) -> (result: Result<Vec<u8>, Error>)
    ensures
        match (attribute_result(reply@, output as nat), result) {
            (Ok(want), Ok(got)) => got@ == want,
            (Err(want), Err(got)) => got == want,
            _ => false,
        },
{
    if reply.flags & FUSE_IOCTL_RETRY != 0 {
        return Err(Error::Io);
    }
    if reply.result < 0 {
        return Err(negative(reply.result));
    }
    if reply.data.len() != output {
        return Err(Error::Io);
    }
    Ok(reply.data)
}

/// What a command says of the caller's memory.
#[derive(Clone, Copy, Debug, PartialEq, Eq, Structural)]
pub enum IoctlPlan {
    /// Nothing: the daemon has to ask.
    Unrestricted,
    /// So many bytes to the daemon, and so many back.
    Plain { input: usize, output: usize },
}

/// The bytes that a command gives, from bits 16 to 29.
pub open spec fn command_size(command: u32) -> u32 {
    (command >> 16) & 0x3fff
}

/// What a command says of the caller's memory.  Its two top bits say in which directions
/// the bytes go.
pub open spec fn plan_of(command: u32) -> IoctlPlan {
    let size = command_size(command) as usize;
    if size == 0 {
        IoctlPlan::Unrestricted
    } else {
        IoctlPlan::Plain {
            input: if (command >> 30) & 1 != 0 {
                size
            } else {
                0
            },
            output: if (command >> 30) & 2 != 0 {
                size
            } else {
                0
            },
        }
    }
}

/// What a command says of the caller's memory.
pub fn ioctl_plan(command: u32) -> (plan: IoctlPlan)
    ensures
        plan == plan_of(command),
{
    let size: usize = ((command >> 16) & 0x3fff) as usize;
    if size == 0 {
        return IoctlPlan::Unrestricted;
    }
    let direction: u32 = command >> 30;
    IoctlPlan::Plain {
        input: if direction & 1 != 0 {
            size
        } else {
            0
        },
        output: if direction & 2 != 0 {
            size
        } else {
            0
        },
    }
}

/// What a plain control request gives: what the caller gets, and what goes to its memory.
pub open spec fn plain_result(reply: IoctlReplyView, output: nat) -> Result<(u32, Seq<u8>), Error> {
    if reply.asks() || reply.data.len() != output {
        Err(Error::Io)
    } else if reply.result < 0 {
        Err(result_error(reply.result))
    } else {
        Ok((reply.result as u32, reply.data))
    }
}

/// Take the answer to a plain control request.  The result is what the caller gets, and
/// what goes to its memory.
pub fn finish_plain(reply: IoctlReply, output: usize) -> (result: Result<(u32, Vec<u8>), Error>)
    ensures
        match (plain_result(reply@, output as nat), result) {
            (Ok(want), Ok(got)) => got.0 == want.0 && got.1@ == want.1,
            (Err(want), Err(got)) => got == want,
            _ => false,
        },
{
    if reply.flags & FUSE_IOCTL_RETRY != 0 || reply.data.len() != output {
        return Err(Error::Io);
    }
    if reply.result < 0 {
        return Err(negative(reply.result));
    }
    Ok((reply.result as u32, reply.data))
}

/// A stretch of the caller's memory.
#[derive(Clone, Copy, Debug, PartialEq, Eq, Structural)]
pub struct Iov {
    pub base: u64,
    pub len: u64,
}

/// The stretch that a daemon names in place `i`.
pub open spec fn iov_at(data: Seq<u8>, i: int) -> Iov {
    Iov { base: u64_at(data, 16 * i), len: u64_at(data, 16 * i + 8) }
}

/// What the stretches come to.
#[verifier::ext_equal]
pub struct Survey {
    /// To be read, in this order.
    pub reads: Seq<Iov>,
    pub read_bytes: nat,
    /// To be written when the daemon is done.
    pub writes: Seq<Iov>,
    pub write_bytes: nat,
    /// Whether one was too long.  None behind it counts.
    pub failed: bool,
}

/// What the first `n` stretches come to, of which the first `inputs` are read.
pub open spec fn survey(data: Seq<u8>, inputs: nat, n: nat) -> Survey
    decreases n,
{
    if n == 0 {
        Survey {
            reads: Seq::empty(),
            read_bytes: 0,
            writes: Seq::empty(),
            write_bytes: 0,
            failed: false,
        }
    } else {
        let s = survey(data, inputs, (n - 1) as nat);
        let iov = iov_at(data, n - 1);
        if s.failed {
            s
        } else if s.read_bytes + iov.len > MAX_REQUEST_BYTES {
            Survey { failed: true, ..s }
        } else if n - 1 < inputs {
            Survey { reads: s.reads.push(iov), read_bytes: s.read_bytes + iov.len as nat, ..s }
        } else {
            Survey { writes: s.writes.push(iov), write_bytes: s.write_bytes + iov.len as nat, ..s }
        }
    }
}

/// A survey is within its bounds.
pub proof fn survey_is_bounded(data: Seq<u8>, inputs: nat, n: nat)
    ensures
        survey(data, inputs, n).read_bytes <= MAX_REQUEST_BYTES,
        survey(data, inputs, n).write_bytes <= n * MAX_REQUEST_BYTES,
        survey(data, inputs, n).write_bytes == before(
            survey(data, inputs, n).writes,
            survey(data, inputs, n).writes.len(),
        ),
    decreases n,
{
    if n > 0 {
        survey_is_bounded(data, inputs, (n - 1) as nat);
        let s = survey(data, inputs, (n - 1) as nat);
        let t = survey(data, inputs, n);
        assert(n * MAX_REQUEST_BYTES == (n - 1) * MAX_REQUEST_BYTES + MAX_REQUEST_BYTES)
            by (nonlinear_arith);
        if t.writes != s.writes {
            before_same(s.writes, t.writes, s.writes.len());
        }
    }
}

proof fn before_same(a: Seq<Iov>, b: Seq<Iov>, n: nat)
    requires
        n <= a.len() <= b.len(),
        forall|i: int| 0 <= i < n ==> a[i] == b[i],
    ensures
        before(a, n) == before(b, n),
    decreases n,
{
    if n > 0 {
        before_same(a, b, (n - 1) as nat);
    }
}

/// The bytes of the stretches before the `n`th.
pub open spec fn before(iovs: Seq<Iov>, n: nat) -> nat
    decreases n,
{
    if n == 0 {
        0
    } else {
        before(iovs, (n - 1) as nat) + iovs[n - 1].len as nat
    }
}

/// The exchange with a daemon that names stretches of the caller's memory.
pub struct Exchange {
    pub round: usize,
    pub input: Vec<u8>,
    pub output: usize,
    pub writes: Vec<Iov>,
}

/// What is said of an exchange.
#[verifier::ext_equal]
pub struct ExchangeView {
    pub round: usize,
    pub input: Seq<u8>,
    pub output: usize,
    pub writes: Seq<Iov>,
}

impl View for Exchange {
    type V = ExchangeView;

    open spec fn view(&self) -> ExchangeView {
        ExchangeView {
            round: self.round,
            input: self.input@,
            output: self.output,
            writes: self.writes@,
        }
    }
}

impl ExchangeView {
    /// What the daemon is to fill is what is then written.
    pub open spec fn wf(self) -> bool {
        &&& self.output == before(self.writes, self.writes.len())
        &&& self.writes.len() <= MAX_IOCTL_IOVS
        &&& self.round <= MAX_IOCTL_ROUNDS
    }
}

/// Bytes for a stretch of the caller's memory.
pub struct UserWrite {
    pub base: u64,
    pub data: Vec<u8>,
}

/// What becomes of an answer.
pub enum ExchangeStep {
    Failed(Error),
    /// The caller's result, after the bytes went to its memory in this order.
    Done(u32, Vec<UserWrite>),
    /// Stretches that are to be read, in this order.  Where `refused` says so, the daemon
    /// named too much behind them, and the whole has failed once they are read.
    Read { reads: Vec<Iov>, refused: Option<Error> },
}

/// Why the stretches that a daemon names are refused at once.
pub open spec fn names_too_much(reply: IoctlReplyView) -> bool {
    ||| reply.in_iovs + reply.out_iovs > MAX_IOCTL_IOVS
    ||| reply.data.len() != 16 * (reply.in_iovs + reply.out_iovs)
}

/// The flags of a round.
pub open spec fn round_flags(round: usize) -> u32 {
    if round == 0 {
        FUSE_IOCTL_UNRESTRICTED
    } else {
        FUSE_IOCTL_UNRESTRICTED | FUSE_IOCTL_RETRY
    }
}

impl Exchange {
    pub fn new() -> (exchange: Exchange)
        ensures
            exchange@ == (ExchangeView {
                round: 0,
                input: Seq::empty(),
                output: 0,
                writes: Seq::empty(),
            }),
            exchange@.wf(),
    {
        let exchange = Exchange { round: 0, input: Vec::new(), output: 0, writes: Vec::new() };
        assert(exchange@.input =~= Seq::empty());
        assert(exchange@.writes =~= Seq::empty());
        exchange
    }

    /// The flags of the next request, unless there were enough.
    pub fn next_flags(&self) -> (result: Result<u32, Error>)
        requires
            self@.wf(),
        ensures
            result == (if self@.round >= MAX_IOCTL_ROUNDS {
                Err(Error::Io)
            } else {
                Ok(round_flags(self@.round))
            }),
    {
        if self.round >= MAX_IOCTL_ROUNDS {
            Err(Error::Io)
        } else if self.round == 0 {
            Ok(FUSE_IOCTL_UNRESTRICTED)
        } else {
            Ok(FUSE_IOCTL_UNRESTRICTED | FUSE_IOCTL_RETRY)
        }
    }

    /// Take an answer.
    pub fn answered(&mut self, reply: &IoctlReply) -> (step: ExchangeStep)
        requires
            old(self)@.wf(),
            old(self)@.round < MAX_IOCTL_ROUNDS,
        ensures
            final(self)@.wf(),
            ({
                let r = reply@;
                let e = old(self)@;
                match step {
                    ExchangeStep::Failed(error) => {
                        &&& final(self)@ == e
                        &&& if r.asks() {
                            names_too_much(r) && error == Error::Io
                        } else if r.result < 0 {
                            error == result_error(r.result)
                        } else {
                            r.data.len() != e.output && error == Error::Io
                        }
                    },
                    ExchangeStep::Done(result, writes) => {
                        &&& final(self)@ == e
                        &&& !r.asks() && r.result >= 0 && r.data.len() == e.output
                        &&& result == r.result
                        &&& writes@.len() == e.writes.len()
                        &&& forall|k: int|
                            0 <= k < writes@.len() ==> (#[trigger] writes@[k]).base
                                == e.writes[k].base && writes@[k].data@ == r.data.subrange(
                                before(e.writes, k as nat) as int,
                                before(e.writes, (k + 1) as nat) as int,
                            )
                    },
                    ExchangeStep::Read { reads, refused } => {
                        let n = (r.in_iovs + r.out_iovs) as nat;
                        let s = survey(r.data, r.in_iovs as nat, n);
                        &&& r.asks() && !names_too_much(r)
                        &&& reads@ == s.reads
                        &&& refused == (if s.failed {
                            Some(Error::Io)
                        } else {
                            None
                        })
                        &&& final(self)@ == (ExchangeView {
                            round: (e.round + 1) as usize,
                            input: Seq::empty(),
                            output: s.write_bytes as usize,
                            writes: s.writes,
                        })
                    },
                }
            }),
    {
        let ghost e = self@;
        if reply.flags & FUSE_IOCTL_RETRY == 0 {
            if reply.result < 0 {
                return ExchangeStep::Failed(negative(reply.result));
            }
            if reply.data.len() != self.output {
                return ExchangeStep::Failed(Error::Io);
            }
            let mut writes: Vec<UserWrite> = Vec::new();
            let mut offset: usize = 0;
            let mut i: usize = 0;
            while i < self.writes.len()
                invariant
                    i <= self.writes@.len(),
                    self@ == e,
                    e.wf(),
                    reply.data@.len() == e.output,
                    offset == before(e.writes, i as nat),
                    writes@.len() == i,
                    forall|k: int|
                        0 <= k < i ==> (#[trigger] writes@[k]).base == e.writes[k].base
                            && writes@[k].data@ == reply.data@.subrange(
                            before(e.writes, k as nat) as int,
                            before(e.writes, (k + 1) as nat) as int,
                        ),
                decreases self.writes@.len() - i,
            {
                proof {
                    before_grows(e.writes, i as nat + 1, e.writes.len());
                }
                let len: usize = self.writes[i].len as usize;
                let part = &reply.data.as_slice()[offset..offset + len];
                writes.push(UserWrite { base: self.writes[i].base, data: to_vec(part) });
                offset = offset + len;
                i = i + 1;
            }
            return ExchangeStep::Done(reply.result as u32, writes);
        }
        if reply.in_iovs as u64 + reply.out_iovs as u64 > MAX_IOCTL_IOVS as u64 {
            return ExchangeStep::Failed(Error::Io);
        }
        let count: usize = (reply.in_iovs + reply.out_iovs) as usize;
        if reply.data.len() != 16 * count {
            return ExchangeStep::Failed(Error::Io);
        }
        let inputs: usize = reply.in_iovs as usize;
        let mut reads: Vec<Iov> = Vec::new();
        let mut read_bytes: u64 = 0;
        let mut writes: Vec<Iov> = Vec::new();
        let mut write_bytes: u64 = 0;
        let mut last = true;
        let mut i: usize = 0;
        assert(reads@ =~= Seq::empty());
        assert(writes@ =~= Seq::empty());
        while i < count
            invariant
                i <= count <= MAX_IOCTL_IOVS,
                reply.data@.len() == 16 * count,
                last == !survey(reply.data@, inputs as nat, i as nat).failed,
                reads@ == survey(reply.data@, inputs as nat, i as nat).reads,
                read_bytes == survey(reply.data@, inputs as nat, i as nat).read_bytes,
                writes@ == survey(reply.data@, inputs as nat, i as nat).writes,
                write_bytes == survey(reply.data@, inputs as nat, i as nat).write_bytes,
                writes@.len() <= i,
            decreases count - i,
        {
            proof {
                survey_is_bounded(reply.data@, inputs as nat, i as nat);
                survey_is_bounded(reply.data@, inputs as nat, i as nat + 1);
            }
            if last {
                let iov = Iov {
                    base: get_u64(reply.data.as_slice(), 16 * i),
                    len: get_u64(reply.data.as_slice(), 16 * i + 8),
                };
                assert(iov == iov_at(reply.data@, i as int));
                if iov.len > MAX_REQUEST_BYTES as u64 - read_bytes {
                    last = false;
                } else if i < inputs {
                    reads.push(iov);
                    read_bytes = read_bytes + iov.len;
                } else {
                    writes.push(iov);
                    write_bytes = write_bytes + iov.len;
                }
            }
            i = i + 1;
        }
        proof {
            survey_is_bounded(reply.data@, inputs as nat, count as nat);
        }
        self.input = Vec::new();
        self.output = write_bytes as usize;
        self.writes = writes;
        self.round = self.round + 1;
        assert(self@.input =~= Seq::empty());
        let refused: Option<Error> = if last {
            None
        } else {
            Some(Error::Io)
        };
        ExchangeStep::Read { reads, refused }
    }

    /// Take the bytes of the stretches that were to be read, or why they cannot be.  A
    /// stretch that cannot be read is met before what was refused behind it.
    pub fn supply(&mut self, read: Result<Vec<u8>, Error>, refused: Option<Error>) -> (result:
        Result<(), Error>)
        requires
            old(self)@.wf(),
        ensures
            match (read, refused) {
                (Err(error), _) => result == Err::<(), Error>(error) && final(self)@
                    == old(self)@,
                (Ok(_), Some(error)) => result == Err::<(), Error>(error) && final(self)@
                    == old(self)@,
                (Ok(input), None) => result is Ok && final(self)@ == (ExchangeView {
                    input: input@,
                    ..old(self)@
                }),
            },
            final(self)@.wf(),
    {
        let input = read?;
        match refused {
            Some(error) => Err(error),
            None => {
                self.input = input;
                Ok(())
            },
        }
    }
}

proof fn before_grows(iovs: Seq<Iov>, a: nat, b: nat)
    requires
        a <= b <= iovs.len(),
    ensures
        before(iovs, a) <= before(iovs, b),
    decreases b,
{
    if a < b {
        before_grows(iovs, a, (b - 1) as nat);
    }
}

/// A daemon never gets more of a task's memory than a packet holds, whatever it names.
pub proof fn law_reads_are_bounded(data: Seq<u8>, inputs: nat, n: nat)
    ensures
        survey(data, inputs, n).read_bytes <= MAX_REQUEST_BYTES,
        survey(data, inputs, n).read_bytes == before(
            survey(data, inputs, n).reads,
            survey(data, inputs, n).reads.len(),
        ),
        survey(data, inputs, n).reads.len() <= inputs,
    decreases n,
{
    if n > 0 {
        law_reads_are_bounded(data, inputs, (n - 1) as nat);
        let s = survey(data, inputs, (n - 1) as nat);
        let t = survey(data, inputs, n);
        reads_are_first(data, inputs, (n - 1) as nat);
        if t.reads != s.reads {
            before_same(s.reads, t.reads, s.reads.len());
        }
    }
}

proof fn reads_are_first(data: Seq<u8>, inputs: nat, n: nat)
    ensures
        survey(data, inputs, n).reads.len() <= n,
        survey(data, inputs, n).reads.len() <= inputs,
    decreases n,
{
    if n > 0 {
        reads_are_first(data, inputs, (n - 1) as nat);
    }
}

} // verus!
