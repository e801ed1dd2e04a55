//! Reading directories.

use vstd::prelude::*;
use crate::bytes::{get_u32, get_u64, to_vec, u32_at, u64_at};
use crate::error::Error;
use crate::fuse::metadata::{parse_attr, parsed, type_of, Metadata, NodeType};
use crate::fuse::wire::{FuseInit, FUSE_DO_READDIRPLUS, FUSE_READDIR, FUSE_READDIRPLUS};

verus! {

/// Whether a daemon sends what names stand for with them.
pub open spec fn sends_entries(init: Option<FuseInit>) -> bool {
    init is Some && init->0.minor >= 21 && init->0.chose(FUSE_DO_READDIRPLUS)
}

/// Whether a daemon sends what names stand for with them.
pub fn readdir_plus(init: Option<FuseInit>) -> (plus: bool)
    ensures
        plus == sends_entries(init),
{
    match init {
        Some(init) => init.minor >= 21 && init.flags & FUSE_DO_READDIRPLUS != 0,
        None => false,
    }
}

/// The number of the request that reads a directory.
pub open spec fn readdir_number(plus: bool) -> u32 {
    if plus {
        FUSE_READDIRPLUS
    } else {
        FUSE_READDIR
    }
}

/// The number of the request that reads a directory.
pub fn readdir_opcode(plus: bool) -> (opcode: u32)
    ensures
        opcode == readdir_number(plus),
{
    if plus {
        FUSE_READDIRPLUS
    } else {
        FUSE_READDIR
    }
}

/// A name of a directory.
pub struct DirRecord {
    pub name: Vec<u8>,
    pub ino: u64,
    pub node_type: NodeType,
    /// Where the next name is.
    pub next: u64,
    /// What the name stands for, where the daemon sent it: the kernel then has a reference
    /// to it, which is to be given back.
    pub entry: Option<(u64, Metadata)>,
    /// Where the next record starts.
    pub end: usize,
}

/// What is said of a name of a directory.
#[verifier::ext_equal]
pub struct RecordView {
    pub name: Seq<u8>,
    pub ino: u64,
    pub node_type: NodeType,
    pub next: u64,
    pub entry: Option<(u64, Metadata)>,
    pub end: int,
}

impl View for DirRecord {
    type V = RecordView;

    open spec fn view(&self) -> RecordView {
        RecordView {
            name: self.name@,
            ino: self.ino,
            node_type: self.node_type,
            next: self.next,
            entry: self.entry,
            end: self.end as int,
        }
    }
}

/// Whether bytes may be a name.
pub open spec fn is_file_name(name: Seq<u8>) -> bool {
    name.len() > 0 && !name.contains(0u8) && !name.contains(47u8)
}

/// The next place that records start at.
pub open spec fn aligned(end: int) -> int {
    (end + 7) / 8 * 8
}

/// The record that starts at `pos`.  One that breaks off, one without a name that may be
/// one, and one that sends what its name stands for but does not say it, are refused.
/// What a name stands for is also refused where the file system layer no longer holds the
/// entry of the directory.
pub open spec fn record_at(reply: Seq<u8>, pos: int, plus: bool, held: bool) -> Result<
    RecordView,
    Error,
> {
    let head = if plus {
        pos + 128
    } else {
        pos
    };
    let end = head + 24 + u32_at(reply, head + 16);
    if reply.len() < head + 24 || end > reply.len() || !is_file_name(
        reply.subrange(head + 24, end),
    ) || (plus && (u64_at(reply, pos) == 0 || parsed(reply, pos + 40) is Err)) {
        Err(Error::Io)
    } else if plus && !held {
        Err(Error::NotFound)
    } else {
        Ok(
            RecordView {
                name: reply.subrange(head + 24, end),
                ino: u64_at(reply, head),
                node_type: type_of(reply[head + 20]),
                next: u64_at(reply, head + 8),
                entry: if plus {
                    Some((u64_at(reply, pos), parsed(reply, pos + 40)->Ok_0))
                } else {
                    None
                },
                end: aligned(end),
            },
        )
    }
}

fn may_be_name(name: &[u8]) -> (ok: bool)
    ensures
        ok == is_file_name(name@),
{
    if name.len() == 0 {
        return false;
    }
    let mut i: usize = 0;
    while i < name.len()
        invariant
            i <= name@.len(),
            name@.len() > 0,
            forall|j: int| 0 <= j < i ==> name@[j] != 0 && name@[j] != 47,
        decreases name@.len() - i,
    {
        if name[i] == 0 || name[i] == 47 {
            assert(name@.contains(name@[i as int]));
            return false;
        }
        i = i + 1;
    }
    true
}

/// Read the record that starts at `pos`.
pub fn read_record(reply: &[u8], pos: usize, plus: bool, held: bool) -> (result: Result<
    DirRecord,
    Error,
>)
    requires
        pos < reply@.len(),
        reply@.len() + 7 <= usize::MAX,
    ensures
        match (record_at(reply@, pos as int, plus, held), result) {
            (Ok(want), Ok(got)) => got@ == want,
            (Err(want), Err(got)) => got == want,
            _ => false,
        },
{
    let size: usize = reply.len();
    let before: usize = if plus {
        128
    } else {
        0
    };
    if size - pos < before + 24 {
        return Err(Error::Io);
    }
    let head: usize = pos + before;
    let len: usize = get_u32(reply, head + 16) as usize;
    if len > size - head - 24 {
        return Err(Error::Io);
    }
    let end: usize = head + 24 + len;
    let name = &reply[head + 24..end];
    if !may_be_name(name) {
        return Err(Error::Io);
    }
    let entry: Option<(u64, Metadata)> = if plus {
        let nodeid: u64 = get_u64(reply, pos);
        if nodeid == 0 {
            return Err(Error::Io);
        }
        let metadata = parse_attr(reply, pos + 40)?;
        if !held {
            return Err(Error::NotFound);
        }
        Some((nodeid, metadata))
    } else {
        None
    };
    Ok(
        DirRecord {
            name: to_vec(name),
            ino: get_u64(reply, head),
            node_type: NodeType::from_number(reply[head + 20]),
            next: get_u64(reply, head + 8),
            entry,
            end: (end + 7) / 8 * 8,
        },
    )
}

/// The records from `pos` on that a reader is handed who takes `limit` of them, and why
/// there are no more, where the reply is to blame.  The one that the reader has no more
/// room for is handed over too, and the records in front of a broken one stand.
pub open spec fn handed_over(reply: Seq<u8>, pos: int, plus: bool, held: bool, limit: nat) -> (
    Seq<RecordView>,
    Option<Error>,
)
    decreases limit,
{
    if pos >= reply.len() {
        (Seq::empty(), None)
    } else {
        match record_at(reply, pos, plus, held) {
            Err(error) => (Seq::empty(), Some(error)),
            Ok(record) => if limit == 0 {
                (seq![record], None)
            } else {
                let rest = handed_over(reply, record.end, plus, held, (limit - 1) as nat);
                (seq![record] + rest.0, rest.1)
            },
        }
    }
}

/// What reading a directory comes to: the records that the reader took, or why the
/// reply was refused.
pub open spec fn taken(handed: nat, limit: nat, error: Option<Error>) -> Result<nat, Error> {
    match error {
        Some(error) => Err(error),
        None => Ok(
            if handed <= limit {
                handed
            } else {
                limit
            },
        ),
    }
}

pub open spec fn record_views(records: Seq<DirRecord>) -> Seq<RecordView> {
    Seq::new(records.len(), |i: int| records[i]@)
}

/// What a reply holds for a reader.
pub struct Listing {
    /// The records, in order, with the first one that the reader refused.
    pub handed: Vec<DirRecord>,
    /// How many the reader took, or why the reply was refused.
    pub taken: Result<usize, Error>,
}

/// What was handed over, with one record more.
proof fn one_record_more(
    reply: Seq<u8>,
    pos: int,
    plus: bool,
    held: bool,
    limit: nat,
    sofar: Seq<RecordView>,
    record: RecordView,
)
    requires
        pos < reply.len(),
        record_at(reply, pos, plus, held) == Ok::<RecordView, Error>(record),
    ensures
        ({
            let rest = handed_over(reply, pos, plus, held, limit);
            if limit == 0 {
                sofar + rest.0 == sofar.push(record) && rest.1 is None
            } else {
                let tail = handed_over(reply, record.end, plus, held, (limit - 1) as nat);
                sofar + rest.0 == sofar.push(record) + tail.0 && rest.1 == tail.1
            }
        }),
{
    let rest = handed_over(reply, pos, plus, held, limit);
    if limit == 0 {
        assert(sofar + rest.0 =~= sofar.push(record));
    } else {
        let tail = handed_over(reply, record.end, plus, held, (limit - 1) as nat);
        assert(sofar + rest.0 =~= sofar.push(record) + tail.0);
    }
}

/// Hand the records of a reply to a reader who takes `limit` of them.  `held` says whether
/// the file system layer still holds the entry of the directory.
#[verifier::spinoff_prover]
pub fn read_records(reply: &[u8], plus: bool, held: bool, limit: usize) -> (listing: Listing)
    requires
        reply@.len() + 7 <= usize::MAX,
    ensures
        ({
            let (handed, error) = handed_over(reply@, 0, plus, held, limit as nat);
            &&& record_views(listing.handed@) == handed
            &&& match (taken(handed.len(), limit as nat, error), listing.taken) {
                (Ok(want), Ok(got)) => got == want,
                (Err(want), Err(got)) => got == want,
                _ => false,
            }
        }),
{
    let mut handed: Vec<DirRecord> = Vec::new();
    let mut pos: usize = 0;
    let ghost whole = handed_over(reply@, 0, plus, held, limit as nat);
    assert(record_views(handed@) =~= Seq::empty());
    assert(record_views(handed@) + whole.0 =~= whole.0);
    while pos < reply.len()
        invariant
            handed@.len() <= limit,
            reply@.len() + 7 <= usize::MAX,
            whole == handed_over(reply@, 0, plus, held, limit as nat),
            ({
                let rest = handed_over(reply@, pos as int, plus, held, (limit - handed@.len()) as nat);
                whole.0 == record_views(handed@) + rest.0 && whole.1 == rest.1
            }),
        decreases limit + 1 - handed@.len(),
    {
        let ghost sofar = handed@;
        let record = match read_record(reply, pos, plus, held) {
            Ok(record) => record,
            Err(error) => {
                assert(whole.0 =~= record_views(handed@));
                return Listing { handed, taken: Err(error) };
            },
        };
        let end: usize = record.end;
        let ghost view = record@;
        let full: bool = handed.len() == limit;
        handed.push(record);
        proof {
            assert(handed@ =~= sofar.push(record));
            assert(record_views(handed@) =~= record_views(sofar).push(view));
            one_record_more(
                reply@,
                pos as int,
                plus,
                held,
                (limit - sofar.len()) as nat,
                record_views(sofar),
                view,
            );
        }
        if full {
            return Listing { handed, taken: Ok(limit) };
        }
        pos = end;
    }
    assert(whole.0 =~= record_views(handed@));
    let count: usize = handed.len();
    Listing { handed, taken: Ok(count) }
}

/// Records follow each other: the next one starts behind the last, at a place that eight
/// divides.
pub proof fn law_records_advance(reply: Seq<u8>, pos: int, plus: bool, held: bool)
    requires
        0 <= pos < reply.len(),
        record_at(reply, pos, plus, held) is Ok,
    ensures
        record_at(reply, pos, plus, held)->Ok_0.end >= pos + 24,
        record_at(reply, pos, plus, held)->Ok_0.end % 8 == 0,
{
}

/// Whether a directory's contents can be made safe, under what was agreed.
pub fn supports_fsyncdir(init: Option<FuseInit>) -> (supported: bool)
    ensures
        supported == (init is Some && init->0.minor >= 2),
{
    match init {
        Some(init) => init.minor >= 2,
        None => false,
    }
}

/// Check the answer to a request that makes a directory's contents safe: it is empty.
pub fn check_fsyncdir(reply: &[u8]) -> (result: Result<(), Error>)
    ensures
        result == (if reply@.len() == 0 {
            Ok::<(), Error>(())
        } else {
            Err(Error::Io)
        }),
{
    if reply.len() == 0 {
        Ok(())
    } else {
        Err(Error::Io)
    }
}

} // verus!
