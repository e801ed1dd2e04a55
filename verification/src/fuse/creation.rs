//! Names that are made, moved and taken away.
//!
//! What a daemon has made is not taken back by its name: after a failure a later winner may
//! have that name.  A handle that came with it is given back.

use vstd::prelude::*;
use crate::bytes::{get_u64, u64_at};
use crate::error::Error;
use crate::fuse::bodies::{create_body, create_request, mkdir_body, mkdir_request, mknod_body,
    mknod_request, rename2_body, rename2_request, rename_body, rename_request};
use crate::fuse::cache::{dentry_at, dentry_at_the_end, dentry_dropped, dentry_found, dentry_kept,
    CacheView, DentryView};
use crate::fuse::connection::{after, number_of, Connection, ConnectionView};
use crate::fuse::errno::{error_of, of_errno};
use crate::fuse::metadata::{entry_of, parse_entry_out, EntryOut, NodeType};
use crate::fuse::opening::given_up;
use crate::fuse::request::{FuseReply, ReplyView, Request, RequestView};
use crate::fuse::superblock::{next, removed, renamed_in, Node, Superblock, SuperblockView};
use crate::fuse::wire::{cache_active, caches, FuseInit, FUSE_CREATE, FUSE_MKDIR, FUSE_MKNOD,
    FUSE_RENAME, FUSE_RENAME2, FUSE_RMDIR, FUSE_UNLINK};

verus! {

/// What to do before a name is made.
#[derive(Clone, Copy, Debug, PartialEq, Eq, Structural)]
pub enum CreateCheck {
    /// The name is there.
    Existing,
    Create,
    Failed(Error),
}

/// What a lookup says of a name that is to be made.
pub open spec fn create_decision(looked_up: Result<(), Error>) -> CreateCheck {
    match looked_up {
        Ok(()) => CreateCheck::Existing,
        Err(error) => if error == Error::NotFound {
            CreateCheck::Create
        } else {
            CreateCheck::Failed(error)
        },
    }
}

/// Whether a name has to be made that may be there: only if the lookup found none.  That
/// is no more than a short cut: whoever else makes the name first wins at the daemon.
pub fn check_create(looked_up: Result<(), Error>) -> (check: CreateCheck)
    ensures
        check == create_decision(looked_up),
{
    match looked_up {
        Ok(()) => CreateCheck::Existing,
        Err(error) => if error == Error::NotFound {
            CreateCheck::Create
        } else {
            CreateCheck::Failed(error)
        },
    }
}

/// The mode of a type and its permissions.
pub open spec fn full_mode(kind: NodeType, permission: u16) -> u32 {
    (kind.code() << 12) | (permission as u32)
}

/// The number of the request that makes a name, and its body.
pub open spec fn creation(kind: NodeType, permission: u16, rdev: u64, name: Seq<u8>) -> (
    u32,
    Seq<u8>,
) {
    let mode = full_mode(kind, permission);
    match kind {
        NodeType::Directory => (FUSE_MKDIR, mkdir_body(mode, name)),
        NodeType::RegularFile => (FUSE_CREATE, create_body(mode, name)),
        _ => (FUSE_MKNOD, mknod_body(mode, rdev as u32, name)),
    }
}

/// The number of the request that makes a name, and its body.
pub fn creation_request(kind: NodeType, permission: u16, rdev: u64, name: &[u8]) -> (request: (
    u32,
    Vec<u8>,
))
    ensures
        request.0 == creation(kind, permission, rdev, name@).0,
        request.1@ == creation(kind, permission, rdev, name@).1,
{
    let number: u32 = kind.number();
    assert(number << 12u32 == number << 12) by (bit_vector);
    let mode: u32 = (number << 12) | (permission as u32);
    match kind {
        NodeType::Directory => (FUSE_MKDIR, mkdir_request(mode, name)),
        NodeType::RegularFile => (FUSE_CREATE, create_request(mode, name)),
        _ => (
            FUSE_MKNOD,
            mknod_request(
                mode,
                #[verifier::truncate]
                (rdev as u32),
                name,
            ),
        ),
    }
}

/// What became of a name that is made.
#[allow(inconsistent_fields)]
pub enum CreateStep {
    Failed(Error),
    /// The name is there after all, and is to be looked up.
    Lookup,
    /// The name is made, and the kernel's own part is to be done.  A file comes with a
    /// handle.
    Install { entry: EntryOut, fh: Option<u64>, teardown: Request },
    /// The handle is to be given back, and then the whole has failed.
    ReleaseAndFail { fh: u64, error: Error, teardown: Request },
    /// The handle is to be given back, and then the whole is done.
    ReleaseAndCommit { fh: u64, teardown: Request },
    Created,
}

/// What is said of what became of a name that is made.
#[allow(inconsistent_fields)]
pub enum CreateView {
    Failed(Error),
    Lookup,
    Install { entry: EntryOut, fh: Option<u64>, teardown: RequestView },
    ReleaseAndFail { fh: u64, error: Error, teardown: RequestView },
    ReleaseAndCommit { fh: u64, teardown: RequestView },
    Created,
}

impl View for CreateStep {
    type V = CreateView;

    open spec fn view(&self) -> CreateView {
        match self {
            CreateStep::Failed(error) => CreateView::Failed(*error),
            CreateStep::Lookup => CreateView::Lookup,
            CreateStep::Install { entry, fh, teardown } => CreateView::Install {
                entry: *entry,
                fh: *fh,
                teardown: teardown@,
            },
            CreateStep::ReleaseAndFail { fh, error, teardown } => CreateView::ReleaseAndFail {
                fh: *fh,
                error: *error,
                teardown: teardown@,
            },
            CreateStep::ReleaseAndCommit { fh, teardown } => CreateView::ReleaseAndCommit {
                fh: *fh,
                teardown: teardown@,
            },
            CreateStep::Created => CreateView::Created,
        }
    }
}

/// The file system after a name in the node at `at` may have changed.
pub open spec fn published(s: SuperblockView, at: int, name: Seq<u8>) -> SuperblockView {
    SuperblockView {
        cache: dentry_dropped(s.cache, s.nodes[at].nodeid, name),
        nodes: s.nodes.update(at, renamed_in(s.nodes[at])),
        ..s
    }
}

/// What becomes of a name that is made when the daemon has answered, and the file system
/// and the connection after it.
///
/// An answer that never came may stand for a name that was made.  An error says that none
/// was; that the name is there says that somebody else's was.
pub open spec fn created(
    s: SuperblockView,
    v: ConnectionView,
    at: int,
    name: Seq<u8>,
    regular: bool,
    open_or_create: bool,
    packet: RequestView,
    reply: Result<ReplyView, Error>,
    now: u64,
) -> (CreateView, SuperblockView, ConnectionView) {
    let changed = published(s, at, name);
    match reply {
        Err(error) => (CreateView::Failed(error), changed, given_up(v, packet, false)),
        Ok(ReplyView::Cancelled) => (
            CreateView::Failed(Error::NoSuchDevice),
            changed,
            given_up(v, packet, false),
        ),
        Ok(ReplyView::Error(errno)) => if error_of(errno) == Error::AlreadyExists {
            (
                if open_or_create {
                    CreateView::Lookup
                } else {
                    CreateView::Failed(Error::AlreadyExists)
                },
                changed,
                given_up(v, packet, false),
            )
        } else {
            (CreateView::Failed(error_of(errno)), s, given_up(v, packet, false))
        },
        Ok(ReplyView::Data(data)) => if regular && data.len() < 136 {
            (CreateView::Failed(Error::Io), changed, given_up(v, packet, true))
        } else if regular && (data.len() < 144 || entry_of(data, now) is Err) {
            (
                CreateView::ReleaseAndFail {
                    fh: u64_at(data, 128),
                    error: Error::Io,
                    teardown: packet,
                },
                changed,
                v,
            )
        } else if entry_of(data, now) is Err {
            (CreateView::Failed(Error::Io), changed, given_up(v, packet, false))
        } else {
            (
                CreateView::Install {
                    entry: entry_of(data, now)->Ok_0,
                    fh: if regular {
                        Some(u64_at(data, 128))
                    } else {
                        None
                    },
                    teardown: packet,
                },
                s,
                v,
            )
        },
    }
}

/// What becomes of a name that is made when the kernel's own part is done or has failed.
pub open spec fn installed(
    s: SuperblockView,
    v: ConnectionView,
    at: int,
    name: Seq<u8>,
    fh: Option<u64>,
    packet: RequestView,
    result: Result<(), Error>,
) -> (CreateView, SuperblockView, ConnectionView) {
    let changed = published(s, at, name);
    match (result, fh) {
        (Err(error), Some(fh)) => (
            CreateView::ReleaseAndFail { fh, error, teardown: packet },
            changed,
            v,
        ),
        (Err(error), None) => (CreateView::Failed(error), changed, given_up(v, packet, false)),
        (Ok(()), Some(fh)) => (CreateView::ReleaseAndCommit { fh, teardown: packet }, s, v),
        (Ok(()), None) => (CreateView::Created, changed, given_up(v, packet, false)),
    }
}

/// A daemon's error other than that the name is there changes nothing but the slot.
pub proof fn law_a_refused_creation_changes_no_name(
    s: SuperblockView,
    v: ConnectionView,
    at: int,
    name: Seq<u8>,
    regular: bool,
    open_or_create: bool,
    packet: RequestView,
    errno: i32,
    now: u64,
)
    requires
        error_of(errno) != Error::AlreadyExists,
    ensures
        ({
            let (step, after, connection) = created(
                s,
                v,
                at,
                name,
                regular,
                open_or_create,
                packet,
                Ok(ReplyView::Error(errno)),
                now,
            );
            &&& after == s
            &&& step == CreateView::Failed(error_of(errno))
            &&& connection == given_up(v, packet, false)
        }),
{
}

/// Whatever fails after the daemon may have made a name, no name that was kept before
/// outlives it: the directory is of a new generation.
pub proof fn law_a_doubtful_creation_is_published(
    s: SuperblockView,
    v: ConnectionView,
    at: int,
    name: Seq<u8>,
    regular: bool,
    open_or_create: bool,
    packet: RequestView,
    reply: Result<ReplyView, Error>,
    now: u64,
)
    requires
        0 <= at < s.nodes.len(),
        !(reply is Ok && reply->Ok_0 is Error && error_of(reply->Ok_0->Error_0)
            != Error::AlreadyExists),
        !(created(s, v, at, name, regular, open_or_create, packet, reply, now).0 is Install),
    ensures
        created(s, v, at, name, regular, open_or_create, packet, reply, now).1.nodes[at].namespace_epoch
            == next(s.nodes[at].namespace_epoch),
{
}

impl Superblock {
    /// Note that a name in the node at `at` may have changed.
    pub fn publish_namespace_change(&mut self, at: usize, name: &[u8])
        requires
            old(self).wf(),
            at < old(self)@.nodes.len(),
        ensures
            final(self).wf(),
            final(self)@ == published(old(self)@, at as int, name@),
    {
        let mut node: Node = self.nodes[at];
        self.cache.invalidate_cached_dentry(node.nodeid, name);
        node.namespace_epoch = if node.namespace_epoch == u64::MAX {
            0
        } else {
            node.namespace_epoch + 1
        };
        self.nodes.set(at, node);
    }

    /// Take the answer to a request that makes a name.
    pub fn finish_create(
        &mut self,
        connection: &mut Connection,
        at: usize,
        name: &[u8],
        regular: bool,
        open_or_create: bool,
        teardown: Request,
        reply: Result<FuseReply, Error>,
        now: u64,
    ) -> (step: CreateStep)
        requires
            old(self).wf(),
            old(connection).wf(),
            at < old(self)@.nodes.len(),
        ensures
            final(self).wf(),
            final(connection).wf(),
            (step@, final(self)@, final(connection)@) == created(
                old(self)@,
                old(connection)@,
                at as int,
                name@,
                regular,
                open_or_create,
                teardown@,
                match reply {
                    Ok(reply) => Ok(reply@),
                    Err(error) => Err(error),
                },
                now,
            ),
    {
        match reply {
            Err(error) => {
                self.publish_namespace_change(at, name);
                connection.give_up(teardown, false);
                CreateStep::Failed(error)
            },
            Ok(FuseReply::Cancelled) => {
                self.publish_namespace_change(at, name);
                connection.give_up(teardown, false);
                CreateStep::Failed(Error::NoSuchDevice)
            },
            Ok(FuseReply::Error(errno)) => {
                let error = of_errno(errno);
                connection.give_up(teardown, false);
                if error == Error::AlreadyExists {
                    self.publish_namespace_change(at, name);
                    if open_or_create {
                        return CreateStep::Lookup;
                    }
                }
                CreateStep::Failed(error)
            },
            Ok(FuseReply::Data(data)) => {
                if regular && data.len() < 136 {
                    self.publish_namespace_change(at, name);
                    connection.give_up(teardown, true);
                    return CreateStep::Failed(Error::Io);
                }
                let fh: Option<u64> = if regular {
                    Some(get_u64(data.as_slice(), 128))
                } else {
                    None
                };
                let parsed: Option<EntryOut> = if regular && data.len() < 144 {
                    None
                } else {
                    match parse_entry_out(data.as_slice(), now) {
                        Ok(entry) => Some(entry),
                        Err(_) => None,
                    }
                };
                match parsed {
                    Some(entry) => CreateStep::Install { entry, fh, teardown },
                    None => {
                        self.publish_namespace_change(at, name);
                        match fh {
                            Some(fh) => CreateStep::ReleaseAndFail {
                                fh,
                                error: Error::Io,
                                teardown,
                            },
                            None => {
                                connection.give_up(teardown, false);
                                CreateStep::Failed(Error::Io)
                            },
                        }
                    },
                }
            },
        }
    }

    /// Say whether the kernel's own part of a name that is made is done.
    pub fn finish_install(
        &mut self,
        connection: &mut Connection,
        at: usize,
        name: &[u8],
        fh: Option<u64>,
        teardown: Request,
        result: Result<(), Error>,
    ) -> (step: CreateStep)
        requires
            old(self).wf(),
            old(connection).wf(),
            at < old(self)@.nodes.len(),
        ensures
            final(self).wf(),
            final(connection).wf(),
            (step@, final(self)@, final(connection)@) == installed(
                old(self)@,
                old(connection)@,
                at as int,
                name@,
                fh,
                teardown@,
                result,
            ),
    {
        match result {
            Err(error) => {
                self.publish_namespace_change(at, name);
                match fh {
                    Some(fh) => CreateStep::ReleaseAndFail { fh, error, teardown },
                    None => {
                        connection.give_up(teardown, false);
                        CreateStep::Failed(error)
                    },
                }
            },
            Ok(()) => match fh {
                Some(fh) => CreateStep::ReleaseAndCommit { fh, teardown },
                None => {
                    self.publish_namespace_change(at, name);
                    connection.give_up(teardown, false);
                    CreateStep::Created
                },
            },
        }
    }

    /// Say what came of giving back the handle of a name that is made.  Where that fails,
    /// the connection ends and so does the making.
    pub fn finish_commit(
        &mut self,
        connection: &mut Connection,
        at: usize,
        name: &[u8],
        teardown: Request,
        released: Result<(), Error>,
    ) -> (result: Result<(), Error>)
        requires
            old(self).wf(),
            old(connection).wf(),
            at < old(self)@.nodes.len(),
        ensures
            final(self).wf(),
            final(connection).wf(),
            result == released,
            final(self)@ == published(old(self)@, at as int, name@),
            final(connection)@ == given_up(old(connection)@, teardown@, released is Err),
    {
        self.publish_namespace_change(at, name);
        let lost = released.is_err();
        connection.give_up(teardown, lost);
        released
    }

    /// Take the answer to a lookup in the node at `at`, which was sent in its generation
    /// `epoch`.  The result is the token of the new reference.
    ///
    /// What was changed since is not kept: an old answer does not come back after the
    /// directory has moved on.  Nothing is found in a node whose entry the file system
    /// layer no longer holds, which `held` says.
    pub fn finish_lookup(
        &mut self,
        connection: &mut Connection,
        held: bool,
        at: usize,
        name: &[u8],
        epoch: u64,
        reply: &[u8],
        now: u64,
    ) -> (result: Result<(u64, EntryOut), Error>)
        requires
            old(self).wf(),
            old(connection).wf(),
            at < old(self)@.nodes.len(),
            ({
                let known = old(connection)@.known_nodes;
                lookup_answer(reply@, now, held) matches Ok(entry) ==> (known.contains_key(
                    entry.nodeid,
                ) ==> known[entry.nodeid] < u32::MAX)
            }),
        ensures
            final(self).wf(),
            final(connection).wf(),
            match (lookup_answer(reply@, now, held), result) {
                (Ok(entry), Ok(found)) => {
                    &&& found == (number_of(old(self)@.next_token), entry)
                    &&& (final(self)@, final(connection)@) == looked_up(
                        old(self)@,
                        old(connection)@,
                        at as int,
                        name@,
                        epoch,
                        entry,
                    )
                },
                (Err(error), Err(got)) => got == error && final(self)@ == old(self)@
                    && final(connection)@ == old(connection)@,
                _ => false,
            },
    {
        let entry = parse_entry_out(reply, now)?;
        if !held {
            return Err(Error::NotFound);
        }
        let ghost s = self@;
        let parent: u64 = self.nodes[at].nodeid;
        let current: u64 = self.nodes[at].namespace_epoch;
        connection.register_node(entry.nodeid);
        let token: u64 = self.insert_node(entry.nodeid, entry.metadata);
        let last: usize = self.nodes.len() - 1;
        let mut node: Node = self.nodes[last];
        node.entry_deadline = entry.entry_deadline;
        node.attr_deadline = entry.attr_deadline;
        node.metadata_valid = true;
        let ghost before = self.nodes@;
        self.nodes.set(last, node);
        assert(self.nodes@ =~= s.nodes.push(node));
        if cache_active(connection.init) && current == epoch {
            self.cache.keep_dentry(parent, name, token, entry.entry_deadline, epoch);
        }
        Ok((token, entry))
    }

    /// What a name in the node at `at` stands for, if that is known.
    pub fn lookup_cached(&self, active: bool, at: usize, name: &[u8], now: u64) -> (entry: Option<u64>)
        requires
            at < self@.nodes.len(),
        ensures
            entry == (if active {
                kept_name(self@, at as int, name@, now)
            } else {
                None
            }),
    {
        if !active {
            return None;
        }
        let found: Option<u64> = self.cache.cached_dentry(
            self.nodes[at].nodeid,
            name,
            self.nodes[at].namespace_epoch,
            now,
        );
        let token: u64 = found?;
        let mut i: usize = 0;
        while i < self.nodes.len()
            invariant
                i <= self.nodes@.len(),
                active,
                dentry_found(
                    self@.cache,
                    self@.nodes[at as int].nodeid,
                    name@,
                    self@.nodes[at as int].namespace_epoch,
                    now,
                ) == Some(token),
                forall|j: int| 0 <= j < i ==> (#[trigger] self.nodes@[j]).token != token,
            decreases self.nodes@.len() - i,
        {
            if self.nodes[i].token == token {
                assert(is_referenced(self@.nodes, token)) by {
                    assert(self@.nodes[i as int].token == token);
                }
                return Some(token);
            }
            i = i + 1;
        }
        None
    }

    /// Note that a name was moved from the node at `from` to that at `to`.
    pub fn finish_rename(&mut self, from: usize, from_name: &[u8], to: usize, to_name: &[u8])
        requires
            old(self).wf(),
            from < old(self)@.nodes.len(),
            to < old(self)@.nodes.len(),
        ensures
            final(self).wf(),
            final(self)@ == published(
                published(old(self)@, from as int, from_name@),
                to as int,
                to_name@,
            ),
    {
        self.publish_namespace_change(from, from_name);
        self.publish_namespace_change(to, to_name);
    }

    /// Note that a name in the node at `at` was taken away.
    pub fn finish_unlink(&mut self, at: usize, name: &[u8])
        requires
            old(self).wf(),
            at < old(self)@.nodes.len(),
        ensures
            final(self).wf(),
            final(self)@ == (SuperblockView {
                cache: dentry_dropped(
                    old(self)@.cache,
                    old(self)@.nodes[at as int].nodeid,
                    name@,
                ),
                ..old(self)@
            }),
    {
        self.cache.invalidate_cached_dentry(self.nodes[at].nodeid, name);
    }
}

/// Whether a reference is still there.
pub open spec fn is_referenced(nodes: Seq<Node>, token: u64) -> bool {
    exists|i: int| 0 <= i < nodes.len() && (#[trigger] nodes[i]).token == token
}

/// What a name in the node at `at` stands for, where that is known and the reference is
/// still there.
pub open spec fn kept_name(s: SuperblockView, at: int, name: Seq<u8>, now: u64) -> Option<u64> {
    match dentry_found(s.cache, s.nodes[at].nodeid, name, s.nodes[at].namespace_epoch, now) {
        Some(token) => if is_referenced(s.nodes, token) {
            Some(token)
        } else {
            None
        },
        None => None,
    }
}

/// What the answer to a lookup says is there.  Nothing is, below a node whose entry is no
/// longer held.
pub open spec fn lookup_answer(reply: Seq<u8>, now: u64, held: bool) -> Result<EntryOut, Error> {
    if entry_of(reply, now) is Ok && !held {
        Err(Error::NotFound)
    } else {
        entry_of(reply, now)
    }
}

/// The file system and the connection after a name was looked up.
pub open spec fn looked_up(
    s: SuperblockView,
    v: ConnectionView,
    at: int,
    name: Seq<u8>,
    epoch: u64,
    entry: EntryOut,
) -> (SuperblockView, ConnectionView) {
    let token = number_of(s.next_token);
    let known = v.known_nodes;
    (
        SuperblockView {
            nodes: s.nodes.push(
                Node {
                    token,
                    nodeid: entry.nodeid,
                    metadata: entry.metadata,
                    metadata_valid: true,
                    attr_deadline: entry.attr_deadline,
                    entry_deadline: entry.entry_deadline,
                    namespace_epoch: 1,
                },
            ),
            next_token: after(s.next_token),
            cache: if caches(v.init) && s.nodes[at].namespace_epoch == epoch {
                dentry_kept(
                    s.cache,
                    DentryView {
                        parent: s.nodes[at].nodeid,
                        name,
                        entry: token,
                        deadline: entry.entry_deadline,
                        epoch,
                    },
                )
            } else {
                s.cache
            },
            ..s
        },
        ConnectionView {
            known_nodes: known.insert(
                entry.nodeid,
                if known.contains_key(entry.nodeid) {
                    (known[entry.nodeid] + 1) as u32
                } else {
                    1
                },
            ),
            ..v
        },
    )
}

/// Whether a daemon knows the newer form of moving names.
pub open spec fn knows_rename2(init: Option<FuseInit>) -> bool {
    init is Some && init->0.minor >= 23
}

/// Whether a daemon can exchange names, or leave a mark where one was.
pub fn supports_rename_flags(init: Option<FuseInit>) -> (supported: bool)
    ensures
        supported == knows_rename2(init),
{
    match init {
        Some(init) => init.minor >= 23,
        None => false,
    }
}

/// The number and the body of the request that moves a name, or why there is none.
pub open spec fn rename_asked(
    init: Option<FuseInit>,
    same_file_system: bool,
    directory: u64,
    flags: u32,
    from: Seq<u8>,
    to: Seq<u8>,
) -> Result<(u32, Seq<u8>), Error> {
    if !same_file_system {
        Err(Error::CrossesDevices)
    } else if knows_rename2(init) {
        Ok((FUSE_RENAME2, rename2_body(directory, flags, from, to)))
    } else if flags == 0 {
        Ok((FUSE_RENAME, rename_body(directory, from, to)))
    } else {
        Err(Error::OperationNotSupported)
    }
}

/// The request that moves a name, in the newest form that the daemon knows.  A daemon that
/// does not know the newer form cannot be asked for more than a plain move.
pub fn rename_plan(
    init: Option<FuseInit>,
    same_file_system: bool,
    directory: u64,
    flags: u32,
    from: &[u8],
    to: &[u8],
) -> (result: Result<(u32, Vec<u8>), Error>)
    ensures
        match (
            rename_asked(init, same_file_system, directory, flags, from@, to@),
            result,
        ) {
            (Ok(want), Ok(got)) => got.0 == want.0 && got.1@ == want.1,
            (Err(want), Err(got)) => got == want,
            _ => false,
        },
{
    if !same_file_system {
        return Err(Error::CrossesDevices);
    }
    if supports_rename_flags(init) {
        Ok((FUSE_RENAME2, rename2_request(directory, flags, from, to)))
    } else if flags == 0 {
        Ok((FUSE_RENAME, rename_request(directory, from, to)))
    } else {
        Err(Error::OperationNotSupported)
    }
}

/// The number of the request that takes a name away.
pub open spec fn unlink_number(is_dir: bool) -> u32 {
    if is_dir {
        FUSE_RMDIR
    } else {
        FUSE_UNLINK
    }
}

/// The number of the request that takes a name away.
pub fn unlink_opcode(is_dir: bool) -> (opcode: u32)
    ensures
        opcode == unlink_number(is_dir),
{
    if is_dir {
        FUSE_RMDIR
    } else {
        FUSE_UNLINK
    }
}

/// Whether a name of a type can be made.
pub open spec fn can_be_made(kind: NodeType) -> bool {
    !(kind is Unknown || kind is Symlink)
}

/// Whether a name of a type can be made.  Symbolic links are made by a request of their
/// own.
pub fn supports_named_create(kind: NodeType) -> (supported: bool)
    ensures
        supported == can_be_made(kind),
{
    match kind {
        NodeType::Unknown => false,
        NodeType::Symlink => false,
        _ => true,
    }
}

/// A reference that was dropped is no longer found by a name.
pub proof fn law_a_dropped_reference_has_no_name(
    s: SuperblockView,
    dropped: int,
    at: int,
    name: Seq<u8>,
    now: u64,
)
    requires
        0 <= dropped < s.nodes.len(),
        0 <= at < s.nodes.len() - 1,
        forall|i: int|
            0 <= i < s.nodes.len() && i != dropped ==> (#[trigger] s.nodes[i]).token
                != s.nodes[dropped].token,
    ensures
        kept_name(removed(s, dropped), at, name, now) != Some(s.nodes[dropped].token),
{
    let left = removed(s, dropped).nodes;
    assert forall|i: int| 0 <= i < left.len() implies (#[trigger] left[i]).token
        != s.nodes[dropped].token by {
        if i < dropped {
            assert(left[i] == s.nodes[i]);
        } else {
            assert(left[i] == s.nodes[i + 1]);
        }
    }
}

/// A name that an older generation of a directory kept is not found.
pub proof fn law_old_names_are_not_found(
    c: CacheView,
    parent: u64,
    name: Seq<u8>,
    entry: u64,
    deadline: u64,
    epoch: u64,
    later: u64,
    now: u64,
)
    requires
        epoch != later,
        dentry_at(c.dentries, parent, name) >= c.dentries.len(),
    ensures
        dentry_found(
            dentry_kept(c, (DentryView { parent, name, entry, deadline, epoch })),
            parent,
            name,
            later,
            now,
        ) is None,
{
    let new = DentryView { parent, name, entry, deadline, epoch };
    let after = dentry_kept(c, new);
    if after.dentries != c.dentries {
        dentry_at_the_end(c.dentries, new);
    }
}

} // verus!
