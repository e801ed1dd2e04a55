//! What can be done to the names in a directory.

use vstd::prelude::*;
use crate::bytes::to_vec;
use crate::cgroup::collections::{child_map, inode_set, ChildMap};
use crate::cgroup::files::{control_file_named, named, visible};
use crate::cgroup::forest::{acyclic, admissible, below, bounded, depth, ends, links_agree, parent_of, reaches,
    version, walk_ends, CgroupVersion, DirView, Forest, Hierarchy, MetadataUpdate, NodeMetadata,
    MAX_CGROUP_DEPTH};
use crate::cgroup::namespace::{below_later, epoch_after, fewer_finds, fewer_steps,
    found_before_the_end, fresh, linked_in, linked_out, new_dir, one_gave_out, pushed_stays,
    room_error, same_walks, Entry, MAX_CGROUP_CHILDREN, MAX_NAME_LEN};
use crate::error::Error;
use crate::fuse::metadata::NodeType;

verus! {

/// What is asked of a new entry.
#[derive(Clone, Copy, Debug, PartialEq, Eq)]
pub struct NamedCreateOptions {
    pub directory: bool,
    pub device: bool,
    pub permission: u16,
    pub owner: Option<(u32, u32)>,
}

/// What a name in `p` leads to.
pub open spec fn looked_up(hs: Seq<Hierarchy>, ds: Seq<DirView>, p: int, name: Seq<u8>) -> Option<
    Entry,
> {
    if ds[p].children.contains_key(name) {
        Some(Entry::Dir(ds[p].children[name]))
    } else {
        match named(name) {
            Some(file) => if visible(hs, ds, p, file) {
                Some(Entry::File(p as usize, file))
            } else {
                None
            },
            None => None,
        }
    }
}

/// What a request for a new entry finds before anything is made: an entry that is
/// there already, a refusal, or nothing.  Nothing is made in a directory whose own
/// entry the file system layer no longer holds.
pub open spec fn create_check(
    hs: Seq<Hierarchy>,
    ds: Seq<DirView>,
    held: bool,
    p: int,
    name: Seq<u8>,
    options: NamedCreateOptions,
    exclusive: bool,
) -> Result<Option<Entry>, Error> {
    if name.len() > MAX_NAME_LEN {
        Err(Error::NameTooLong)
    } else if name.contains(10u8) {
        Err(Error::InvalidInput)
    } else if ds[p].children.contains_key(name) || named(name) is Some {
        if exclusive {
            Err(Error::AlreadyExists)
        } else {
            match looked_up(hs, ds, p, name) {
                Some(entry) => Ok(Some(entry)),
                None => Err(Error::NotFound),
            }
        }
    } else if !options.directory || options.device {
        Err(Error::OperationNotPermitted)
    } else if !ends(ds, p, 257) || depth(ds, p, 257) >= MAX_CGROUP_DEPTH {
        Err(Error::FilesystemLoop)
    } else if ds[p].children.dom().len() >= MAX_CGROUP_CHILDREN {
        Err(Error::NoMemory)
    } else if !held {
        Err(Error::InvalidInput)
    } else {
        Ok(None)
    }
}

/// The metadata of a new directory.
pub open spec fn created_metadata(options: NamedCreateOptions, now: u64) -> NodeMetadata {
    NodeMetadata {
        mode: options.permission,
        uid: match options.owner {
            Some(owner) => owner.0,
            None => 0,
        },
        gid: match options.owner {
            Some(owner) => owner.1,
            None => 0,
        },
        rdev: 0,
        atime: now,
        mtime: now,
        ctime: now,
    }
}

/// Why a directory cannot be removed.
pub open spec fn unlink_error(
    ds: Seq<DirView>,
    p: int,
    name: Seq<u8>,
    expected: Option<Entry>,
    is_dir: bool,
) -> Option<Error> {
    let c = ds[p].children[name];
    if named(name) is Some {
        Some(Error::OperationNotPermitted)
    } else if !ds[p].children.contains_key(name) {
        Some(Error::NotFound)
    } else if expected is Some && expected->0 != Entry::Dir(c) {
        Some(Error::NotFound)
    } else if !is_dir {
        Some(Error::IsADirectory)
    } else if ds[c as int].children.dom() != Set::<Seq<u8>>::empty() {
        Some(Error::DirectoryNotEmpty)
    } else if ds[c as int].pids.dom() != Set::<u64>::empty() {
        Some(Error::ResourceBusy)
    } else {
        None
    }
}

/// The directories after `name` was removed from `p`.
pub open spec fn unlinked(ds: Seq<DirView>, p: int, name: Seq<u8>, now: u64) -> Seq<DirView> {
    let c = ds[p].children[name] as int;
    linked_out(ds, p, name, now).update(c, DirView { linked: false, ..ds[c] })
}

/// The directories after `p` came to name `c`.
pub open spec fn published(ds: Seq<DirView>, p: int, name: Seq<u8>, c: usize, now: u64) -> Seq<
    DirView,
> {
    linked_in(ds, p, name, c, now).update(
        c as int,
        DirView { linked: true, name, ..ds[c as int] },
    )
}

/// A new directory on its way into `p`.
pub open spec fn is_prepared(ds: Seq<DirView>, p: int, c: int) -> bool {
    &&& 0 <= p < ds.len()
    &&& 0 <= c < ds.len()
    &&& p != c
    &&& ds[p].live
    &&& ds[c].live
    &&& !ds[c].linked
    &&& ds[c].parent == Some(p as usize)
    &&& ds[c].children == Map::<Seq<u8>, usize>::empty()
    &&& ds[c].hierarchy == ds[p].hierarchy
}

pub(crate) fn has_newline(name: &[u8]) -> (found: bool)
    ensures
        found == name@.contains(10u8),
{
    let mut index: usize = 0;
    while index < name.len()
        invariant
            index <= name@.len(),
            forall|i: int| 0 <= i < index ==> name@[i] != 10u8,
        decreases name@.len() - index,
    {
        if name[index] == 10 {
            assert(name@[index as int] == 10u8);
            return true;
        }
        index = index + 1;
    }
    false
}

pub(crate) fn next_epoch(epoch: u64) -> (next: u64)
    ensures
        next == epoch_after(epoch),
{
    if epoch == u64::MAX {
        0
    } else {
        epoch + 1
    }
}

/// Whether a directory with these children takes one more, or one that it holds
/// already under another name.
pub fn try_reserve_cgroup_child_slot(children: &ChildMap, limit: usize, grows: bool) -> (result:
    Result<(), Error>)
    ensures
        result == (if grows && child_map(*children).dom().len() >= limit {
            Err::<(), Error>(Error::NoMemory)
        } else {
            Ok::<(), Error>(())
        }),
{
    if grows && children.len() >= limit {
        return Err(Error::NoMemory);
    }
    Ok(())
}

impl Forest {
    /// Whether entries of this type can be made: only directories can.
    pub fn supports_named_create(&self, node_type: NodeType) -> (supported: bool)
        ensures
            supported == (node_type == NodeType::Directory),
    {
        node_type == NodeType::Directory
    }

    /// Directories can be removed.
    pub fn supports_rmdir(&self) -> (supported: bool)
        ensures
            supported,
    {
        true
    }

    /// Whether the directories of `x`'s hierarchy can be renamed.
    pub fn supports_rename(&self, x: usize) -> (supported: bool)
        requires
            self.indexed(),
            x < self@.len(),
        ensures
            supported == (version(self.hierarchies@, self@, x as int) == CgroupVersion::V1),
    {
        self.version_of(x) == CgroupVersion::V1
    }

    /// What a name in `p` leads to.
    pub fn lookup(&self, p: usize, name: &[u8]) -> (result: Result<Entry, Error>)
        requires
            self.indexed(),
            p < self@.len(),
        ensures
            result == (match looked_up(self.hierarchies@, self@, p as int, name@) {
                Some(entry) => Ok(entry),
                None => Err(Error::NotFound),
            }),
    {
        assert(self.dirs@[p as int]@ == self@[p as int]);
        if let Some(c) = self.dirs[p].children.get(name) {
            return Ok(Entry::Dir(c));
        }
        if let Some(file) = control_file_named(name) {
            if self.control_file_visible(p, file) {
                return Ok(Entry::File(p, file));
            }
        }
        Err(Error::NotFound)
    }

    pub(crate) fn link_child(&mut self, p: usize, name: Vec<u8>, c: usize, now: u64)
        requires
            p < old(self)@.len(),
        ensures
            final(self)@ == linked_in(old(self)@, p as int, name@, c, now),
            final(self).hierarchies == old(self).hierarchies,
    {
        let ghost bytes = name@;
        assert(self.dirs@[p as int]@ == self@[p as int]);
        let epoch: u64 = next_epoch(self.dirs[p].namespace_epoch);
        self.dirs[p].children.insert(name, c);
        self.dirs[p].namespace_epoch = epoch;
        self.dirs[p].metadata.mtime = now;
        self.dirs[p].metadata.ctime = now;
        assert(self@ =~= linked_in(old(self)@, p as int, bytes, c, now));
    }

    pub(crate) fn unlink_child(&mut self, p: usize, name: &[u8], now: u64)
        requires
            p < old(self)@.len(),
        ensures
            final(self)@ == linked_out(old(self)@, p as int, name@, now),
            final(self).hierarchies == old(self).hierarchies,
    {
        assert(self.dirs@[p as int]@ == self@[p as int]);
        let epoch: u64 = next_epoch(self.dirs[p].namespace_epoch);
        self.dirs[p].children.remove(name);
        self.dirs[p].namespace_epoch = epoch;
        self.dirs[p].metadata.mtime = now;
        self.dirs[p].metadata.ctime = now;
        assert(self@ =~= linked_out(old(self)@, p as int, name@, now));
    }

    pub(crate) fn set_link(&mut self, x: usize, linked: bool, name: Vec<u8>)
        requires
            x < old(self)@.len(),
        ensures
            final(self)@ == old(self)@.update(
                x as int,
                DirView { linked, name: name@, ..old(self)@[x as int] },
            ),
            final(self).hierarchies == old(self).hierarchies,
    {
        let ghost bytes = name@;
        self.dirs[x].linked = linked;
        self.dirs[x].name = name;
        assert(self@ =~= old(self)@.update(
            x as int,
            DirView { linked, name: bytes, ..old(self)@[x as int] },
        ));
    }

    /// What a request for a new entry finds before anything is made.  `held` says
    /// whether the file system layer still holds the entry of `p`.
    pub fn check_create(
        &self,
        held: bool,
        p: usize,
        name: &[u8],
        options: NamedCreateOptions,
        exclusive: bool,
    ) -> (result: Result<Option<Entry>, Error>)
        requires
            self.indexed(),
            p < self@.len(),
        ensures
            result == create_check(
                self.hierarchies@,
                self@,
                held,
                p as int,
                name@,
                options,
                exclusive,
            ),
    {
        if name.len() > MAX_NAME_LEN {
            return Err(Error::NameTooLong);
        }
        if has_newline(name) {
            return Err(Error::InvalidInput);
        }
        assert(self.dirs@[p as int]@ == self@[p as int]);
        if self.dirs[p].children.get(name).is_some() || control_file_named(name).is_some() {
            if exclusive {
                return Err(Error::AlreadyExists);
            }
            return match self.lookup(p, name) {
                Ok(entry) => Ok(Some(entry)),
                Err(_) => Err(Error::NotFound),
            };
        }
        if !options.directory || options.device {
            return Err(Error::OperationNotPermitted);
        }
        match self.hierarchy_depth(p) {
            Ok(depth) => {
                if depth >= MAX_CGROUP_DEPTH {
                    return Err(Error::FilesystemLoop);
                }
            },
            Err(_) => {
                return Err(Error::FilesystemLoop);
            },
        }
        match try_reserve_cgroup_child_slot(&self.dirs[p].children, MAX_CGROUP_CHILDREN, true) {
            Ok(()) => if held {
                Ok(None)
            } else {
                Err(Error::InvalidInput)
            },
            Err(error) => Err(error),
        }
    }

    /// Make a directory below `p` that no name leads to yet.
    pub fn try_new_dir(&mut self, p: usize, options: NamedCreateOptions, now: u64) -> (result: Result<
        usize,
        Error,
    >)
        requires
            old(self).wf(),
            p < old(self)@.len(),
            old(self)@[p as int].live,
            old(self)@.len() < usize::MAX,
        ensures
            final(self).wf(),
            one_gave_out(
                old(self).hierarchies@,
                final(self).hierarchies@,
                old(self)@[p as int].hierarchy as int,
            ),
            ({
                let h = old(self)@[p as int].hierarchy;
                let hierarchy = old(self).hierarchies@[h as int];
                match (room_error(hierarchy), result) {
                    (None, Ok(c)) => {
                        &&& c == old(self)@.len()
                        &&& final(self)@ == old(self)@.push(
                            fresh(
                                h,
                                hierarchy.next_inode,
                                Some(p),
                                false,
                                created_metadata(options, now),
                            ),
                        )
                        &&& is_prepared(final(self)@, p as int, c as int)
                    },
                    (Some(expected), Err(error)) => error == expected && final(self)@
                        == old(self)@,
                    _ => false,
                }
            }),
    {
        assert(self.dirs@[p as int]@ == self@[p as int]);
        let h: usize = self.dirs[p].hierarchy;
        let ghost before = *self;
        assert forall|inode: u64| #[trigger]
            inode_set(self.hierarchies@[h as int].inodes).contains(
                inode,
            ) implies inode < self.hierarchies@[h as int].next_inode by {}
        let first: u64 = match self.alloc_inodes(h) {
            Ok(first) => first,
            Err(error) => {
                proof {
                    assert(self@ =~= before@);
                    still_rooted(before, *self, h as int);
                }
                return Err(error);
            },
        };
        let c: usize = self.dirs.len();
        let mut metadata = NodeMetadata::new(0o755, now);
        metadata.update(
            MetadataUpdate {
                mode: Some(options.permission),
                owner: options.owner,
                rdev: None,
                atime: None,
                mtime: None,
                ctime: None,
            },
            now,
        );
        let dir = new_dir(h, first, Some(p), false, metadata);
        let ghost view = dir@;
        proof {
            assert(self@ =~= before@);
        }
        self.push_dir(dir);
        proof {
            pushed_stays(before@, view);
            assert(self@ == before@.push(view));
            assert forall|x: int, name: Seq<u8>|
                #![trigger self@[x].children.contains_key(name)]
                0 <= x < self@.len() && self@[x].children.contains_key(name) implies self@[x].children[name]
                < self@.len() by {
                if x < c {
                    assert(before@[x].children.contains_key(name));
                }
            }
            assert forall|x: int| 0 <= x < self@.len() implies (#[trigger] self@[x]).hierarchy
                < self.hierarchies@.len() && (self@[x].parent matches Some(q) ==> q
                < self@.len()) by {
                if x < c {
                    assert(before@[x] == self@[x]);
                }
            }
            still_rooted(before, *self, h as int);
        }
        Ok(c)
    }

    /// Let a name in `p` lead to a directory that was made for it.
    pub fn publish_child(&mut self, p: usize, name: &[u8], c: usize, now: u64)
        requires
            old(self).wf(),
            is_prepared(old(self)@, p as int, c as int),
            !old(self)@[p as int].children.contains_key(name@),
            admissible(name@),
            ends(old(self)@, p as int, 257),
            depth(old(self)@, p as int, 257) < MAX_CGROUP_DEPTH,
        ensures
            final(self).wf(),
            final(self)@ == published(old(self)@, p as int, name@, c, now),
            final(self).hierarchies == old(self).hierarchies,
    {
        let ghost before = *self;
        let count: usize = self.dirs.len();
        assert(before@.len() == count);
        self.link_child(p, to_vec(name), c, now);
        self.set_link(c, true, to_vec(name));
        assert(self@ =~= published(before@, p as int, name@, c, now));
        proof {
            publishing_keeps_links(before@, p as int, name@, c, now);
            let ds = before@;
            let after = self@;
            assert forall|x: int, n: Seq<u8>|
                #![trigger after[x].children.contains_key(n)]
                0 <= x < after.len() && after[x].children.contains_key(n) implies after[x].children[n]
                < after.len() by {
                if !(x == p && n == name@) {
                    assert(ds[x].children.contains_key(n));
                }
            }
            assert forall|x: int| 0 <= x < after.len() implies (#[trigger] after[x]).hierarchy
                < self.hierarchies@.len() && (after[x].parent matches Some(q) ==> q
                < after.len()) by {
                assert(ds[x].hierarchy < before.hierarchies@.len());
            }
            assert forall|g: int| 0 <= g < self.hierarchies@.len() implies {
                let at = (#[trigger] self.hierarchies@[g]).root;
                &&& at < self@.len()
                &&& self@[at as int].hierarchy == g
                &&& self@[at as int].parent is None
                &&& self@[at as int].linked
            } by {
                assert(before.hierarchies@[g] == self.hierarchies@[g]);
            }
        }
    }

    /// Make a directory, or find what is there under its name.  The result says
    /// what the name leads to, and whether it was made.  `held` says whether the file
    /// system layer still holds the entry of `p`.
    pub fn create_named(
        &mut self,
        held: bool,
        p: usize,
        name: &[u8],
        options: NamedCreateOptions,
        exclusive: bool,
        now: u64,
    ) -> (result: Result<(Entry, bool), Error>)
        requires
            old(self).wf(),
            p < old(self)@.len(),
            old(self)@[p as int].live,
            old(self)@.len() < usize::MAX,
        ensures
            final(self).wf(),
            ({
                let h = old(self)@[p as int].hierarchy;
                let hierarchy = old(self).hierarchies@[h as int];
                match create_check(
                    old(self).hierarchies@,
                    old(self)@,
                    held,
                    p as int,
                    name@,
                    options,
                    exclusive,
                ) {
                    Err(expected) => {
                        &&& result is Err && result->Err_0 == expected
                        &&& *final(self) == *old(self)
                    },
                    Ok(Some(entry)) => {
                        &&& result is Ok && result->Ok_0 == (entry, false)
                        &&& *final(self) == *old(self)
                    },
                    Ok(None) => {
                        &&& one_gave_out(
                            old(self).hierarchies@,
                            final(self).hierarchies@,
                            h as int,
                        )
                        &&& match (room_error(hierarchy), result) {
                            (None, Ok(made)) => {
                                &&& made == (Entry::Dir(old(self)@.len() as usize), true)
                                &&& final(self)@ == published(
                                    old(self)@.push(
                                        fresh(
                                            h,
                                            hierarchy.next_inode,
                                            Some(p),
                                            false,
                                            created_metadata(options, now),
                                        ),
                                    ),
                                    p as int,
                                    name@,
                                    old(self)@.len() as usize,
                                    now,
                                )
                            },
                            (Some(expected), Err(error)) => error == expected && final(self)@
                                == old(self)@,
                            _ => false,
                        }
                    },
                }
            }),
    {
        match self.check_create(held, p, name, options, exclusive) {
            Err(error) => {
                return Err(error);
            },
            Ok(Some(entry)) => {
                return Ok((entry, false));
            },
            Ok(None) => {},
        }
        let ghost ds = self@;
        match self.try_new_dir(p, options, now) {
            Ok(c) => {
                proof {
                    same_walks(ds, self@, p as int, 257);
                }
                self.publish_child(p, name, c, now);
                Ok((Entry::Dir(c), true))
            },
            Err(error) => Err(error),
        }
    }

    /// Remove an empty directory without members.
    pub fn unlink(
        &mut self,
        p: usize,
        name: &[u8],
        expected: Option<Entry>,
        is_dir: bool,
        now: u64,
    ) -> (result: Result<(), Error>)
        requires
            old(self).wf(),
            p < old(self)@.len(),
        ensures
            final(self).wf(),
            final(self).hierarchies == old(self).hierarchies,
            match (unlink_error(old(self)@, p as int, name@, expected, is_dir), result) {
                (None, Ok(())) => final(self)@ == unlinked(old(self)@, p as int, name@, now),
                (Some(expected_error), Err(error)) => error == expected_error && final(self)@
                    == old(self)@,
                _ => false,
            },
    {
        if control_file_named(name).is_some() {
            return Err(Error::OperationNotPermitted);
        }
        assert(self.dirs@[p as int]@ == self@[p as int]);
        let c: usize = match self.dirs[p].children.get(name) {
            Some(c) => c,
            None => {
                return Err(Error::NotFound);
            },
        };
        assert(self@[p as int].children.contains_key(name@));
        if let Some(entry) = expected {
            if entry != Entry::Dir(c) {
                return Err(Error::NotFound);
            }
        }
        if !is_dir {
            return Err(Error::IsADirectory);
        }
        assert(self.dirs@[c as int]@ == self@[c as int]);
        if !self.dirs[c].children.is_empty() {
            return Err(Error::DirectoryNotEmpty);
        }
        if !self.dirs[c].pids.is_empty() {
            return Err(Error::ResourceBusy);
        }
        let ghost before = *self;
        let count: usize = self.dirs.len();
        assert(before@.len() == count);
        proof {
            not_its_own_parent(before@, p as int, name@);
        }
        self.unlink_child(p, name, now);
        assert(self@.len() == before@.len());
        assert(self.dirs@[c as int]@ == self@[c as int]);
        let kept = to_vec(self.dirs[c].name.as_slice());
        self.set_link(c, false, kept);
        assert(self@ =~= unlinked(before@, p as int, name@, now));
        proof {
            unlinking_keeps_links(before@, p as int, name@, now);
            let ds = before@;
            let after = self@;
            assert forall|x: int, n: Seq<u8>|
                #![trigger after[x].children.contains_key(n)]
                0 <= x < after.len() && after[x].children.contains_key(n) implies after[x].children[n]
                < after.len() by {
                assert(ds[x].children.contains_key(n));
            }
            assert forall|x: int| 0 <= x < after.len() implies (#[trigger] after[x]).hierarchy
                < self.hierarchies@.len() && (after[x].parent matches Some(q) ==> q
                < after.len()) by {
                assert(ds[x].hierarchy < before.hierarchies@.len());
            }
            assert forall|g: int| 0 <= g < self.hierarchies@.len() implies {
                let at = (#[trigger] self.hierarchies@[g]).root;
                &&& at < self@.len()
                &&& self@[at as int].hierarchy == g
                &&& self@[at as int].parent is None
                &&& self@[at as int].linked
            } by {
                assert(before.hierarchies@[g] == self.hierarchies@[g]);
            }
        }
        Ok(())
    }
}

/// No table names its own directory.
pub proof fn not_its_own_parent(ds: Seq<DirView>, p: int, name: Seq<u8>)
    requires
        links_agree(ds),
        acyclic(ds),
        0 <= p < ds.len(),
        ds[p].children.contains_key(name),
        ds[p].children[name] < ds.len(),
    ensures
        ds[p].children[name] != p,
{
    if ds[p].children[name] == p {
        assert(ds[p].live && ds[p].parent == Some(p as usize));
        assert(walk_ends(ds, p));
        let steps = choose|steps: nat| #[trigger] ends(ds, p, steps);
        loops_forever(ds, p, steps);
    }
}

proof fn loops_forever(ds: Seq<DirView>, x: int, k: nat)
    requires
        parent_of(ds, x) == Some(x),
    ensures
        !ends(ds, x, k),
    decreases k,
{
    if k > 0 {
        loops_forever(ds, x, (k - 1) as nat);
    }
}

/// A walk ends one directory after its depth.
pub proof fn ends_at_depth(ds: Seq<DirView>, x: int, k: nat)
    requires
        ends(ds, x, k),
    ensures
        ends(ds, x, (depth(ds, x, k) + 1) as nat),
        0 <= depth(ds, x, k) < k,
    decreases k,
{
    match parent_of(ds, x) {
        Some(p) => ends_at_depth(ds, p, (k - 1) as nat),
        None => {},
    }
}

/// A walk that ends shows no more in more steps.
pub proof fn walk_settles(ds: Seq<DirView>, x: int, k: nat, more: nat)
    requires
        ends(ds, x, k),
        k <= more,
    ensures
        ends(ds, x, more),
        depth(ds, x, more) == depth(ds, x, k),
        forall|a: int| #[trigger] reaches(ds, x, a, more) == reaches(ds, x, a, k),
    decreases k,
{
    match parent_of(ds, x) {
        Some(p) => {
            walk_settles(ds, p, (k - 1) as nat, (more - 1) as nat);
            assert forall|a: int| #[trigger] reaches(ds, x, a, more) == reaches(ds, x, a, k) by {
                assert(reaches(ds, p, a, (more - 1) as nat) == reaches(ds, p, a, (k - 1) as nat));
            }
        },
        None => {},
    }
}

proof fn still_rooted(before: Forest, after: Forest, h: int)
    requires
        before.rooted(),
        one_gave_out(before.hierarchies@, after.hierarchies@, h),
        0 <= h < before.hierarchies@.len(),
        after@.len() >= before@.len(),
        forall|x: int| 0 <= x < before@.len() ==> #[trigger] after@[x] == before@[x],
    ensures
        after.rooted(),
{
    assert forall|g: int| 0 <= g < after.hierarchies@.len() implies {
        let at = (#[trigger] after.hierarchies@[g]).root;
        &&& at < after@.len()
        &&& after@[at as int].hierarchy == g
        &&& after@[at as int].parent is None
        &&& after@[at as int].linked
    } by {
        assert(after.hierarchies@[g].root == before.hierarchies@[g].root);
    }
    assert forall|g: int, inode: u64|
        #![trigger inode_set(after.hierarchies@[g].inodes).contains(inode)]
        0 <= g < after.hierarchies@.len() && inode_set(
            after.hierarchies@[g].inodes,
        ).contains(inode) implies inode < after.hierarchies@[g].next_inode by {
        if g != h {
            assert(after.hierarchies@[g] == before.hierarchies@[g]);
        }
        if inode_set(before.hierarchies@[g].inodes).contains(inode) {
            assert(inode < before.hierarchies@[g].next_inode);
        }
    }
}

proof fn publishing_keeps_links(ds: Seq<DirView>, p: int, name: Seq<u8>, c: usize, now: u64)
    requires
        links_agree(ds),
        acyclic(ds),
        bounded(ds),
        forall|y: int|
            #![trigger ds[y]]
            0 <= y < ds.len() ==> (ds[y].parent matches Some(q) ==> q < ds.len()),
        forall|x: int, n: Seq<u8>|
            #![trigger ds[x].children.contains_key(n)]
            0 <= x < ds.len() && ds[x].children.contains_key(n) ==> ds[x].children[n] < ds.len(),
        is_prepared(ds, p, c as int),
        !ds[p].children.contains_key(name),
        admissible(name),
        ends(ds, p, 257),
        depth(ds, p, 257) < MAX_CGROUP_DEPTH,
        ds.len() <= usize::MAX,
    ensures
        links_agree(published(ds, p, name, c, now)),
        acyclic(published(ds, p, name, c, now)),
        bounded(published(ds, p, name, c, now)),
{
    let after = published(ds, p, name, c, now);
    fewer_steps(ds, after);
    assert forall|x: int, a: int, steps: nat|
        0 <= x < after.len() && #[trigger] below(after, x, a, steps) implies below(
        after,
        x,
        a,
        257,
    ) by {
        if x == c && a != c {
            assert(parent_of(after, x) == Some(p));
            found_without(ds, after, c as int, p, a, (steps - 1) as nat);
            found_before_the_end(ds, p, a, (steps - 1) as nat, 257);
            ends_at_depth(ds, p, 257);
            found_before_the_end(ds, p, a, 257, (depth(ds, p, 257) + 1) as nat);
            below_later(ds, p, a, (depth(ds, p, 257) + 1) as nat, 256);
            found_without(ds, after, c as int, p, a, 256);
        } else if x != a {
            found_without(ds, after, c as int, x, a, steps);
            found_without(ds, after, c as int, x, a, 257);
        }
    }
    assert forall|q: int, n: Seq<u8>|
        #![trigger after[q].children.contains_key(n)]
        0 <= q < after.len() && after[q].children.contains_key(n) implies {
        let d = after[q].children[n] as int;
        &&& admissible(n)
        &&& after[q].live
        &&& after[d].linked
        &&& after[d].parent == Some(q as usize)
        &&& after[d].name == n
        &&& after[d].hierarchy == after[q].hierarchy
    } by {
        if !(q == p && n == name) {
            assert(ds[q].children.contains_key(n));
        }
    }
    assert forall|d: int|
        #![trigger after[d]]
        0 <= d < after.len() && after[d].linked implies after[d].live && (
    after[d].parent matches Some(q) ==> {
        let table = after[q as int].children;
        table.contains_key(after[d].name) && table[after[d].name] == d
    }) by {
        if d != c {
            assert(ds[d].linked);
        }
    }
}

/// What is found without a directory that has no table, it being linked or not.
proof fn found_without(ds: Seq<DirView>, after: Seq<DirView>, c: int, x: int, a: int, k: nat)
    requires
        links_agree(ds),
        after.len() == ds.len(),
        0 <= x < ds.len(),
        x != c,
        ds[c].children == Map::<Seq<u8>, usize>::empty(),
        forall|y: int|
            #![trigger after[y]]
            0 <= y < ds.len() ==> after[y].parent == ds[y].parent && after[y].live == ds[y].live
                && (y != c ==> after[y].linked == ds[y].linked),
        forall|y: int|
            #![trigger ds[y]]
            0 <= y < ds.len() ==> (ds[y].parent matches Some(q) ==> q < ds.len()),
    ensures
        below(after, x, a, k) == below(ds, x, a, k),
    decreases k,
{
    if k > 0 && x != a {
        assert(after[x].linked == ds[x].linked);
        if ds[x].linked {
            if let Some(q) = ds[x].parent {
                assert(after[q as int].live == ds[q as int].live);
                assert(ds[q as int].children.contains_key(ds[x].name));
                found_without(ds, after, c, q as int, a, (k - 1) as nat);
            }
        }
    }
}

proof fn unlinking_keeps_links(ds: Seq<DirView>, p: int, name: Seq<u8>, now: u64)
    requires
        links_agree(ds),
        acyclic(ds),
        bounded(ds),
        forall|y: int|
            #![trigger ds[y]]
            0 <= y < ds.len() ==> (ds[y].parent matches Some(q) ==> q < ds.len()),
        forall|x: int, n: Seq<u8>|
            #![trigger ds[x].children.contains_key(n)]
            0 <= x < ds.len() && ds[x].children.contains_key(n) ==> ds[x].children[n] < ds.len(),
        0 <= p < ds.len(),
        ds[p].children.contains_key(name),
        ds[p].children[name] != p,
        ds[ds[p].children[name] as int].children.dom() == Set::<Seq<u8>>::empty(),
        ds.len() <= usize::MAX,
    ensures
        links_agree(unlinked(ds, p, name, now)),
        acyclic(unlinked(ds, p, name, now)),
        bounded(unlinked(ds, p, name, now)),
{
    let after = unlinked(ds, p, name, now);
    let c = ds[p].children[name] as int;
    fewer_steps(ds, after);
    fewer_finds(ds, after);
    assert forall|q: int, n: Seq<u8>|
        #![trigger after[q].children.contains_key(n)]
        0 <= q < after.len() && after[q].children.contains_key(n) implies {
        let d = after[q].children[n] as int;
        &&& admissible(n)
        &&& after[q].live
        &&& after[d].linked
        &&& after[d].parent == Some(q as usize)
        &&& after[d].name == n
        &&& after[d].hierarchy == after[q].hierarchy
    } by {
        assert(ds[q].children.contains_key(n));
        if q == c {
            assert(ds[c].children.dom().contains(n));
        }
        let d = ds[q].children[n] as int;
        if d == c {
            assert(ds[c].parent == Some(q as usize));
            assert(ds[c].parent == Some(p as usize));
            assert(ds[c].name == name);
            assert(false);
        }
    }
    assert forall|d: int|
        #![trigger after[d]]
        0 <= d < after.len() && after[d].linked implies after[d].live && (
    after[d].parent matches Some(q) ==> {
        let table = after[q as int].children;
        table.contains_key(after[d].name) && table[after[d].name] == d
    }) by {
        assert(ds[d].linked);
        if let Some(q) = ds[d].parent {
            assert(ds[q as int].children.contains_key(ds[d].name));
            if q == c {
                assert(ds[c].children.dom().contains(ds[d].name));
            }
        }
    }
}

} // verus!
