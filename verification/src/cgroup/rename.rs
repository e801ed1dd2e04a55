//! Renaming directories within a hierarchy.

use vstd::prelude::*;
use crate::bytes::to_vec;
use crate::cgroup::admission::same_references;
use crate::cgroup::files::{control_file_named, named};
use crate::cgroup::forest::{acyclic, admissible, below, bounded, depth, distance, ends, links_agree, parent_of,
    reaches, version, walk_ends, CgroupVersion, DirView, Forest, Hierarchy, NodeMetadata,
    MAX_CGROUP_DEPTH, MAX_CGROUP_STEPS};
use crate::cgroup::namespace::{below_later, epoch_after, fewer_finds, fewer_steps,
    found_before_the_end, linked_in, linked_out, touched, Entry, MAX_CGROUP_CHILDREN, MAX_NAME_LEN};
use crate::cgroup::registry::{peaked, same_indexes, PidMembershipRegistry, RegistryValidation};
use crate::cgroup::tree::{ends_at_depth, has_newline, next_epoch, not_its_own_parent,
    try_reserve_cgroup_child_slot, walk_settles};
use crate::error::Error;

verus! {

/// The greatest number of steps up to `c` from one of the first `n` directories
/// that are found below it.
pub open spec fn height_among(ds: Seq<DirView>, c: int, n: nat) -> int
    decreases n,
{
    if n == 0 {
        0
    } else {
        let x = n - 1;
        let before = height_among(ds, c, (n - 1) as nat);
        if below(ds, x, c, 257) && distance(ds, x, c, 257) > before {
            distance(ds, x, c, 257)
        } else {
            before
        }
    }
}

/// The height of the tree below `c`.
pub open spec fn height(ds: Seq<DirView>, c: int) -> int {
    height_among(ds, c, ds.len())
}

/// What a rename comes to: whether it changes anything, or why it is refused.  Nothing
/// leaves a directory whose own entry the file system layer no longer holds.
pub open spec fn rename_outcome(
    hs: Seq<Hierarchy>,
    ds: Seq<DirView>,
    held: bool,
    from: int,
    src_name: Seq<u8>,
    src: Entry,
    to: int,
    dst_name: Seq<u8>,
    dst: Option<Entry>,
) -> Result<bool, Error> {
    let c = ds[from].children[src_name];
    let there = ds[to].children.get(dst_name);
    if ds[from].hierarchy != ds[to].hierarchy {
        Err(Error::CrossesDevices)
    } else if version(hs, ds, from) != CgroupVersion::V1 {
        Err(Error::OperationNotPermitted)
    } else if dst_name.len() > MAX_NAME_LEN {
        Err(Error::NameTooLong)
    } else if dst_name.contains(10u8) {
        Err(Error::InvalidInput)
    } else if named(src_name) is Some || named(dst_name) is Some {
        Err(Error::OperationNotPermitted)
    } else if from != to && !held {
        Err(Error::InvalidInput)
    } else if !ds[from].children.contains_key(src_name) || src != Entry::Dir(c) {
        Err(Error::NotFound)
    } else if dst != (match there {
        Some(d) => Some(Entry::Dir(d)),
        None => None::<Entry>,
    }) {
        Err(Error::NotFound)
    } else if there == Some(c) {
        Ok(false)
    } else if there is Some {
        Err(Error::AlreadyExists)
    } else if from == to {
        Ok(true)
    } else if reaches(ds, to, c as int, 256) || !ends(ds, to, 256) {
        Err(Error::InvalidInput)
    } else if depth(ds, to, 257) + 1 + height(ds, c as int) > MAX_CGROUP_DEPTH {
        Err(Error::FilesystemLoop)
    } else if ds[to].children.dom().len() >= MAX_CGROUP_CHILDREN {
        Err(Error::NoMemory)
    } else {
        Ok(true)
    }
}

/// The directories after `c` was renamed.
pub open spec fn renamed(
    ds: Seq<DirView>,
    from: int,
    src_name: Seq<u8>,
    to: int,
    dst_name: Seq<u8>,
    now: u64,
) -> Seq<DirView> {
    let c = ds[from].children[src_name];
    let moved = if from == to {
        ds.update(
            from,
            DirView {
                children: ds[from].children.remove(src_name).insert(dst_name, c),
                namespace_epoch: epoch_after(ds[from].namespace_epoch),
                metadata: touched(ds[from].metadata, now),
                ..ds[from]
            },
        )
    } else {
        linked_in(linked_out(ds, from, src_name, now), to, dst_name, c, now)
    };
    moved.update(
        c as int,
        DirView {
            parent: Some(to as usize),
            name: dst_name,
            metadata: NodeMetadata { ctime: now, ..ds[c as int].metadata },
            ..ds[c as int]
        },
    )
}

impl Forest {
    /// The number of steps from `x` up to `a`.
    fn steps_up(&self, x: usize, a: usize) -> (steps: usize)
        requires
            self.indexed(),
            x < self@.len(),
        ensures
            steps == distance(self@, x as int, a as int, 257),
            steps <= 257,
    {
        let mut current: usize = x;
        let mut steps: usize = 0;
        while steps < MAX_CGROUP_STEPS && current != a
            invariant
                self.indexed(),
                current < self@.len(),
                steps <= 257,
                distance(self@, x as int, a as int, 257) == steps + distance(
                    self@,
                    current as int,
                    a as int,
                    (257 - steps) as nat,
                ),
            decreases 257 - steps,
        {
            match self.parent_index(current) {
                Some(p) => {
                    current = p;
                    steps = steps + 1;
                },
                None => {
                    return steps;
                },
            }
        }
        steps
    }

    /// The height of the tree below `c`.
    pub fn subtree_height(&self, c: usize) -> (tall: usize)
        requires
            self.indexed(),
        ensures
            tall == height(self@, c as int),
            tall <= 257,
    {
        let mut tall: usize = 0;
        let mut x: usize = 0;
        while x < self.dirs.len()
            invariant
                self.indexed(),
                x <= self@.len(),
                tall <= 257,
                tall == height_among(self@, c as int, x as nat),
            decreases self@.len() - x,
        {
            if self.is_below(x, c) {
                let steps: usize = self.steps_up(x, c);
                if steps > tall {
                    tall = steps;
                }
            }
            x = x + 1;
        }
        tall
    }

    fn rename_child(&mut self, p: usize, src_name: &[u8], dst_name: Vec<u8>, c: usize, now: u64)
        requires
            p < old(self)@.len(),
        ensures
            final(self)@ == old(self)@.update(
                p as int,
                DirView {
                    children: old(self)@[p as int].children.remove(src_name@).insert(
                        dst_name@,
                        c,
                    ),
                    namespace_epoch: epoch_after(old(self)@[p as int].namespace_epoch),
                    metadata: touched(old(self)@[p as int].metadata, now),
                    ..old(self)@[p as int]
                },
            ),
            final(self).hierarchies == old(self).hierarchies,
    {
        let ghost bytes = dst_name@;
        assert(self.dirs@[p as int]@ == self@[p as int]);
        let epoch: u64 = next_epoch(self.dirs[p].namespace_epoch);
        self.dirs[p].children.remove(src_name);
        self.dirs[p].children.insert(dst_name, c);
        self.dirs[p].namespace_epoch = epoch;
        self.dirs[p].metadata.mtime = now;
        self.dirs[p].metadata.ctime = now;
        assert(self@ =~= old(self)@.update(
            p as int,
            DirView {
                children: old(self)@[p as int].children.remove(src_name@).insert(bytes, c),
                namespace_epoch: epoch_after(old(self)@[p as int].namespace_epoch),
                metadata: touched(old(self)@[p as int].metadata, now),
                ..old(self)@[p as int]
            },
        ));
    }

    fn place(&mut self, c: usize, parent: usize, name: Vec<u8>, now: u64)
        requires
            c < old(self)@.len(),
        ensures
            final(self)@ == old(self)@.update(
                c as int,
                DirView {
                    parent: Some(parent),
                    name: name@,
                    metadata: NodeMetadata { ctime: now, ..old(self)@[c as int].metadata },
                    ..old(self)@[c as int]
                },
            ),
            final(self).hierarchies == old(self).hierarchies,
    {
        let ghost bytes = name@;
        assert(self.dirs@[c as int]@ == self@[c as int]);
        self.dirs[c].parent = Some(parent);
        self.dirs[c].name = name;
        self.dirs[c].metadata.ctime = now;
        assert(self@ =~= old(self)@.update(
            c as int,
            DirView {
                parent: Some(parent),
                name: bytes,
                metadata: NodeMetadata { ctime: now, ..old(self)@[c as int].metadata },
                ..old(self)@[c as int]
            },
        ));
    }

    /// Decide on a rename.  `held` says whether the file system layer still holds the
    /// entry of `from`.
    pub fn check_rename(
        &self,
        held: bool,
        from: usize,
        src_name: &[u8],
        src: Entry,
        to: usize,
        dst_name: &[u8],
        dst: Option<Entry>,
    ) -> (result: Result<bool, Error>)
        requires
            self.indexed(),
            from < self@.len(),
            to < self@.len(),
        ensures
            result == rename_outcome(
                self.hierarchies@,
                self@,
                held,
                from as int,
                src_name@,
                src,
                to as int,
                dst_name@,
                dst,
            ),
    {
        assert(self.dirs@[from as int]@ == self@[from as int]);
        assert(self.dirs@[to as int]@ == self@[to as int]);
        if self.dirs[from].hierarchy != self.dirs[to].hierarchy {
            return Err(Error::CrossesDevices);
        }
        if self.version_of(from) != CgroupVersion::V1 {
            return Err(Error::OperationNotPermitted);
        }
        if dst_name.len() > MAX_NAME_LEN {
            return Err(Error::NameTooLong);
        }
        if has_newline(dst_name) {
            return Err(Error::InvalidInput);
        }
        if control_file_named(src_name).is_some() || control_file_named(dst_name).is_some() {
            return Err(Error::OperationNotPermitted);
        }
        if from != to && !held {
            return Err(Error::InvalidInput);
        }
        let c: usize = match self.dirs[from].children.get(src_name) {
            Some(c) => c,
            None => {
                return Err(Error::NotFound);
            },
        };
        if src != Entry::Dir(c) {
            return Err(Error::NotFound);
        }
        let there: Option<usize> = self.dirs[to].children.get(dst_name);
        match (dst, there) {
            (None, None) => {},
            (Some(expected), Some(actual)) => {
                if expected != Entry::Dir(actual) {
                    return Err(Error::NotFound);
                }
            },
            _ => {
                return Err(Error::NotFound);
            },
        }
        if let Some(d) = there {
            return if d == c {
                Ok(false)
            } else {
                Err(Error::AlreadyExists)
            };
        }
        if from == to {
            return Ok(true);
        }
        if self.is_same_or_descendant_of(to, c) {
            return Err(Error::InvalidInput);
        }
        proof {
            walk_settles(self@, to as int, 256, 257);
        }
        match self.hierarchy_depth(to) {
            Ok(deep) => {
                if deep + 1 + self.subtree_height(c) > MAX_CGROUP_DEPTH {
                    return Err(Error::FilesystemLoop);
                }
            },
            Err(_) => {
                return Err(Error::InvalidInput);
            },
        }
        match try_reserve_cgroup_child_slot(&self.dirs[to].children, MAX_CGROUP_CHILDREN, true) {
            Ok(()) => Ok(true),
            Err(error) => Err(error),
        }
    }
}

impl PidMembershipRegistry {
    /// Rename a directory, also into another one, and count its members in the
    /// directories that it came below.  `held` says whether the file system layer still
    /// holds the entry of `from`.
    pub fn rename(
        &self,
        forest: &mut Forest,
        validation: &RegistryValidation,
        held: bool,
        from: usize,
        src_name: &[u8],
        src: Entry,
        to: usize,
        dst_name: &[u8],
        dst: Option<Entry>,
        now: u64,
    ) -> (result: Result<(), Error>)
        requires
            old(forest).wf(),
            self.refers(*old(forest)),
            from < old(forest)@.len(),
            to < old(forest)@.len(),
            old(forest)@[to as int].live,
        ensures
            ({
                let hs = old(forest).hierarchies@;
                let ds = old(forest)@;
                match (
                    rename_outcome(
                        hs,
                        ds,
                        held,
                        from as int,
                        src_name@,
                        src,
                        to as int,
                        dst_name@,
                        dst,
                    ),
                    result,
                ) {
                    (Ok(true), Ok(())) => {
                        let after = renamed(
                            ds,
                            from as int,
                            src_name@,
                            to as int,
                            dst_name@,
                            now,
                        );
                        final(forest)@ == (if from == to {
                            after
                        } else {
                            peaked(
                                self.index(),
                                self.bits(),
                                *validation,
                                hs,
                                after,
                                ds[from as int].children[src_name@] as int,
                                0,
                            )
                        })
                    },
                    (Ok(false), Ok(())) => final(forest)@ == ds,
                    (Err(expected), Err(error)) => error == expected && final(forest)@ == ds,
                    _ => false,
                }
            }),
            final(forest).wf(),
            self.refers(*final(forest)),
            final(forest).hierarchies == old(forest).hierarchies,
    {
        match forest.check_rename(held, from, src_name, src, to, dst_name, dst) {
            Err(error) => {
                return Err(error);
            },
            Ok(changes) => {
                if !changes {
                    return Ok(());
                }
            },
        }
        let ghost before = *forest;
        let ghost ds = forest@;
        let count: usize = forest.dirs.len();
        assert(ds.len() == count);
        assert(forest.dirs@[from as int]@ == ds[from as int]);
        let c: usize = match forest.dirs[from].children.get(src_name) {
            Some(c) => c,
            None => {
                return Err(Error::NotFound);
            },
        };
        assert(ds[from as int].children.contains_key(src_name@));
        proof {
            not_its_own_parent(ds, from as int, src_name@);
        }
        if from == to {
            forest.rename_child(from, src_name, to_vec(dst_name), c, now);
        } else {
            assert(to != c) by {
                assert(reaches(ds, c as int, c as int, 256));
            }
            forest.unlink_child(from, src_name, now);
            forest.link_child(to, to_vec(dst_name), c, now);
        }
        assert(forest@.len() == ds.len());
        forest.place(c, to, to_vec(dst_name), now);
        assert(forest@ =~= renamed(ds, from as int, src_name@, to as int, dst_name@, now));
        let ghost after = *forest;
        proof {
            if from != to {
                walk_settles(ds, to as int, 256, 257);
            }
            renaming_keeps_links(ds, from as int, src_name@, to as int, dst_name@, now);
            let renamed_ds = forest@;
            assert forall|x: int, n: Seq<u8>|
                #![trigger renamed_ds[x].children.contains_key(n)]
                0 <= x < renamed_ds.len() && renamed_ds[x].children.contains_key(n) implies renamed_ds[x].children[n]
                < renamed_ds.len() by {
                if !(x == to && n == dst_name@) {
                    assert(ds[x].children.contains_key(n));
                }
            }
            assert forall|x: int| 0 <= x < renamed_ds.len() implies (
            #[trigger] renamed_ds[x]).hierarchy < forest.hierarchies@.len() && (
            renamed_ds[x].parent matches Some(q) ==> q < renamed_ds.len()) by {
                assert(ds[x].hierarchy < before.hierarchies@.len());
            }
            assert forall|g: int| 0 <= g < forest.hierarchies@.len() implies {
                let at = (#[trigger] forest.hierarchies@[g]).root;
                &&& at < forest@.len()
                &&& forest@[at as int].hierarchy == g
                &&& forest@[at as int].parent is None
                &&& forest@[at as int].linked
            } by {
                assert(before.hierarchies@[g] == forest.hierarchies@[g]);
                assert(ds[c as int].parent == Some(from));
            }
            assert forall|x: int, pid: u64|
                0 <= x < ds.len() && #[trigger] forest@[x].pids.contains_key(
                    pid,
                ) implies ds[x].pids.contains_key(pid) && forest@[x].pids[pid]
                == ds[x].pids[pid] by {}
            same_references(*self, *self, before, *forest);
        }
        if from != to {
            self.update_pids_peak_hierarchy(forest, validation, c, false);
            proof {
                counts_keep_wf(after, *forest);
                same_references(*self, *self, after, *forest);
            }
        }
        Ok(())
    }
}

/// A forest stays well formed where only peaks changed, or what inodes say.
pub proof fn counts_keep_wf(before: Forest, after: Forest)
    requires
        before.wf(),
        after.hierarchies == before.hierarchies,
        after@.len() == before@.len(),
        forall|x: int|
            #![trigger after@[x]]
            0 <= x < before@.len() ==> after@[x] == (DirView {
                pids_peak: after@[x].pids_peak,
                metadata: after@[x].metadata,
                files: after@[x].files,
                ..before@[x]
            }),
    ensures
        after.wf(),
{
    same_indexes(before, after);
    let ds = before@;
    let ds2 = after@;
    assert forall|y: int|
        #![trigger ds2[y]]
        0 <= y < ds2.len() implies ds2[y].linked == ds[y].linked && ds2[y].live == ds[y].live
        && parent_of(ds2, y) == parent_of(ds, y) && (parent_of(ds, y) matches Some(p) ==> 0 <= p
        < ds2.len()) by {
        assert(after@[y] == ds2[y]);
        if let Some(p) = ds[y].parent {
            assert(after@[p as int] == ds2[p as int]);
        }
    }
    fewer_steps(ds, ds2);
    fewer_finds(ds, ds2);
    assert forall|p: int, name: Seq<u8>|
        #![trigger ds2[p].children.contains_key(name)]
        0 <= p < ds2.len() && ds2[p].children.contains_key(name) implies {
        let c = ds2[p].children[name] as int;
        &&& admissible(name)
        &&& ds2[p].live
        &&& ds2[c].linked
        &&& ds2[c].parent == Some(p as usize)
        &&& ds2[c].name == name
        &&& ds2[c].hierarchy == ds2[p].hierarchy
    } by {
        assert(after@[p] == ds2[p]);
        assert(ds[p].children.contains_key(name));
        let c = ds[p].children[name] as int;
        assert(after@[c] == ds2[c]);
    }
    assert forall|c: int|
        #![trigger ds2[c]]
        0 <= c < ds2.len() && ds2[c].linked implies ds2[c].live && (
    ds2[c].parent matches Some(p) ==> {
        let table = ds2[p as int].children;
        table.contains_key(ds2[c].name) && table[ds2[c].name] == c
    }) by {
        assert(after@[c] == ds2[c]);
        assert(ds[c].linked);
        if let Some(p) = ds[c].parent {
            assert(after@[p as int] == ds2[p as int]);
        }
    }
    assert forall|g: int| 0 <= g < after.hierarchies@.len() implies {
        let at = (#[trigger] after.hierarchies@[g]).root;
        &&& at < after@.len()
        &&& after@[at as int].hierarchy == g
        &&& after@[at as int].parent is None
        &&& after@[at as int].linked
    } by {
        let at = before.hierarchies@[g].root;
        assert(after@[at as int].linked == before@[at as int].linked);
    }
}

/// A walk that never met `c` is not changed by what `c`'s parent is.
proof fn walks_around(ds: Seq<DirView>, after: Seq<DirView>, c: int, y: int, k: nat)
    requires
        ds.len() == after.len(),
        0 <= y < ds.len(),
        forall|x: int|
            #![trigger after[x]]
            0 <= x < ds.len() ==> after[x].live == ds[x].live && (x != c ==> after[x].parent
                == ds[x].parent),
        forall|x: int|
            #![trigger ds[x]]
            0 <= x < ds.len() ==> (ds[x].parent matches Some(p) ==> p < ds.len()),
        !reaches(ds, y, c, k),
    ensures
        ends(after, y, k) == ends(ds, y, k),
    decreases k,
{
    if k > 0 {
        assert(after[y].parent == ds[y].parent);
        if let Some(p) = ds[y].parent {
            assert(after[p as int].live == ds[p as int].live);
            if ds[p as int].live {
                walks_around(ds, after, c, p as int, (k - 1) as nat);
            }
        }
    }
}

/// A walk that meets `c` goes on as `c`'s does.
proof fn walks_through(ds: Seq<DirView>, after: Seq<DirView>, c: int, y: int, k: nat, m: nat)
    requires
        ds.len() == after.len(),
        0 <= y < ds.len(),
        forall|x: int|
            #![trigger after[x]]
            0 <= x < ds.len() ==> after[x].live == ds[x].live && (x != c ==> after[x].parent
                == ds[x].parent),
        forall|x: int|
            #![trigger ds[x]]
            0 <= x < ds.len() ==> (ds[x].parent matches Some(p) ==> p < ds.len()),
        reaches(ds, y, c, k),
        ends(after, c, m),
    ensures
        distance(ds, y, c, k) >= 0,
        ends(after, y, (distance(ds, y, c, k) + m) as nat),
    decreases k,
{
    if y != c {
        assert(after[y].parent == ds[y].parent);
        if let Some(p) = ds[y].parent {
            assert(after[p as int].live == ds[p as int].live);
            if ds[p as int].live {
                walks_through(ds, after, c, p as int, (k - 1) as nat, m);
            }
        }
    }
}

/// Whether `a` is found above `x` before `c` is met.
spec fn clear(ds: Seq<DirView>, x: int, a: int, c: int, k: nat) -> bool
    decreases k,
{
    k > 0 && (x == a || (x != c && ds[x].linked && (match parent_of(ds, x) {
        Some(p) => clear(ds, p, a, c, (k - 1) as nat),
        None => false,
    })))
}

/// What is found before `c` is met does not depend on what `c`'s parent is.
proof fn clear_stays(ds: Seq<DirView>, after: Seq<DirView>, x: int, a: int, c: int, k: nat)
    requires
        ds.len() == after.len(),
        0 <= x < ds.len(),
        forall|y: int|
            #![trigger after[y]]
            0 <= y < ds.len() ==> after[y].live == ds[y].live && after[y].linked == ds[y].linked
                && (y != c ==> after[y].parent == ds[y].parent),
        forall|y: int|
            #![trigger ds[y]]
            0 <= y < ds.len() ==> (ds[y].parent matches Some(p) ==> p < ds.len()),
    ensures
        clear(after, x, a, c, k) == clear(ds, x, a, c, k),
        a == c ==> distance(after, x, c, k) == distance(ds, x, c, k),
    decreases k,
{
    if k > 0 && x != a && x != c {
        assert(after[x].parent == ds[x].parent && after[x].linked == ds[x].linked);
        if let Some(p) = ds[x].parent {
            assert(after[p as int].live == ds[p as int].live);
            if ds[p as int].live {
                clear_stays(ds, after, p as int, a, c, (k - 1) as nat);
            }
        }
    }
}

/// What is found is found before `c` is met, or above `c`.
proof fn found_through(ds: Seq<DirView>, x: int, a: int, c: int, k: nat)
    requires
        below(ds, x, a, k),
    ensures
        clear(ds, x, a, c, k) || (clear(ds, x, c, c, k) && below(ds, c, a, k)),
    decreases k,
{
    if x != a && x != c {
        if let Some(p) = parent_of(ds, x) {
            found_through(ds, p, a, c, (k - 1) as nat);
            if clear(ds, p, c, c, (k - 1) as nat) && below(ds, c, a, (k - 1) as nat) {
                below_later(ds, c, a, (k - 1) as nat, k);
            }
        }
    }
}

proof fn clear_is_below(ds: Seq<DirView>, x: int, a: int, c: int, k: nat)
    requires
        clear(ds, x, a, c, k),
    ensures
        below(ds, x, a, k),
    decreases k,
{
    if x != a {
        if let Some(p) = parent_of(ds, x) {
            clear_is_below(ds, p, a, c, (k - 1) as nat);
        }
    }
}

/// What is found before `c` is met is found so within any steps that find it.
proof fn clear_as_soon(ds: Seq<DirView>, x: int, a: int, c: int, k: nat, m: nat)
    requires
        clear(ds, x, a, c, k),
        below(ds, x, a, m),
    ensures
        clear(ds, x, a, c, m),
    decreases k,
{
    if x != a {
        if let Some(p) = parent_of(ds, x) {
            clear_as_soon(ds, p, a, c, (k - 1) as nat, (m - 1) as nat);
        }
    }
}

/// What is found above `c` is found from below `c`.
proof fn found_above(ds: Seq<DirView>, x: int, c: int, a: int, k: nat, m: nat)
    requires
        below(ds, x, c, k),
        below(ds, c, a, m),
    ensures
        distance(ds, x, c, k) >= 0,
        below(ds, x, a, (distance(ds, x, c, k) + m) as nat),
    decreases k,
{
    if x != c {
        if let Some(p) = parent_of(ds, x) {
            found_above(ds, p, c, a, (k - 1) as nat, m);
        }
    }
}

/// No directory below `c` is farther from it than the height.
proof fn within_height(ds: Seq<DirView>, c: int, y: int, n: nat)
    requires
        0 <= y < n,
        below(ds, y, c, 257),
    ensures
        distance(ds, y, c, 257) <= height_among(ds, c, n),
    decreases n,
{
    if y < n - 1 {
        within_height(ds, c, y, (n - 1) as nat);
    }
}

/// Where only the parent of `c` changed, to one that is not below it and not too deep,
/// walks still end and nothing is found too deep.
proof fn moving_keeps_walks(ds: Seq<DirView>, after: Seq<DirView>, c: int, to: int)
    requires
        acyclic(ds),
        bounded(ds),
        ds.len() == after.len(),
        0 <= c < ds.len(),
        0 <= to < ds.len(),
        forall|y: int|
            #![trigger ds[y]]
            0 <= y < ds.len() ==> (ds[y].parent matches Some(p) ==> p < ds.len()),
        forall|y: int|
            #![trigger after[y]]
            0 <= y < ds.len() ==> after[y].live == ds[y].live && after[y].linked == ds[y].linked
                && (y != c ==> after[y].parent == ds[y].parent),
        parent_of(after, c) == Some(to),
        !reaches(ds, to, c, 257),
        ends(ds, to, 257),
        depth(ds, to, 257) + 1 + height(ds, c) <= MAX_CGROUP_DEPTH,
    ensures
        acyclic(after),
        bounded(after),
{
    ends_at_depth(ds, to, 257);
    let k = (depth(ds, to, 257) + 1) as nat;
    assert(!reaches(ds, to, c, k)) by {
        if reaches(ds, to, c, k) {
            reaches_later(ds, to, c, k, 257);
        }
    }
    walks_around(ds, after, c, to, k);
    assert(ends(after, c, k + 1));
    assert forall|x: int| 0 <= x < after.len() implies #[trigger] walk_ends(after, x) by {
        assert(walk_ends(ds, x));
        let steps = choose|steps: nat| #[trigger] ends(ds, x, steps);
        if reaches(ds, x, c, steps) {
            walks_through(ds, after, c, x, steps, k + 1);
        } else {
            walks_around(ds, after, c, x, steps);
        }
    }
    assert forall|x: int, a: int, steps: nat|
        0 <= x < after.len() && #[trigger] below(after, x, a, steps) implies below(
        after,
        x,
        a,
        257,
    ) by {
        found_through(after, x, a, c, steps);
        if clear(after, x, a, c, steps) {
            found_clear(ds, after, x, a, c, steps);
        } else {
            found_clear(ds, after, x, c, c, steps);
            clear_is_below(ds, x, c, c, 257);
            within_height(ds, c, x, ds.len());
            clear_stays(ds, after, x, c, c, 257);
            if a != c {
                found_before_the_end(after, to, a, (steps - 1) as nat, k);
                assert(below(after, c, a, k + 1));
            } else {
                assert(below(after, c, a, k + 1));
            }
            found_above(after, x, c, a, 257, k + 1);
            below_later(after, x, a, (distance(after, x, c, 257) + k + 1) as nat, 257);
        }
    }
}

/// What is found before `c` is met is found so within the admitted depth.
proof fn found_clear(ds: Seq<DirView>, after: Seq<DirView>, x: int, a: int, c: int, k: nat)
    requires
        bounded(ds),
        ds.len() == after.len(),
        0 <= x < ds.len(),
        forall|y: int|
            #![trigger ds[y]]
            0 <= y < ds.len() ==> (ds[y].parent matches Some(p) ==> p < ds.len()),
        forall|y: int|
            #![trigger after[y]]
            0 <= y < ds.len() ==> after[y].live == ds[y].live && after[y].linked == ds[y].linked
                && (y != c ==> after[y].parent == ds[y].parent),
        clear(after, x, a, c, k),
    ensures
        clear(ds, x, a, c, 257),
        below(after, x, a, 257),
{
    clear_stays(ds, after, x, a, c, k);
    clear_is_below(ds, x, a, c, k);
    clear_as_soon(ds, x, a, c, k, 257);
    clear_stays(ds, after, x, a, c, 257);
    clear_is_below(after, x, a, c, 257);
}

proof fn renaming_keeps_links(
    ds: Seq<DirView>,
    from: int,
    src_name: Seq<u8>,
    to: int,
    dst_name: Seq<u8>,
    now: u64,
)
    requires
        links_agree(ds),
        acyclic(ds),
        bounded(ds),
        forall|y: int|
            #![trigger ds[y]]
            0 <= y < ds.len() ==> (ds[y].parent matches Some(q) ==> q < ds.len()),
        forall|x: int, n: Seq<u8>|
            #![trigger ds[x].children.contains_key(n)]
            0 <= x < ds.len() && ds[x].children.contains_key(n) ==> ds[x].children[n] < ds.len(),
        0 <= from < ds.len(),
        0 <= to < ds.len(),
        ds[to].live,
        ds[from].hierarchy == ds[to].hierarchy,
        ds[from].children.contains_key(src_name),
        ds[from].children[src_name] != from,
        !ds[to].children.contains_key(dst_name),
        admissible(dst_name),
        ds.len() <= usize::MAX,
        from != to ==> !reaches(ds, to, ds[from].children[src_name] as int, 257) && ends(
            ds,
            to,
            257,
        ) && depth(ds, to, 257) + 1 + height(ds, ds[from].children[src_name] as int)
            <= MAX_CGROUP_DEPTH,
    ensures
        links_agree(renamed(ds, from, src_name, to, dst_name, now)),
        acyclic(renamed(ds, from, src_name, to, dst_name, now)),
        bounded(renamed(ds, from, src_name, to, dst_name, now)),
{
    let after = renamed(ds, from, src_name, to, dst_name, now);
    let c = ds[from].children[src_name] as int;
    assert(ds[c].parent == Some(from as usize) && ds[c].name == src_name && ds[c].linked);
    if from != to {
        assert(to != c);
    }
    if from == to {
        fewer_steps(ds, after);
        fewer_finds(ds, after);
    } else {
        moving_keeps_walks(ds, after, c, to);
    }
    assert forall|q: int, n: Seq<u8>|
        #![trigger after[q].children.contains_key(n)]
        0 <= q < after.len() && after[q].children.contains_key(n) implies {
        let d = after[q].children[n] as int;
        &&& admissible(n)
        &&& after[q].live
        &&& after[d].linked
        &&& after[d].parent == Some(q as usize)
        &&& after[d].name == n
        &&& after[d].hierarchy == after[q].hierarchy
    } by {
        if !(q == to && n == dst_name) {
            assert(ds[q].children.contains_key(n));
            let d = ds[q].children[n] as int;
            if d == c {
                assert(ds[c].parent == Some(q as usize) && ds[c].name == n);
                assert(q == from && n == src_name);
                assert(false);
            }
        }
    }
    assert forall|d: int|
        #![trigger after[d]]
        0 <= d < after.len() && after[d].linked implies after[d].live && (
    after[d].parent matches Some(q) ==> {
        let table = after[q as int].children;
        table.contains_key(after[d].name) && table[after[d].name] == d
    }) by {
        assert(ds[d].linked);
        if d != c {
            if let Some(q) = ds[d].parent {
                assert(ds[q as int].children.contains_key(ds[d].name));
                assert(ds[q as int].children[ds[d].name] == d);
            }
        }
    }
}

/// What is met within some steps is met within more.
proof fn reaches_later(ds: Seq<DirView>, x: int, a: int, k: nat, more: nat)
    requires
        reaches(ds, x, a, k),
        k <= more,
    ensures
        reaches(ds, x, a, more),
    decreases k,
{
    if x != a {
        if let Some(p) = parent_of(ds, x) {
            reaches_later(ds, p, a, (k - 1) as nat, (more - 1) as nat);
        }
    }
}

} // verus!
