//! Creating, removing and renaming directories.

use vstd::prelude::*;
use crate::cgroup::collections::{inode_set, ChildMap, InodeSet, PidMap};
use crate::cgroup::files::{control_file_at, control_files, mode_of, ControlFile};
use crate::cgroup::forest::{acyclic, admissible, below, bounded, depth, ends, links_agree, parent_of, version,
    walk_ends, CgroupDir, CgroupVersion, DirView, Forest, Hierarchy, NodeMetadata};
use crate::error::Error;
use crate::text::same_text;

verus! {

/// Directories that one table names.
pub const MAX_CGROUP_CHILDREN: usize = 65_536;

/// One identity budget for a hierarchy: limits on one table alone do not bound a
/// deep tree.
pub const MAX_CGROUP_INODES: usize = 983_055;

/// Bytes of a name.
pub const MAX_NAME_LEN: usize = 255;

/// Hierarchies of the system.
pub const MAX_CGROUP_HIERARCHIES: usize = 4;

/// Identities that a directory takes: its control files' and its own.
pub const INODES_PER_DIR: u64 = 15;

/// What a name in a directory leads to.
#[derive(Clone, Copy, Debug, PartialEq, Eq, Structural)]
pub enum Entry {
    Dir(usize),
    File(usize, ControlFile),
}

/// The identities that a hierarchy can still give out.
pub open spec fn room(h: Hierarchy) -> int {
    let used = inode_set(h.inodes).len() as int;
    let left = if used <= MAX_CGROUP_INODES {
        MAX_CGROUP_INODES - used
    } else {
        0
    };
    if left <= u64::MAX - h.next_inode {
        left
    } else {
        u64::MAX - h.next_inode
    }
}

/// Why a hierarchy cannot give out the identities of a directory.
pub open spec fn room_error(h: Hierarchy) -> Option<Error> {
    if room(h) >= INODES_PER_DIR {
        None
    } else if inode_set(h.inodes).len() + room(h) >= MAX_CGROUP_INODES {
        Some(Error::NoMemory)
    } else {
        Some(Error::StorageFull)
    }
}

/// Whether a hierarchy only differs in the identities it gave out: those of a
/// directory, or, where there is no room, none that is still in use.
pub open spec fn gave_out(before: Hierarchy, after: Hierarchy) -> bool {
    &&& after.version == before.version
    &&& after.controllers == before.controllers
    &&& after.root == before.root
    &&& room_error(before) is None ==> {
        &&& after.next_inode == before.next_inode + INODES_PER_DIR
        &&& forall|inode: u64| #[trigger]
            inode_set(after.inodes).contains(inode) <==> inode_set(before.inodes).contains(inode)
                || before.next_inode <= inode < after.next_inode
    }
    &&& room_error(before) is Some ==> {
        &&& after.next_inode == before.next_inode + room(before)
        &&& after.inodes == before.inodes
    }
}

/// Hierarchies of which only `h` gave out identities.
pub open spec fn one_gave_out(before: Seq<Hierarchy>, after: Seq<Hierarchy>, h: int) -> bool {
    &&& after.len() == before.len()
    &&& gave_out(before[h], after[h])
    &&& forall|g: int| 0 <= g < before.len() && g != h ==> #[trigger] after[g] == before[g]
}

/// A new directory.
pub open spec fn fresh(
    hierarchy: usize,
    first_inode: u64,
    parent: Option<usize>,
    linked: bool,
    metadata: NodeMetadata,
) -> DirView {
    DirView {
        hierarchy,
        inode: (first_inode + 14) as u64,
        file_inodes: first_inode,
        parent,
        name: Seq::empty(),
        linked,
        live: true,
        namespace_epoch: 0,
        children: Map::empty(),
        pids: Map::empty(),
        pids_max: None,
        pids_peak: 0,
        pids_events_limit: 0,
        frozen: false,
        uclamp: (0, 1024),
        subtree_pids: false,
        metadata,
        files: fresh_files(metadata.atime),
    }
}

/// What the inodes of the control files of a new directory say.
pub open spec fn fresh_files(now: u64) -> Seq<NodeMetadata> {
    Seq::new(
        14,
        |i: int|
            NodeMetadata {
                mode: mode_of(control_files()[i]),
                uid: 0,
                gid: 0,
                rdev: 0,
                atime: now,
                mtime: now,
                ctime: now,
            },
    )
}

/// What a new directory's inode says before anything is asked of it.
pub open spec fn fresh_metadata(now: u64) -> NodeMetadata {
    NodeMetadata { mode: 0o755, uid: 0, gid: 0, rdev: 0, atime: now, mtime: now, ctime: now }
}

/// The metadata of a directory whose table changed.
pub open spec fn touched(m: NodeMetadata, now: u64) -> NodeMetadata {
    NodeMetadata { mtime: now, ctime: now, ..m }
}

/// A table's change counter after one more change.
pub open spec fn epoch_after(epoch: u64) -> u64 {
    if epoch == u64::MAX {
        0
    } else {
        (epoch + 1) as u64
    }
}

/// The directories after `p`'s table named `c`.
pub open spec fn linked_in(
    ds: Seq<DirView>,
    p: int,
    name: Seq<u8>,
    c: usize,
    now: u64,
) -> Seq<DirView> {
    ds.update(
        p,
        DirView {
            children: ds[p].children.insert(name, c),
            namespace_epoch: epoch_after(ds[p].namespace_epoch),
            metadata: touched(ds[p].metadata, now),
            ..ds[p]
        },
    )
}

/// The directories after a name was taken out of `p`'s table.
pub open spec fn linked_out(ds: Seq<DirView>, p: int, name: Seq<u8>, now: u64) -> Seq<DirView> {
    ds.update(
        p,
        DirView {
            children: ds[p].children.remove(name),
            namespace_epoch: epoch_after(ds[p].namespace_epoch),
            metadata: touched(ds[p].metadata, now),
            ..ds[p]
        },
    )
}

impl Forest {
    pub fn new() -> (forest: Forest)
        ensures
            forest.hierarchies@ == Seq::<Hierarchy>::empty(),
            forest@ == Seq::<DirView>::empty(),
            forest.wf(),
    {
        let forest = Forest { hierarchies: Vec::new(), dirs: Vec::new() };
        assert(forest@ =~= Seq::empty());
        forest
    }

    /// Give out the identities of a directory and its control files.
    pub(crate) fn alloc_inodes(&mut self, h: usize) -> (result: Result<u64, Error>)
        requires
            h < old(self).hierarchies@.len(),
            forall|inode: u64| #[trigger]
                inode_set(old(self).hierarchies@[h as int].inodes).contains(inode) ==> inode
                    < old(self).hierarchies@[h as int].next_inode,
        ensures
            one_gave_out(old(self).hierarchies@, final(self).hierarchies@, h as int),
            final(self).dirs == old(self).dirs,
            match (room_error(old(self).hierarchies@[h as int]), result) {
                (None, Ok(first)) => first == old(self).hierarchies@[h as int].next_inode,
                (Some(expected), Err(error)) => error == expected,
                _ => false,
            },
    {
        let used: usize = self.hierarchies[h].inodes.len();
        let next: u64 = self.hierarchies[h].next_inode;
        let left: u64 = if used <= MAX_CGROUP_INODES {
            (MAX_CGROUP_INODES - used) as u64
        } else {
            0
        };
        let room: u64 = if left <= u64::MAX - next {
            left
        } else {
            u64::MAX - next
        };
        if room < INODES_PER_DIR {
            self.hierarchies[h].next_inode = next + room;
            return if used as u64 + room >= MAX_CGROUP_INODES as u64 {
                Err(Error::NoMemory)
            } else {
                Err(Error::StorageFull)
            };
        }
        let mut i: u64 = 0;
        while i < INODES_PER_DIR
            invariant
                i <= 15,
                h < self.hierarchies@.len(),
                next + 15 <= u64::MAX,
                next == old(self).hierarchies@[h as int].next_inode,
                self.hierarchies@.len() == old(self).hierarchies@.len(),
                self.dirs == old(self).dirs,
                self.hierarchies@[h as int].version == old(self).hierarchies@[h as int].version,
                self.hierarchies@[h as int].controllers
                    == old(self).hierarchies@[h as int].controllers,
                self.hierarchies@[h as int].root == old(self).hierarchies@[h as int].root,
                forall|inode: u64| #[trigger]
                    inode_set(self.hierarchies@[h as int].inodes).contains(inode) <==> inode_set(
                        old(self).hierarchies@[h as int].inodes,
                    ).contains(inode) || next <= inode < next + i,
                forall|g: int|
                    0 <= g < old(self).hierarchies@.len() && g != h ==> #[trigger] self.hierarchies@[g]
                        == old(self).hierarchies@[g],
            decreases 15 - i,
        {
            self.hierarchies[h].inodes.insert(next + i);
            i = i + 1;
        }
        self.hierarchies[h].next_inode = next + INODES_PER_DIR;
        Ok(next)
    }

    pub(crate) fn push_dir(&mut self, dir: CgroupDir)
        ensures
            final(self)@ == old(self)@.push(dir@),
            final(self).hierarchies == old(self).hierarchies,
    {
        let ghost view = dir@;
        self.dirs.push(dir);
        assert(self@ =~= old(self)@.push(view));
    }

    /// The hierarchy with this version and these controllers, which is made where
    /// it is not there yet.
    pub fn cgroup_hierarchy(&mut self, version: CgroupVersion, controllers: Vec<String>, now: u64) -> (result:
        Result<usize, Error>)
        requires
            old(self).wf(),
            old(self)@.len() < usize::MAX,
        ensures
            final(self).wf(),
            hierarchy_opened(
                *old(self),
                *final(self),
                version,
                names(controllers@),
                now,
                result,
            ),
    {
        let mut h: usize = 0;
        while h < self.hierarchies.len()
            invariant
                h <= self.hierarchies@.len(),
                *self == *old(self),
                old(self).wf(),
                find_hierarchy(self.hierarchies@, version, names(controllers@), 0)
                    == find_hierarchy(
                    self.hierarchies@,
                    version,
                    names(controllers@),
                    h as nat,
                ),
            decreases self.hierarchies@.len() - h,
        {
            if self.hierarchies[h].version == version && same_names(
                &self.hierarchies[h].controllers,
                &controllers,
            ) {
                return Ok(h);
            }
            h = h + 1;
        }
        if self.hierarchies.len() >= MAX_CGROUP_HIERARCHIES {
            return Err(Error::NoMemory);
        }
        let root: usize = self.dirs.len();
        let ghost before = *self;
        let mut hierarchy = Hierarchy {
            version,
            controllers,
            root,
            inodes: InodeSet::new(),
            next_inode: 1,
        };
        let mut i: u64 = 0;
        while i < INODES_PER_DIR
            invariant
                i <= 15,
                hierarchy.version == version,
                hierarchy.controllers == controllers,
                hierarchy.root == root,
                forall|inode: u64| #[trigger]
                    inode_set(hierarchy.inodes).contains(inode) <==> 1 <= inode < 1 + i,
            decreases 15 - i,
        {
            hierarchy.inodes.insert(1 + i);
            i = i + 1;
        }
        hierarchy.next_inode = 1 + INODES_PER_DIR;
        self.hierarchies.push(hierarchy);
        let dir = new_dir(h, 1, None, true, NodeMetadata::new(0o755, now));
        self.push_dir(dir);
        proof {
            let ds = before@;
            let after = self@;
            assert(ds.len() == root);
            pushed_stays(ds, after[root as int]);
            assert(self.hierarchies@.len() == h + 1);
            assert forall|g: int, inode: u64|
                #![trigger inode_set(self.hierarchies@[g].inodes).contains(inode)]
                0 <= g < self.hierarchies@.len() && inode_set(
                    self.hierarchies@[g].inodes,
                ).contains(inode) implies inode < self.hierarchies@[g].next_inode by {
                if g < h {
                    assert(self.hierarchies@[g] == before.hierarchies@[g]);
                    assert(inode_set(before.hierarchies@[g].inodes).contains(inode));
                }
            }
            assert forall|g: int| 0 <= g < self.hierarchies@.len() implies {
                let at = (#[trigger] self.hierarchies@[g]).root;
                &&& at < self@.len()
                &&& self@[at as int].hierarchy == g
                &&& self@[at as int].parent is None
                &&& self@[at as int].linked
            } by {
                if g < h {
                    assert(before.hierarchies@[g] == self.hierarchies@[g]);
                }
            }
            assert(self.rooted());
            assert forall|x: int, name: Seq<u8>|
                #![trigger self@[x].children.contains_key(name)]
                0 <= x < self@.len() && self@[x].children.contains_key(name) implies self@[x].children[name]
                < self@.len() by {
                if x < root {
                    assert(before@[x].children.contains_key(name));
                }
            }
            assert forall|x: int| 0 <= x < self@.len() implies (#[trigger] self@[x]).hierarchy
                < self.hierarchies@.len() && (self@[x].parent matches Some(p) ==> p
                < self@.len()) by {
                if x < root {
                    assert(before@[x] == self@[x]);
                }
            }
            assert(self.indexed());
            assert(ends(self@, root as int, 257));
            assert(self.hierarchies@ =~= before.hierarchies@.push(self.hierarchies@[h as int]));
        }
        Ok(h)
    }
}

/// What becomes of a forest where the hierarchy with a version and these
/// controllers is asked for: the one that is there is given, else one is made whose
/// root has the first identities.
pub open spec fn hierarchy_opened(
    before: Forest,
    after: Forest,
    version: CgroupVersion,
    controllers: Seq<Seq<char>>,
    now: u64,
    result: Result<usize, Error>,
) -> bool {
    let count = before.hierarchies@.len();
    match find_hierarchy(before.hierarchies@, version, controllers, 0) {
        Some(found) => {
            &&& result == Ok::<usize, Error>(found as usize)
            &&& after@ == before@
            &&& after.hierarchies == before.hierarchies
        },
        None => if count >= MAX_CGROUP_HIERARCHIES {
            &&& result == Err::<usize, Error>(Error::NoMemory)
            &&& after@ == before@
            &&& after.hierarchies == before.hierarchies
        } else {
            let made = after.hierarchies@[count as int];
            &&& result == Ok::<usize, Error>(count as usize)
            &&& after.hierarchies@ == before.hierarchies@.push(made)
            &&& made.version == version
            &&& names(made.controllers@) == controllers
            &&& made.root == before@.len()
            &&& made.next_inode == 1 + INODES_PER_DIR
            &&& forall|inode: u64| #[trigger]
                inode_set(made.inodes).contains(inode) <==> 1 <= inode < 1 + INODES_PER_DIR
            &&& after@ == before@.push(
                fresh(count as usize, 1, None, true, fresh_metadata(now)),
            )
        },
    }
}

/// Texts of a list of names.
pub open spec fn names(list: Seq<String>) -> Seq<Seq<char>> {
    list.map_values(|s: String| s@)
}

/// The first hierarchy from number `h` on with this version and these controllers.
pub open spec fn find_hierarchy(
    hs: Seq<Hierarchy>,
    version: CgroupVersion,
    controllers: Seq<Seq<char>>,
    h: nat,
) -> Option<int>
    decreases hs.len() - h,
{
    if h >= hs.len() {
        None
    } else if hs[h as int].version == version && names(hs[h as int].controllers@) == controllers {
        Some(h as int)
    } else {
        find_hierarchy(hs, version, controllers, h + 1)
    }
}

fn same_names(a: &Vec<String>, b: &Vec<String>) -> (same: bool)
    ensures
        same == (names(a@) == names(b@)),
{
    if a.len() != b.len() {
        assert(names(a@).len() != names(b@).len());
        return false;
    }
    let mut index: usize = 0;
    while index < a.len()
        invariant
            index <= a@.len(),
            a@.len() == b@.len(),
            forall|i: int| 0 <= i < index ==> (#[trigger] a@[i])@ == b@[i]@,
        decreases a@.len() - index,
    {
        if !same_text(a[index].as_str(), b[index].as_str()) {
            assert(names(a@)[index as int] != names(b@)[index as int]);
            return false;
        }
        index = index + 1;
    }
    assert(names(a@) =~= names(b@));
    true
}

fn new_files(now: u64) -> (files: [NodeMetadata; 14])
    ensures
        files@ == fresh_files(now),
{
    let mut files: [NodeMetadata; 14] = [NodeMetadata::new(0, now); 14];
    let mut i: usize = 0;
    while i < 14
        invariant
            i <= 14,
            forall|j: int| 0 <= j < i ==> #[trigger] files@[j] == fresh_files(now)[j],
        decreases 14 - i,
    {
        let file = control_file_at(i);
        files[i] = NodeMetadata::new(file.mode(), now);
        i = i + 1;
    }
    assert(files@ =~= fresh_files(now));
    files
}

pub(crate) fn new_dir(
    hierarchy: usize,
    first_inode: u64,
    parent: Option<usize>,
    linked: bool,
    metadata: NodeMetadata,
) -> (dir: CgroupDir)
    requires
        first_inode + 14 <= u64::MAX,
    ensures
        dir@ == fresh(hierarchy, first_inode, parent, linked, metadata),
{
    let dir = CgroupDir {
        hierarchy,
        inode: first_inode + 14,
        file_inodes: first_inode,
        parent,
        name: Vec::new(),
        linked,
        live: true,
        namespace_epoch: 0,
        children: ChildMap::new(),
        pids: PidMap::new(),
        pids_max: None,
        pids_peak: 0,
        pids_events_limit: 0,
        frozen: false,
        uclamp: (0, 1024),
        subtree_pids: false,
        metadata,
        files: new_files(metadata.atime),
    };
    assert(dir@.children =~= Map::empty());
    assert(dir@.pids =~= Map::empty());
    assert(dir@.name =~= Seq::empty());
    dir
}

/// Walks in a forest whose parent links did not change.
pub proof fn same_walks(before: Seq<DirView>, after: Seq<DirView>, x: int, k: nat)
    requires
        before.len() <= after.len(),
        0 <= x < before.len(),
        forall|y: int|
            #![trigger after[y]]
            0 <= y < before.len() ==> after[y].parent == before[y].parent && after[y].live
                == before[y].live,
        forall|y: int|
            #![trigger before[y]]
            0 <= y < before.len() ==> (before[y].parent matches Some(p) ==> p < before.len()),
    ensures
        ends(after, x, k) == ends(before, x, k),
        depth(after, x, k) == depth(before, x, k),
    decreases k,
{
    if k > 0 {
        assert(after[x].parent == before[x].parent);
        match before[x].parent {
            Some(p) => {
                assert(after[p as int].live == before[p as int].live);
                if before[p as int].live {
                    same_walks(before, after, p as int, (k - 1) as nat);
                }
            },
            None => {},
        }
    }
}

/// Walks in a forest that lost some of its steps end where they did, or before.
pub proof fn fewer_steps(before: Seq<DirView>, after: Seq<DirView>)
    requires
        acyclic(before),
        after.len() == before.len(),
        forall|y: int|
            #![trigger after[y]]
            0 <= y < after.len() ==> (parent_of(after, y) matches Some(p) ==> parent_of(before, y)
                == Some(p) && 0 <= p < after.len()),
    ensures
        acyclic(after),
{
    assert forall|x: int| 0 <= x < after.len() implies #[trigger] walk_ends(after, x) by {
        assert(walk_ends(before, x));
        let steps = choose|steps: nat| #[trigger] ends(before, x, steps);
        ends_sooner(before, after, x, steps);
    }
}

proof fn ends_sooner(before: Seq<DirView>, after: Seq<DirView>, x: int, k: nat)
    requires
        after.len() == before.len(),
        0 <= x < after.len(),
        forall|y: int|
            #![trigger after[y]]
            0 <= y < after.len() ==> (parent_of(after, y) matches Some(p) ==> parent_of(before, y)
                == Some(p) && 0 <= p < after.len()),
        ends(before, x, k),
    ensures
        ends(after, x, k),
    decreases k,
{
    assert(after[x] == after[x]);
    if let Some(p) = parent_of(after, x) {
        ends_sooner(before, after, p, (k - 1) as nat);
    }
}

/// What is found in a forest that lost some of its steps was found before, after as
/// many steps.
pub proof fn fewer_finds(before: Seq<DirView>, after: Seq<DirView>)
    requires
        bounded(before),
        after.len() == before.len(),
        forall|y: int|
            #![trigger after[y]]
            0 <= y < after.len() && after[y].linked ==> before[y].linked && (parent_of(
                after,
                y,
            ) matches Some(p) ==> parent_of(before, y) == Some(p) && 0 <= p < after.len()),
    ensures
        bounded(after),
{
    assert forall|x: int, a: int, steps: nat|
        0 <= x < after.len() && #[trigger] below(after, x, a, steps) implies below(
        after,
        x,
        a,
        257,
    ) by {
        found_before(before, after, x, a, steps);
        found_as_soon(before, after, x, a, steps, 257);
    }
}

proof fn found_before(before: Seq<DirView>, after: Seq<DirView>, x: int, a: int, k: nat)
    requires
        after.len() == before.len(),
        0 <= x < after.len(),
        forall|y: int|
            #![trigger after[y]]
            0 <= y < after.len() && after[y].linked ==> before[y].linked && (parent_of(
                after,
                y,
            ) matches Some(p) ==> parent_of(before, y) == Some(p) && 0 <= p < after.len()),
        below(after, x, a, k),
    ensures
        below(before, x, a, k),
    decreases k,
{
    if x != a {
        assert(after[x].linked);
        if let Some(p) = parent_of(after, x) {
            found_before(before, after, p, a, (k - 1) as nat);
        }
    }
}

proof fn found_as_soon(
    before: Seq<DirView>,
    after: Seq<DirView>,
    x: int,
    a: int,
    k: nat,
    m: nat,
)
    requires
        after.len() == before.len(),
        0 <= x < after.len(),
        forall|y: int|
            #![trigger after[y]]
            0 <= y < after.len() && after[y].linked ==> before[y].linked && (parent_of(
                after,
                y,
            ) matches Some(p) ==> parent_of(before, y) == Some(p) && 0 <= p < after.len()),
        below(after, x, a, k),
        below(before, x, a, m),
    ensures
        below(after, x, a, m),
    decreases k,
{
    if x != a {
        assert(after[x].linked);
        if let Some(p) = parent_of(after, x) {
            found_as_soon(before, after, p, a, (k - 1) as nat, (m - 1) as nat);
        }
    }
}

/// What is found within some steps is found within more.
pub proof fn below_later(ds: Seq<DirView>, x: int, a: int, k: nat, more: nat)
    requires
        below(ds, x, a, k),
        k <= more,
    ensures
        below(ds, x, a, more),
    decreases k,
{
    if x != a {
        if let Some(p) = parent_of(ds, x) {
            below_later(ds, p, a, (k - 1) as nat, (more - 1) as nat);
        }
    }
}

/// What a walk finds it finds before it ends.
pub proof fn found_before_the_end(ds: Seq<DirView>, x: int, a: int, k: nat, m: nat)
    requires
        below(ds, x, a, k),
        ends(ds, x, m),
    ensures
        below(ds, x, a, m),
    decreases k,
{
    if x != a {
        if let Some(p) = parent_of(ds, x) {
            found_before_the_end(ds, p, a, (k - 1) as nat, (m - 1) as nat);
        }
    }
}

/// A new directory without a table changes nothing for the others.
pub proof fn pushed_stays(ds: Seq<DirView>, dir: DirView)
    requires
        links_agree(ds),
        acyclic(ds),
        bounded(ds),
        dir.live,
        dir.children == Map::<Seq<u8>, usize>::empty(),
        dir.linked ==> dir.parent is None,
        dir.parent matches Some(p) ==> p < ds.len(),
        forall|y: int|
            #![trigger ds[y]]
            0 <= y < ds.len() ==> (ds[y].parent matches Some(p) ==> p < ds.len()),
        forall|x: int, name: Seq<u8>|
            #![trigger ds[x].children.contains_key(name)]
            0 <= x < ds.len() && ds[x].children.contains_key(name) ==> ds[x].children[name]
                < ds.len(),
    ensures
        links_agree(ds.push(dir)),
        acyclic(ds.push(dir)),
        bounded(ds.push(dir)),
{
    let after = ds.push(dir);
    assert forall|x: int| 0 <= x < after.len() implies #[trigger] walk_ends(after, x) by {
        if x < ds.len() {
            assert(walk_ends(ds, x));
            let steps = choose|steps: nat| #[trigger] ends(ds, x, steps);
            same_walks(ds, after, x, steps);
        } else {
            match parent_of(after, x) {
                Some(p) => {
                    assert(walk_ends(ds, p));
                    let steps = choose|steps: nat| #[trigger] ends(ds, p, steps);
                    same_walks(ds, after, p, steps);
                    assert(ends(after, x, steps + 1));
                },
                None => {
                    assert(ends(after, x, 1));
                },
            }
        }
    }
    assert forall|x: int, a: int, steps: nat|
        0 <= x < after.len() && #[trigger] below(after, x, a, steps) implies below(
        after,
        x,
        a,
        257,
    ) by {
        if x < ds.len() {
            same_finds(ds, after, x, a, steps);
            same_finds(ds, after, x, a, 257);
        }
    }
    assert forall|p: int, name: Seq<u8>|
        #![trigger after[p].children.contains_key(name)]
        0 <= p < after.len() && after[p].children.contains_key(name) implies {
        let c = after[p].children[name] as int;
        &&& admissible(name)
        &&& after[p].live
        &&& after[c].linked
        &&& after[c].parent == Some(p as usize)
        &&& after[c].name == name
        &&& after[c].hierarchy == after[p].hierarchy
    } by {
        if p < ds.len() {
            assert(ds[p].children.contains_key(name));
        }
    }
    assert forall|c: int|
        #![trigger after[c]]
        0 <= c < after.len() && after[c].linked implies after[c].live && (
    after[c].parent matches Some(p) ==> {
        let table = after[p as int].children;
        table.contains_key(after[c].name) && table[after[c].name] == c
    }) by {
        if c < ds.len() {
            assert(ds[c].linked);
        }
    }
}

/// What is found in a forest that only grew.
proof fn same_finds(before: Seq<DirView>, after: Seq<DirView>, x: int, a: int, k: nat)
    requires
        before.len() <= after.len(),
        0 <= x < before.len(),
        forall|y: int| 0 <= y < before.len() ==> #[trigger] after[y] == before[y],
        forall|y: int|
            #![trigger before[y]]
            0 <= y < before.len() ==> (before[y].parent matches Some(p) ==> p < before.len()),
    ensures
        below(after, x, a, k) == below(before, x, a, k),
    decreases k,
{
    if k > 0 && x != a {
        assert(after[x] == before[x]);
        if let Some(p) = before[x].parent {
            assert(after[p as int] == before[p as int]);
            same_finds(before, after, p as int, a, (k - 1) as nat);
        }
    }
}

} // verus!
